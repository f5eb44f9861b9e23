use ditherpunk::buffer::PixelBuffer;
use ditherpunk::color::{Color, Named};
use ditherpunk::diffusion::{diffuse_tap, diffuse_with, palette_diffusion, Residual};
use ditherpunk::engine::{
    gray_levels, ordered_dither, palette_quantize, quantize_with, random_dither,
    random_dither_with, random_pixel, threshold,
};
use ditherpunk::kernel::{kernel_by_name, Tap};
use ditherpunk::palette::{diffusion_catalog, nearest_of, select_first, ConfigError};

fn rgb(r: u8, g: u8, b: u8) -> Color {
    Color { r, g, b }
}

fn gray(v: u8) -> Color {
    rgb(v, v, v)
}

fn grid(width: usize, height: usize, pixels: Vec<Color>) -> PixelBuffer {
    match PixelBuffer::from_pixels(width, height, pixels) {
        Some(g) => g,
        None => panic!("pixel count does not match the shape"),
    }
}

fn sample() -> Vec<Color> {
    vec![
        rgb(250, 10, 10),
        rgb(12, 200, 77),
        rgb(130, 130, 130),
        rgb(0, 0, 0),
        rgb(90, 60, 220),
        rgb(255, 255, 255),
        rgb(200, 210, 30),
        rgb(35, 180, 190),
        rgb(128, 128, 128),
        rgb(17, 3, 99),
        rgb(240, 120, 0),
        rgb(66, 66, 66),
    ]
}

const WHITE: Color = Color { r: 255, g: 255, b: 255 };
const BLACK: Color = Color { r: 0, g: 0, b: 0 };

#[test]
fn from_pixels_wants_the_right_count() {
    assert!(PixelBuffer::from_pixels(2, 2, vec![BLACK; 4]).is_some());
    assert!(PixelBuffer::from_pixels(2, 2, vec![BLACK; 3]).is_none());
    assert!(PixelBuffer::from_pixels(0, 5, Vec::new()).is_some());
    assert!(PixelBuffer::from_pixels(usize::MAX, 2, Vec::new()).is_none());
}

#[test]
fn get_and_put_pixel() {
    let mut img = grid(3, 2, vec![BLACK; 6]);
    img.put_pixel(2, 1, rgb(1, 2, 3));
    img.put_pixel(0, 1, rgb(4, 5, 6));
    assert_eq!(img.get_pixel(2, 1), rgb(1, 2, 3));
    assert_eq!(img.get_pixel(0, 1), rgb(4, 5, 6));
    assert_eq!(img.get_pixel(2, 0), BLACK);
    assert_eq!(img.pixels[5], rgb(1, 2, 3));
    assert_eq!(img.pixels[3], rgb(4, 5, 6));
}

#[test]
fn threshold_uniform_bright_is_white() {
    let mut img = grid(4, 3, vec![gray(200); 12]);
    threshold(&mut img);
    assert_eq!(img.pixels, vec![WHITE; 12]);
    assert_eq!((img.width, img.height), (4, 3));
}

#[test]
fn threshold_uniform_dark_is_black() {
    let mut img = grid(4, 3, vec![gray(10); 12]);
    threshold(&mut img);
    assert_eq!(img.pixels, vec![BLACK; 12]);
}

#[test]
fn threshold_keeps_a_binary_image() {
    let pixels = vec![WHITE, BLACK, BLACK, WHITE];
    let mut img = grid(2, 2, pixels.clone());
    threshold(&mut img);
    assert_eq!(img.pixels, pixels);
}

#[test]
fn threshold_mixed_image() {
    let mut img = grid(4, 3, sample());
    threshold(&mut img);
    let b = BLACK;
    let w = WHITE;
    assert_eq!(img.pixels, vec![b, w, w, b, b, w, w, w, b, b, w, b]);
}

#[test]
fn gray_levels_of_an_image() {
    let img = grid(2, 2, vec![rgb(10, 20, 30), WHITE, BLACK, rgb(255, 0, 0)]);
    assert_eq!(gray_levels(&img), vec![18u8, 255, 0, 54]);
}

#[test]
fn palette_of_one_is_all_white() {
    let mut img = grid(4, 3, sample());
    assert_eq!(palette_quantize(&mut img, 1), Ok(()));
    assert_eq!(img.pixels, vec![WHITE; 12]);
}

#[test]
fn palette_of_eight() {
    let mut img = grid(4, 3, sample());
    assert_eq!(palette_quantize(&mut img, 8), Ok(()));
    assert_eq!(
        img.pixels,
        vec![
            Named::Red.rgb(),
            Named::Green.rgb(),
            WHITE,
            BLACK,
            Named::Blue.rgb(),
            WHITE,
            Named::Yellow.rgb(),
            Named::Cyan.rgb(),
            WHITE,
            BLACK,
            Named::Red.rgb(),
            BLACK,
        ]
    );
}

#[test]
fn palette_refuses_bad_counts_untouched() {
    let mut img = grid(4, 3, sample());
    assert_eq!(palette_quantize(&mut img, 0), Err(ConfigError::EmptyPalette));
    assert_eq!(img.pixels, sample());
    assert_eq!(palette_quantize(&mut img, 9), Err(ConfigError::TooManyColors));
    assert_eq!(img.pixels, sample());
    let none: Vec<Color> = Vec::new();
    assert_eq!(quantize_with(&mut img, &none), Err(ConfigError::EmptyPalette));
    assert_eq!(img.pixels, sample());
}

#[test]
fn quantize_with_single_candidate() {
    let mut img = grid(4, 3, sample());
    assert_eq!(quantize_with(&mut img, &vec![rgb(7, 8, 9)]), Ok(()));
    assert_eq!(img.pixels, vec![rgb(7, 8, 9); 12]);
}

#[test]
fn random_pixel_exact_thresholds() {
    // a draw of 0 is the threshold 0; 0x8000_0000 is one half
    assert_eq!(random_pixel(gray(1), 0), WHITE);
    assert_eq!(random_pixel(gray(0), 0), BLACK);
    assert_eq!(random_pixel(gray(127), 0x8000_0000), BLACK);
    assert_eq!(random_pixel(gray(128), 0x8000_0000), WHITE);
    assert_eq!(random_pixel(gray(255), u32::MAX), WHITE);
    assert_eq!(random_pixel(gray(254), u32::MAX), BLACK);
    // the lower eight bits of a draw do not count
    assert_eq!(random_pixel(gray(1), 0xff), WHITE);
    assert_eq!(random_pixel(gray(128), 0x8000_00ff), WHITE);
}

#[test]
fn random_dither_with_given_draws() {
    let mut img = grid(2, 2, vec![gray(100), gray(100), gray(200), gray(200)]);
    let words = vec![0u32, 0x8000_0000, 0x8000_0000, 0xf000_0000];
    assert!(random_dither_with(&mut img, &words));
    assert_eq!(img.pixels, vec![WHITE, BLACK, WHITE, BLACK]);
}

#[test]
fn random_dither_with_too_few_draws() {
    let before = vec![gray(100), gray(100), gray(200), gray(200)];
    let mut img = grid(2, 2, before.clone());
    assert!(!random_dither_with(&mut img, &vec![0u32, 0, 0]));
    assert_eq!(img.pixels, before);
}

#[test]
fn random_dither_is_binary_and_keeps_extremes() {
    let mut pixels = sample();
    pixels.extend(vec![gray(128); 500]);
    let count = pixels.len();
    let mut img = grid(count, 1, pixels);
    random_dither(&mut img);
    assert_eq!(img.pixels.len(), count);
    assert!(img.pixels.iter().all(|&c| c == WHITE || c == BLACK));
    assert_eq!(img.pixels[3], BLACK);
    assert_eq!(img.pixels[5], WHITE);
    let lit = img.pixels[12..].iter().filter(|&&c| c == WHITE).count();
    assert!(lit > 0 && lit < 500);
}

#[test]
fn ordered_dither_order_one() {
    let mut img = grid(4, 2, vec![gray(100); 8]);
    ordered_dither(&mut img, 1);
    assert_eq!(
        img.pixels,
        vec![WHITE, BLACK, WHITE, BLACK, BLACK, WHITE, BLACK, WHITE]
    );
}

#[test]
fn ordered_dither_order_zero_is_any_light() {
    let mut img = grid(3, 1, vec![gray(0), gray(1), gray(255)]);
    ordered_dither(&mut img, 0);
    assert_eq!(img.pixels, vec![BLACK, WHITE, WHITE]);
}

#[test]
fn ordered_dither_order_two_ramp() {
    let mut img = grid(4, 4, vec![gray(128); 16]);
    ordered_dither(&mut img, 2);
    // ranks below 128 * 16 / 255, that is 0 to 8, are lit
    let w = WHITE;
    let b = BLACK;
    assert_eq!(img.pixels, vec![w, b, w, b, w, w, b, w, w, b, w, b, b, w, b, w]);
}

#[test]
fn diffusion_floyd_steinberg_by_hand() {
    let mut img = grid(2, 2, vec![gray(100); 4]);
    assert_eq!(palette_diffusion(&mut img, 2, "floyd-steinberg"), Ok(()));
    assert_eq!(img.pixels, vec![BLACK, WHITE, BLACK, BLACK]);
}

#[test]
fn diffusion_first_step_by_hand() {
    let mut img = grid(2, 2, vec![gray(100); 4]);
    let e = Residual { r: 100, g: 100, b: 100 };
    for t in kernel_by_name("floyd-steinberg") {
        diffuse_tap(&mut img, 0, 0, &e, t);
    }
    assert_eq!(img.pixels, vec![gray(100), gray(143), gray(131), gray(106)]);
}

#[test]
fn diffusion_unknown_kernel_is_plain_quantization() {
    for n in 1usize..=5 {
        let mut diffusing = grid(4, 3, sample());
        assert_eq!(palette_diffusion(&mut diffusing, n, "no-such-kernel"), Ok(()));
        let palette = match select_first(&diffusion_catalog(), n) {
            Ok(p) => p,
            Err(_) => panic!("the request is within the palette"),
        };
        let mut plain = grid(4, 3, sample());
        assert_eq!(quantize_with(&mut plain, &palette), Ok(()));
        assert_eq!(diffusing.pixels, plain.pixels);
        let expected: Vec<Color> = sample().iter().map(|&c| nearest_of(c, &palette)).collect();
        assert_eq!(diffusing.pixels, expected);
    }
}

#[test]
fn diffusion_refuses_bad_counts_untouched() {
    let mut img = grid(4, 3, sample());
    assert_eq!(palette_diffusion(&mut img, 0, "atkinson"), Err(ConfigError::EmptyPalette));
    assert_eq!(img.pixels, sample());
    assert_eq!(palette_diffusion(&mut img, 6, "atkinson"), Err(ConfigError::TooManyColors));
    assert_eq!(img.pixels, sample());
    let none: Vec<Color> = Vec::new();
    let kernel = kernel_by_name("atkinson");
    assert_eq!(diffuse_with(&mut img, &none, &kernel), Err(ConfigError::EmptyPalette));
    assert_eq!(img.pixels, sample());
}

#[test]
fn diffusion_clamps_channels() {
    let whole = Tap { dx: 1, dy: 0, num: 1, den: 1 };
    let mut up = grid(2, 1, vec![gray(0), rgb(250, 3, 128)]);
    diffuse_tap(&mut up, 0, 0, &Residual { r: 200, g: -200, b: 0 }, whole);
    assert_eq!(up.pixels, vec![gray(0), rgb(255, 0, 128)]);

    // a near-white pixel quantised to black pushes its neighbour past 255
    let mut img = grid(2, 1, vec![rgb(120, 120, 120), rgb(250, 250, 250)]);
    assert_eq!(diffuse_with(&mut img, &vec![BLACK], &vec![whole]), Ok(()));
    assert_eq!(img.pixels, vec![BLACK, BLACK]);
    let mut seen = grid(2, 1, vec![rgb(120, 120, 120), rgb(250, 250, 250)]);
    diffuse_tap(&mut seen, 0, 0, &Residual { r: 120, g: 120, b: 120 }, whole);
    assert_eq!(seen.pixels[1], WHITE);
}

#[test]
fn diffusion_taps_outside_the_grid_are_dropped() {
    let mut img = grid(1, 1, vec![gray(100)]);
    assert_eq!(palette_diffusion(&mut img, 2, "jarvis-judice-ninke"), Ok(()));
    assert_eq!(img.pixels, vec![BLACK]);
    let mut empty = grid(0, 0, Vec::new());
    assert_eq!(palette_diffusion(&mut empty, 2, "atkinson"), Ok(()));
    assert_eq!(empty.pixels, Vec::<Color>::new());
}

#[test]
fn diffusion_atkinson_row() {
    // 100 -> black, 100 / 8 = 12.5 to the two on the right
    let mut img = grid(3, 1, vec![gray(100), gray(120), gray(120)]);
    assert_eq!(palette_diffusion(&mut img, 2, "atkinson"), Ok(()));
    // 120 + 12.5 = 132 -> white, error -123: -15.375 to the right
    // third: 120 + 12.5 = 132, then 132 - 15.375 = 116 -> black
    assert_eq!(img.pixels, vec![BLACK, WHITE, BLACK]);
}
