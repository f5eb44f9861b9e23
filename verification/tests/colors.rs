use ditherpunk::color::{
    color_distance_squared, luminance, luminance_level, threshold_pixel, Color, Named,
};
use ditherpunk::palette::{
    catalog, diffusion_catalog, nearest_color, nearest_of, select_first, ConfigError,
};

fn rgb(r: u8, g: u8, b: u8) -> Color {
    Color { r, g, b }
}

#[test]
fn named_colors_have_their_values() {
    assert_eq!(Named::White.rgb(), rgb(255, 255, 255));
    assert_eq!(Named::Black.rgb(), rgb(0, 0, 0));
    assert_eq!(Named::Red.rgb(), rgb(255, 0, 0));
    assert_eq!(Named::Green.rgb(), rgb(0, 255, 0));
    assert_eq!(Named::Blue.rgb(), rgb(0, 0, 255));
    assert_eq!(Named::Yellow.rgb(), rgb(255, 255, 0));
    assert_eq!(Named::Magenta.rgb(), rgb(255, 0, 255));
    assert_eq!(Named::Cyan.rgb(), rgb(0, 255, 255));
}

#[test]
fn distance_is_symmetric_and_zero_on_itself() {
    let samples = [
        rgb(0, 0, 0),
        rgb(255, 255, 255),
        rgb(12, 200, 77),
        rgb(255, 0, 128),
        rgb(1, 2, 3),
    ];
    for a in samples {
        assert_eq!(color_distance_squared(a, a), 0);
        for b in samples {
            assert_eq!(color_distance_squared(a, b), color_distance_squared(b, a));
        }
    }
}

#[test]
fn distance_exact_values() {
    assert_eq!(color_distance_squared(rgb(1, 2, 3), rgb(4, 6, 3)), 25);
    assert_eq!(color_distance_squared(rgb(0, 0, 0), rgb(255, 255, 255)), 195075);
    assert_eq!(color_distance_squared(rgb(200, 200, 200), rgb(255, 255, 255)), 9075);
    assert_eq!(color_distance_squared(rgb(10, 0, 0), rgb(0, 0, 0)), 100);
}

#[test]
fn distance_square_root_is_euclidean() {
    let d = color_distance_squared(rgb(1, 2, 3), rgb(4, 6, 3));
    assert_eq!((d as f64).sqrt(), 5.0);
}

#[test]
fn luminance_exact_values() {
    assert_eq!(luminance(rgb(0, 0, 0)), 0);
    assert_eq!(luminance(rgb(255, 255, 255)), 2550000);
    assert_eq!(luminance(rgb(10, 20, 30)), 185960);
    assert_eq!(luminance(rgb(255, 0, 0)), 542130);
    assert_eq!(luminance(rgb(0, 255, 0)), 1823760);
    assert_eq!(luminance(rgb(0, 0, 255)), 184110);
}

#[test]
fn luminance_level_rounds_down() {
    assert_eq!(luminance_level(rgb(10, 20, 30)), 18);
    assert_eq!(luminance_level(rgb(255, 255, 255)), 255);
    assert_eq!(luminance_level(rgb(0, 0, 0)), 0);
    assert_eq!(luminance_level(rgb(255, 0, 0)), 54);
    assert_eq!(luminance_level(rgb(77, 77, 77)), 77);
}

#[test]
fn threshold_pixel_boundary() {
    assert_eq!(threshold_pixel(rgb(200, 200, 200)), Named::White.rgb());
    assert_eq!(threshold_pixel(rgb(10, 10, 10)), Named::Black.rgb());
    assert_eq!(threshold_pixel(rgb(128, 128, 128)), Named::Black.rgb());
    assert_eq!(threshold_pixel(rgb(129, 129, 129)), Named::White.rgb());
    assert_eq!(threshold_pixel(rgb(0, 255, 0)), Named::White.rgb());
    assert_eq!(threshold_pixel(rgb(255, 0, 255)), Named::Black.rgb());
}

#[test]
fn catalog_order() {
    assert_eq!(
        catalog(),
        vec![
            Named::White.rgb(),
            Named::Black.rgb(),
            Named::Red.rgb(),
            Named::Green.rgb(),
            Named::Blue.rgb(),
            Named::Yellow.rgb(),
            Named::Magenta.rgb(),
            Named::Cyan.rgb(),
        ]
    );
    assert_eq!(
        diffusion_catalog(),
        vec![
            Named::Black.rgb(),
            Named::White.rgb(),
            Named::Red.rgb(),
            Named::Blue.rgb(),
            Named::Green.rgb(),
        ]
    );
}

#[test]
fn select_first_takes_a_prefix() {
    let colors = catalog();
    assert_eq!(
        select_first(&colors, 3),
        Ok(vec![Named::White.rgb(), Named::Black.rgb(), Named::Red.rgb()])
    );
    assert_eq!(select_first(&colors, 8), Ok(colors.clone()));
    assert_eq!(select_first(&colors, 1), Ok(vec![Named::White.rgb()]));
}

#[test]
fn select_first_refuses_none_and_too_many() {
    let colors = catalog();
    assert_eq!(select_first(&colors, 0), Err(ConfigError::EmptyPalette));
    assert_eq!(select_first(&colors, 9), Err(ConfigError::TooManyColors));
    let none: Vec<Color> = Vec::new();
    assert_eq!(select_first(&none, 0), Err(ConfigError::EmptyPalette));
    assert_eq!(select_first(&none, 1), Err(ConfigError::TooManyColors));
}

#[test]
fn nearest_color_refuses_empty_list() {
    let none: Vec<Color> = Vec::new();
    assert_eq!(nearest_color(rgb(1, 2, 3), &none), Err(ConfigError::EmptyPalette));
}

#[test]
fn nearest_color_single_candidate() {
    let only = vec![rgb(9, 99, 199)];
    let inputs = [rgb(0, 0, 0), rgb(255, 255, 255), rgb(9, 99, 199), rgb(200, 10, 60)];
    for c in inputs {
        assert_eq!(nearest_color(c, &only), Ok(rgb(9, 99, 199)));
        assert_eq!(nearest_of(c, &only), rgb(9, 99, 199));
    }
}

#[test]
fn nearest_color_picks_the_minimum() {
    let colors = catalog();
    assert_eq!(nearest_color(rgb(250, 10, 10), &colors), Ok(Named::Red.rgb()));
    assert_eq!(nearest_color(rgb(10, 10, 10), &colors), Ok(Named::Black.rgb()));
    assert_eq!(nearest_color(rgb(240, 250, 20), &colors), Ok(Named::Yellow.rgb()));
    assert_eq!(nearest_color(rgb(20, 250, 240), &colors), Ok(Named::Cyan.rgb()));
    assert_eq!(nearest_color(rgb(200, 200, 200), &colors), Ok(Named::White.rgb()));
}

#[test]
fn nearest_color_first_wins_a_tie() {
    let a = vec![rgb(0, 0, 0), rgb(20, 0, 0)];
    assert_eq!(nearest_color(rgb(10, 0, 0), &a), Ok(rgb(0, 0, 0)));
    let b = vec![rgb(20, 0, 0), rgb(0, 0, 0)];
    assert_eq!(nearest_color(rgb(10, 0, 0), &b), Ok(rgb(20, 0, 0)));
    let c = vec![rgb(50, 50, 50), rgb(20, 0, 0), rgb(0, 0, 0), rgb(20, 0, 0)];
    assert_eq!(nearest_of(rgb(10, 0, 0), &c), rgb(20, 0, 0));
}
