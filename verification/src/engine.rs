//! The transforms that treat every pixel on its own: flat threshold, random
//! threshold, ordered threshold and palette quantisation.

use vstd::prelude::*;
use crate::color::{Color, Named, luminance, luminance_level, luminance_scaled, threshold_color, threshold_pixel, white, black};
use crate::palette::{ConfigError, catalog, catalog_colors, select_first, selection, nearest_of, quantize};
use crate::bayer::{bayer_rank, exceeds_rank, generate_bayer_matrix, lemma_pow2_monotone, lemma_pow2_positive, pow2, rank_test};
use crate::buffer::{PixelBuffer, same_shape, lemma_index_cell};
use crate::random::draw_word;

verus! {

/// Every pixel thresholded on its own.
pub open spec fn thresholded(pixels: Seq<Color>) -> Seq<Color> {
    Seq::new(pixels.len(), |i: int| threshold_color(pixels[i]))
}

/// Every pixel quantised on its own to the nearest of `palette`.
pub open spec fn quantized(pixels: Seq<Color>, palette: Seq<Color>) -> Seq<Color> {
    Seq::new(pixels.len(), |i: int| quantize(pixels[i], palette))
}

/// The threshold that 32 random bits stand for, in steps of 2^-24 from 0 up
/// to, but not reaching, 1: the upper 24 bits.
pub open spec fn drawn_threshold(word: u32) -> int {
    word as int / 256
}

/// A colour under a random threshold: white where its luminance, as a
/// fraction of 255, exceeds the threshold, black elsewhere.
pub open spec fn random_color(c: Color, word: u32) -> Color {
    if luminance_scaled(c) * 16777216 > drawn_threshold(word) * 2550000 {
        white()
    } else {
        black()
    }
}

/// Every pixel under the threshold of the same place in `words`.
pub open spec fn random_dithered(pixels: Seq<Color>, words: Seq<u32>) -> Seq<Color> {
    Seq::new(pixels.len(), |i: int| random_color(pixels[i], words[i]))
}

/// A colour under the rank of its cell in the tiled matrix of the given order.
pub open spec fn ordered_color(c: Color, order: nat, x: int, y: int) -> Color {
    let side = pow2(order) as int;
    if exceeds_rank(luminance_scaled(c), bayer_rank(order, y % side, x % side) as int, side * side) {
        white()
    } else {
        black()
    }
}

/// Every pixel of a grid `width` wide under the tiled matrix of the given order.
pub open spec fn ordered_dithered(pixels: Seq<Color>, width: int, order: nat) -> Seq<Color> {
    Seq::new(pixels.len(), |i: int| ordered_color(pixels[i], order, i % width, i / width))
}

/// A palette of one colour turns every pixel into that colour, whatever the
/// image; with the first colour of the catalogue, into white.
pub proof fn lemma_single_color_image(pixels: Seq<Color>, only: Color, i: int)
    requires
        0 <= i < pixels.len(),
    ensures
        quantized(pixels, seq![only])[i] == only,
        quantized(pixels, catalog_colors().take(1))[i] == white(),
{
    crate::palette::lemma_single_candidate(pixels[i], only);
    crate::palette::lemma_first_of_catalog_is_white(pixels[i]);
}

/// An image of black and white pixels only is left as it is by the flat
/// threshold.
pub proof fn lemma_threshold_keeps_binary(pixels: Seq<Color>)
    requires
        forall|i: int| 0 <= i < pixels.len() ==> pixels[i] == white() || pixels[i] == black(),
    ensures
        thresholded(pixels) == pixels,
{
    assert(thresholded(pixels) =~= pixels);
}

/// A pixel without luminance stays black and one of full luminance turns white
/// under every random threshold.
pub proof fn lemma_random_extremes(c: Color, word: u32)
    ensures
        luminance_scaled(c) == 0 ==> random_color(c, word) == black(),
        luminance_scaled(c) == 2550000 ==> random_color(c, word) == white(),
        random_color(c, word) == white() || random_color(c, word) == black(),
{
}

/// The grey level of every pixel: its luminance rounded down to a whole
/// number between 0 and 255.
pub fn gray_levels(img: &PixelBuffer) -> (levels: Vec<u8>)
    ensures
        levels@.len() == img.pixels@.len(),
        forall|k: int|
            0 <= k < levels@.len() ==> levels@[k] == luminance_scaled(#[trigger] img.pixels@[k])
                / 10000,
{
    let mut levels: Vec<u8> = Vec::new();
    let n: usize = img.pixels.len();
    let mut i: usize = 0;
    while i < n
        invariant
            i <= n,
            n == img.pixels@.len(),
            levels@.len() == i,
            forall|k: int|
                0 <= k < i ==> levels@[k] == luminance_scaled(#[trigger] img.pixels@[k]) / 10000,
        decreases n - i,
    {
        levels.push(luminance_level(img.pixels[i]));
        i += 1;
    }
    levels
}

/// Flat threshold: every pixel becomes white where its luminance exceeds 128
/// and black elsewhere.
pub fn threshold(img: &mut PixelBuffer)
    ensures
        same_shape(*final(img), *old(img)),
        final(img).pixels@ == thresholded(old(img).pixels@),
{
    let ghost before = img.pixels@;
    let n: usize = img.pixels.len();
    let mut i: usize = 0;
    while i < n
        invariant
            i <= n,
            n == before.len(),
            img.pixels@.len() == n,
            img.width == old(img).width,
            img.height == old(img).height,
            forall|k: int| 0 <= k < i ==> img.pixels@[k] == threshold_color(#[trigger] before[k]),
            forall|k: int| i <= k < n ==> img.pixels@[k] == #[trigger] before[k],
        decreases n - i,
    {
        let c: Color = img.pixels[i];
        img.pixels.set(i, threshold_pixel(c));
        i += 1;
    }
    assert(img.pixels@ =~= thresholded(before));
}

/// One pixel of random dithering under the 32 bits drawn for it.
pub fn random_pixel(c: Color, word: u32) -> (out: Color)
    ensures
        out == random_color(c, word),
{
    let l: u64 = luminance(c) as u64;
    let t: u64 = (word / 256) as u64;
    if l * 16777216 > t * 2550000 {
        Named::White.rgb()
    } else {
        Named::Black.rgb()
    }
}

/// Random dithering with the draws given: pixel `i` is thresholded under
/// `words[i]`. Where there are fewer draws than pixels nothing is done and the
/// answer is `false`.
pub fn random_dither_with(img: &mut PixelBuffer, words: &Vec<u32>) -> (done: bool)
    ensures
        done == (words@.len() >= old(img).pixels@.len()),
        done ==> same_shape(*final(img), *old(img)) && final(img).pixels@ == random_dithered(
            old(img).pixels@,
            words@,
        ),
        !done ==> *final(img) == *old(img),
{
    let ghost before = img.pixels@;
    let n: usize = img.pixels.len();
    if words.len() < n {
        return false;
    }
    let mut i: usize = 0;
    while i < n
        invariant
            i <= n,
            n == before.len(),
            n <= words@.len(),
            img.pixels@.len() == n,
            img.width == old(img).width,
            img.height == old(img).height,
            forall|k: int|
                0 <= k < i ==> img.pixels@[k] == random_color(#[trigger] before[k], words@[k]),
            forall|k: int| i <= k < n ==> img.pixels@[k] == #[trigger] before[k],
        decreases n - i,
    {
        let c: Color = img.pixels[i];
        img.pixels.set(i, random_pixel(c, words[i]));
        i += 1;
    }
    assert(img.pixels@ =~= random_dithered(before, words@));
    true
}

/// Random dithering: every pixel is thresholded under a threshold freshly
/// drawn for it. Whatever is drawn, the outcome is that of
/// `random_dither_with` for some sequence of draws, one for each pixel.
pub fn random_dither(img: &mut PixelBuffer)
    ensures
        same_shape(*final(img), *old(img)),
        exists|words: Seq<u32>|
            words.len() == old(img).pixels@.len() && final(img).pixels@ == #[trigger] random_dithered(
                old(img).pixels@,
                words,
            ),
{
    let ghost before = img.pixels@;
    let ghost mut drawn: Seq<u32> = Seq::empty();
    let n: usize = img.pixels.len();
    let mut i: usize = 0;
    while i < n
        invariant
            i <= n,
            n == before.len(),
            drawn.len() == i,
            img.pixels@.len() == n,
            img.width == old(img).width,
            img.height == old(img).height,
            forall|k: int|
                0 <= k < i ==> img.pixels@[k] == random_color(#[trigger] before[k], drawn[k]),
            forall|k: int| i <= k < n ==> img.pixels@[k] == #[trigger] before[k],
        decreases n - i,
    {
        let c: Color = img.pixels[i];
        let word: u32 = draw_word();
        img.pixels.set(i, random_pixel(c, word));
        proof {
            drawn = drawn.push(word);
        }
        i += 1;
    }
    assert(img.pixels@ =~= random_dithered(before, drawn));
}

/// Ordered dithering: every pixel is thresholded under the rank of its cell in
/// the matrix of the given order, tiled over the image.
pub fn ordered_dither(img: &mut PixelBuffer, order: u32)
    requires
        old(img).wf(),
        order <= 15,
    ensures
        final(img).wf(),
        same_shape(*final(img), *old(img)),
        final(img).pixels@ == ordered_dithered(
            old(img).pixels@,
            old(img).width as int,
            order as nat,
        ),
{
    let ghost before = img.pixels@;
    let matrix = generate_bayer_matrix(order);
    let side: usize = matrix.len();
    proof {
        lemma_pow2_positive(order as nat);
        lemma_pow2_monotone(order as nat, 15);
        reveal_with_fuel(pow2, 17);
    }
    let n: usize = img.pixels.len();
    let width: usize = img.width;
    let mut i: usize = 0;
    while i < n
        invariant
            i <= n,
            n == before.len(),
            n == width * img.height,
            width == old(img).width,
            img.width == old(img).width,
            img.height == old(img).height,
            img.pixels@.len() == n,
            1 <= side <= 32768,
            side == pow2(order as nat),
            crate::bayer::is_bayer_matrix(matrix@, order as nat),
            forall|k: int|
                0 <= k < i ==> img.pixels@[k] == ordered_color(
                    #[trigger] before[k],
                    order as nat,
                    k % (width as int),
                    k / (width as int),
                ),
            forall|k: int| i <= k < n ==> img.pixels@[k] == #[trigger] before[k],
        decreases n - i,
    {
        proof {
            lemma_index_cell(width as int, img.height as int, i as int);
        }
        let x: usize = i % width;
        let y: usize = i / width;
        let c: Color = img.pixels[i];
        let rank: u32 = matrix[y % side][x % side];
        let lit: bool = rank_test(luminance(c), rank, side);
        let out: Color = if lit { Named::White.rgb() } else { Named::Black.rgb() };
        img.pixels.set(i, out);
        i += 1;
    }
    assert(img.pixels@ =~= ordered_dithered(before, width as int, order as nat));
}

/// Quantises every pixel to the nearest colour of `palette`. An empty palette
/// is refused before any pixel is touched.
pub fn quantize_with(img: &mut PixelBuffer, palette: &Vec<Color>) -> (r: Result<(), ConfigError>)
    ensures
        palette@.len() == 0 ==> r == Err::<(), ConfigError>(ConfigError::EmptyPalette) && *final(img)
            == *old(img),
        palette@.len() > 0 ==> r is Ok && same_shape(*final(img), *old(img)) && final(img).pixels@
            == quantized(old(img).pixels@, palette@),
{
    if palette.len() == 0 {
        return Err(ConfigError::EmptyPalette);
    }
    let ghost before = img.pixels@;
    let n: usize = img.pixels.len();
    let mut i: usize = 0;
    while i < n
        invariant
            i <= n,
            n == before.len(),
            palette@.len() > 0,
            img.pixels@.len() == n,
            img.width == old(img).width,
            img.height == old(img).height,
            forall|k: int|
                0 <= k < i ==> img.pixels@[k] == quantize(#[trigger] before[k], palette@),
            forall|k: int| i <= k < n ==> img.pixels@[k] == #[trigger] before[k],
        decreases n - i,
    {
        let c: Color = img.pixels[i];
        img.pixels.set(i, nearest_of(c, palette));
        i += 1;
    }
    assert(img.pixels@ =~= quantized(before, palette@));
    Ok(())
}

/// Palette mode: every pixel is quantised to the nearest of the first `n`
/// colours of the catalogue. A request for no colour, or for more than the
/// catalogue holds, is refused before any pixel is touched.
pub fn palette_quantize(img: &mut PixelBuffer, n: usize) -> (r: Result<(), ConfigError>)
    ensures
        match selection(catalog_colors(), n as int) {
            Ok(palette) => r is Ok && same_shape(*final(img), *old(img)) && final(img).pixels@
                == quantized(old(img).pixels@, palette),
            Err(e) => r == Err::<(), ConfigError>(e) && *final(img) == *old(img),
        },
{
    let colors = catalog();
    match select_first(&colors, n) {
        Ok(palette) => quantize_with(img, &palette),
        Err(e) => Err(e),
    }
}

} // verus!
