//! Palette quantisation with error diffusion: each pixel in turn is quantised
//! and what it lost is handed to its neighbours.

use vstd::prelude::*;
use crate::color::Color;
use crate::palette::{ConfigError, diffusion_catalog, diffusion_colors, select_first, selection, nearest_of, quantize};
use crate::kernel::{Tap, kernel_wf, kernel_named, kernel_by_name, diffused_channel, diffuse_channel};
use crate::buffer::{PixelBuffer, same_shape, cell_index, lemma_cell_index_bound, lemma_index_cell};
use crate::engine::quantized;

verus! {

/// What a pixel lost in each channel when it was quantised.
#[derive(Clone, Copy, Debug, PartialEq, Eq, Structural)]
pub struct Residual {
    pub r: i32,
    pub g: i32,
    pub b: i32,
}

/// The residual of quantising `source` to `target`, channel by channel.
pub open spec fn residual_of(source: Color, target: Color) -> Residual {
    Residual {
        r: (source.r - target.r) as i32,
        g: (source.g - target.g) as i32,
        b: (source.b - target.b) as i32,
    }
}

/// A colour after it has received the tap's share of a residual.
pub open spec fn diffused_color(c: Color, e: Residual, t: Tap) -> Color {
    Color {
        r: diffused_channel(c.r as int, e.r as int, t.num as int, t.den as int) as u8,
        g: diffused_channel(c.g as int, e.g as int, t.num as int, t.den as int) as u8,
        b: diffused_channel(c.b as int, e.b as int, t.num as int, t.den as int) as u8,
    }
}

/// The tap's neighbour of the cell (`x`, `y`) lies inside the grid.
pub open spec fn tap_in_bounds(width: int, height: int, x: int, y: int, t: Tap) -> bool {
    0 <= x + t.dx < width && 0 <= y + t.dy < height
}

/// The pixels after one tap: its neighbour, where it lies inside the grid, has
/// received its share; nothing else has changed.
pub open spec fn apply_tap(
    pixels: Seq<Color>,
    width: int,
    height: int,
    x: int,
    y: int,
    e: Residual,
    t: Tap,
) -> Seq<Color> {
    if tap_in_bounds(width, height, x, y, t) {
        let k = cell_index(width, x + t.dx, y + t.dy);
        pixels.update(k, diffused_color(pixels[k], e, t))
    } else {
        pixels
    }
}

/// The pixels after the first `count` taps of the kernel, one after the other.
pub open spec fn apply_taps(
    pixels: Seq<Color>,
    width: int,
    height: int,
    x: int,
    y: int,
    e: Residual,
    kernel: Seq<Tap>,
    count: nat,
) -> Seq<Color>
    decreases count,
{
    if count == 0 {
        pixels
    } else {
        apply_tap(
            apply_taps(pixels, width, height, x, y, e, kernel, (count - 1) as nat),
            width,
            height,
            x,
            y,
            e,
            kernel[count - 1],
        )
    }
}

/// The pixels after pixel `i` has been treated: it is quantised to the nearest
/// colour of the palette, and its residual is handed on by every tap of the
/// kernel.
pub open spec fn diffuse_pixel(
    pixels: Seq<Color>,
    width: int,
    height: int,
    i: int,
    palette: Seq<Color>,
    kernel: Seq<Tap>,
) -> Seq<Color> {
    let source = pixels[i];
    let target = quantize(source, palette);
    apply_taps(
        pixels.update(i, target),
        width,
        height,
        i % width,
        i / width,
        residual_of(source, target),
        kernel,
        kernel.len(),
    )
}

/// The pixels after the first `count` pixels have been treated, row after row
/// from the top, each row from the left.
pub open spec fn diffuse_prefix(
    pixels: Seq<Color>,
    width: int,
    height: int,
    palette: Seq<Color>,
    kernel: Seq<Tap>,
    count: nat,
) -> Seq<Color>
    decreases count,
{
    if count == 0 {
        pixels
    } else {
        diffuse_pixel(
            diffuse_prefix(pixels, width, height, palette, kernel, (count - 1) as nat),
            width,
            height,
            count - 1,
            palette,
            kernel,
        )
    }
}

/// The image after every pixel has been treated.
pub open spec fn diffused(
    pixels: Seq<Color>,
    width: int,
    height: int,
    palette: Seq<Color>,
    kernel: Seq<Tap>,
) -> Seq<Color> {
    diffuse_prefix(pixels, width, height, palette, kernel, pixels.len())
}

proof fn lemma_prefix_without_taps(
    pixels: Seq<Color>,
    width: int,
    height: int,
    palette: Seq<Color>,
    count: nat,
)
    requires
        count <= pixels.len(),
    ensures
        diffuse_prefix(pixels, width, height, palette, Seq::<Tap>::empty(), count).len()
            == pixels.len(),
        forall|k: int|
            0 <= k < count ==> #[trigger] diffuse_prefix(
                pixels,
                width,
                height,
                palette,
                Seq::<Tap>::empty(),
                count,
            )[k] == quantize(pixels[k], palette),
        forall|k: int|
            count <= k < pixels.len() ==> #[trigger] diffuse_prefix(
                pixels,
                width,
                height,
                palette,
                Seq::<Tap>::empty(),
                count,
            )[k] == pixels[k],
    decreases count,
{
    if count > 0 {
        lemma_prefix_without_taps(pixels, width, height, palette, (count - 1) as nat);
    }
}

/// With a kernel without taps, diffusion is plain quantisation of every pixel
/// to the same palette.
pub proof fn lemma_no_taps_is_quantization(
    pixels: Seq<Color>,
    width: int,
    height: int,
    palette: Seq<Color>,
)
    ensures
        diffused(pixels, width, height, palette, Seq::<Tap>::empty()) == quantized(pixels, palette),
{
    lemma_prefix_without_taps(pixels, width, height, palette, pixels.len());
    assert(diffused(pixels, width, height, palette, Seq::<Tap>::empty()) =~= quantized(
        pixels,
        palette,
    ));
}

/// Under a kernel name outside the catalogue, diffusion is plain quantisation
/// of every pixel to the same palette.
pub proof fn lemma_unknown_kernel_is_quantization(
    pixels: Seq<Color>,
    width: int,
    height: int,
    palette: Seq<Color>,
    name: Seq<char>,
)
    requires
        name != "floyd-steinberg"@,
        name != "jarvis-judice-ninke"@,
        name != "atkinson"@,
    ensures
        diffused(pixels, width, height, palette, kernel_named(name)) == quantized(pixels, palette),
{
    assert(kernel_named(name) =~= Seq::<Tap>::empty());
    lemma_no_taps_is_quantization(pixels, width, height, palette);
}

/// Hands the tap's share of the residual to its neighbour of the cell
/// (`x`, `y`), where that neighbour lies inside the grid.
pub fn diffuse_tap(img: &mut PixelBuffer, x: usize, y: usize, e: &Residual, t: Tap)
    requires
        old(img).wf(),
        x < old(img).width,
        y < old(img).height,
        t.den > 0,
    ensures
        final(img).wf(),
        same_shape(*final(img), *old(img)),
        final(img).pixels@ == apply_tap(
            old(img).pixels@,
            old(img).width as int,
            old(img).height as int,
            x as int,
            y as int,
            *e,
            t,
        ),
{
    let nx: i128 = x as i128 + t.dx as i128;
    let ny: i128 = y as i128 + t.dy as i128;
    if nx >= 0 && nx < img.width as i128 && ny >= 0 && ny < img.height as i128 {
        proof {
            lemma_cell_index_bound(img.width as int, img.height as int, nx as int, ny as int);
        }
        let k: usize = (ny as usize) * img.width + (nx as usize);
        let c: Color = img.pixels[k];
        let out = Color {
            r: diffuse_channel(c.r, e.r, t.num, t.den),
            g: diffuse_channel(c.g, e.g, t.num, t.den),
            b: diffuse_channel(c.b, e.b, t.num, t.den),
        };
        img.pixels.set(k, out);
    }
}

/// Quantises every pixel in turn to the nearest colour of `palette` and hands
/// its residual on by `kernel`. An empty palette is refused before any pixel
/// is touched.
pub fn diffuse_with(img: &mut PixelBuffer, palette: &Vec<Color>, kernel: &Vec<Tap>) -> (r: Result<
    (),
    ConfigError,
>)
    requires
        old(img).wf(),
        kernel_wf(kernel@),
    ensures
        final(img).wf(),
        palette@.len() == 0 ==> r == Err::<(), ConfigError>(ConfigError::EmptyPalette) && *final(img)
            == *old(img),
        palette@.len() > 0 ==> r is Ok && same_shape(*final(img), *old(img)) && final(img).pixels@
            == diffused(
            old(img).pixels@,
            old(img).width as int,
            old(img).height as int,
            palette@,
            kernel@,
        ),
{
    if palette.len() == 0 {
        return Err(ConfigError::EmptyPalette);
    }
    let ghost before = img.pixels@;
    let n: usize = img.pixels.len();
    let width: usize = img.width;
    let mut i: usize = 0;
    while i < n
        invariant
            i <= n,
            n == before.len(),
            palette@.len() > 0,
            kernel_wf(kernel@),
            img.wf(),
            img.pixels@.len() == n,
            width == img.width,
            img.width == old(img).width,
            img.height == old(img).height,
            img.pixels@ == diffuse_prefix(
                before,
                width as int,
                img.height as int,
                palette@,
                kernel@,
                i as nat,
            ),
        decreases n - i,
    {
        proof {
            lemma_index_cell(width as int, img.height as int, i as int);
        }
        let x: usize = i % width;
        let y: usize = i / width;
        let source: Color = img.pixels[i];
        let target: Color = nearest_of(source, palette);
        let e = Residual {
            r: source.r as i32 - target.r as i32,
            g: source.g as i32 - target.g as i32,
            b: source.b as i32 - target.b as i32,
        };
        let ghost earlier = img.pixels@;
        img.pixels.set(i, target);
        let mut j: usize = 0;
        while j < kernel.len()
            invariant
                j <= kernel@.len(),
                kernel_wf(kernel@),
                img.wf(),
                img.pixels@.len() == n,
                width == img.width,
                img.width == old(img).width,
                img.height == old(img).height,
                x < img.width,
                y < img.height,
                e == residual_of(source, target),
                img.pixels@ == apply_taps(
                    earlier.update(i as int, target),
                    width as int,
                    img.height as int,
                    x as int,
                    y as int,
                    e,
                    kernel@,
                    j as nat,
                ),
            decreases kernel@.len() - j,
        {
            diffuse_tap(img, x, y, &e, kernel[j]);
            j += 1;
        }
        i += 1;
    }
    Ok(())
}

/// Palette mode with error diffusion: the palette is the first `n` of the five
/// diffusion colours, the kernel the one that `kernel_name` stands for. A
/// request for no colour, or for more than five, is refused before any pixel
/// is touched.
pub fn palette_diffusion(img: &mut PixelBuffer, n: usize, kernel_name: &str) -> (r: Result<
    (),
    ConfigError,
>)
    requires
        old(img).wf(),
    ensures
        final(img).wf(),
        match selection(diffusion_colors(), n as int) {
            Ok(palette) => r is Ok && same_shape(*final(img), *old(img)) && final(img).pixels@
                == diffused(
                old(img).pixels@,
                old(img).width as int,
                old(img).height as int,
                palette,
                kernel_named(kernel_name@),
            ),
            Err(e) => r == Err::<(), ConfigError>(e) && *final(img) == *old(img),
        },
{
    let colors = diffusion_catalog();
    match select_first(&colors, n) {
        Ok(palette) => {
            let kernel = kernel_by_name(kernel_name);
            diffuse_with(img, &palette, &kernel)
        },
        Err(e) => Err(e),
    }
}

} // verus!
