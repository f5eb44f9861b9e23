//! Diffusion kernels: where the error of a quantised pixel goes, and how much
//! of it.

use vstd::prelude::*;

verus! {

/// One tap of a kernel: the neighbour at offset (`dx`, `dy`) receives the
/// fraction `num / den` of the error.
#[derive(Clone, Copy, Debug, PartialEq, Eq, Structural)]
pub struct Tap {
    pub dx: i32,
    pub dy: i32,
    pub num: u32,
    pub den: u32,
}

/// Every tap of the kernel has a weight with a denominator other than zero.
pub open spec fn kernel_wf(kernel: Seq<Tap>) -> bool {
    forall|i: int| 0 <= i < kernel.len() ==> (#[trigger] kernel[i]).den > 0
}

/// The tap at offset (`dx`, `dy`) with the weight `num / den`.
pub open spec fn tap(dx: int, dy: int, num: int, den: int) -> Tap {
    Tap { dx: dx as i32, dy: dy as i32, num: num as u32, den: den as u32 }
}

/// Floyd and Steinberg's kernel: four taps, in sixteenths.
pub open spec fn floyd_steinberg() -> Seq<Tap> {
    seq![tap(1, 0, 7, 16), tap(-1, 1, 3, 16), tap(0, 1, 5, 16), tap(1, 1, 1, 16)]
}

/// The kernel of Jarvis, Judice and Ninke: twelve taps over two rows ahead, in
/// forty-eighths.
pub open spec fn jarvis_judice_ninke() -> Seq<Tap> {
    seq![
        tap(1, 0, 7, 48),
        tap(2, 0, 5, 48),
        tap(-2, 1, 3, 48),
        tap(-1, 1, 5, 48),
        tap(0, 1, 7, 48),
        tap(1, 1, 5, 48),
        tap(2, 1, 3, 48),
        tap(-2, 2, 1, 48),
        tap(-1, 2, 3, 48),
        tap(0, 2, 5, 48),
        tap(1, 2, 3, 48),
        tap(2, 2, 1, 48),
    ]
}

/// Atkinson's kernel: six taps of one eighth each, so that a quarter of the
/// error is dropped.
pub open spec fn atkinson() -> Seq<Tap> {
    seq![
        tap(1, 0, 1, 8),
        tap(2, 0, 1, 8),
        tap(-1, 1, 1, 8),
        tap(0, 1, 1, 8),
        tap(1, 1, 1, 8),
        tap(0, 2, 1, 8),
    ]
}

/// The kernel that a name stands for. A name that is none of the three stands
/// for the kernel without taps.
pub open spec fn kernel_named(name: Seq<char>) -> Seq<Tap> {
    if name == "floyd-steinberg"@ {
        floyd_steinberg()
    } else if name == "jarvis-judice-ninke"@ {
        jarvis_judice_ninke()
    } else if name == "atkinson"@ {
        atkinson()
    } else {
        Seq::<Tap>::empty()
    }
}

/// The sum of the numerators of the first `n` taps.
pub open spec fn numerator_sum(kernel: Seq<Tap>, n: nat) -> int
    decreases n,
{
    if n == 0 {
        0
    } else {
        numerator_sum(kernel, (n - 1) as nat) + kernel[n - 1].num
    }
}

/// All taps of the kernel have the denominator `den`.
pub open spec fn common_denominator(kernel: Seq<Tap>, den: int) -> bool {
    forall|i: int| 0 <= i < kernel.len() ==> (#[trigger] kernel[i]).den == den
}

/// What a channel holds after it has received the fraction `num / den` of
/// `error`: the sum, held between 0 and 255 and then cut to a whole number.
pub open spec fn diffused_channel(value: int, error: int, num: int, den: int) -> int {
    let scaled = value * den + error * num;
    if scaled <= 0 {
        0
    } else if scaled >= 255 * den {
        255
    } else {
        scaled / den
    }
}

/// The weights of Atkinson's kernel are six eighths in all; those of the other
/// two kernels are the whole.
pub proof fn lemma_total_weights()
    ensures
        common_denominator(atkinson(), 8),
        numerator_sum(atkinson(), atkinson().len()) == 6,
        common_denominator(floyd_steinberg(), 16),
        numerator_sum(floyd_steinberg(), floyd_steinberg().len()) == 16,
        common_denominator(jarvis_judice_ninke(), 48),
        numerator_sum(jarvis_judice_ninke(), jarvis_judice_ninke().len()) == 48,
{
    reveal_with_fuel(numerator_sum, 14);
}

/// The three kernels are well formed, and so is the kernel of any name.
pub proof fn lemma_named_kernels_wf(name: Seq<char>)
    ensures
        kernel_wf(kernel_named(name)),
{
}

/// A name outside the catalogue stands for the kernel without taps.
pub proof fn lemma_unknown_name_is_empty(name: Seq<char>)
    requires
        name != "floyd-steinberg"@,
        name != "jarvis-judice-ninke"@,
        name != "atkinson"@,
    ensures
        kernel_named(name).len() == 0,
{
}

/// A channel that receives error stays within 0 and 255: it is 255 where the
/// sum reaches or passes 255, and 0 where the sum is zero or negative.
pub proof fn lemma_diffused_channel_clamped(value: int, error: int, num: int, den: int)
    requires
        0 <= value <= 255,
        den > 0,
    ensures
        0 <= diffused_channel(value, error, num, den) <= 255,
        value * den + error * num >= 255 * den ==> diffused_channel(value, error, num, den) == 255,
        value * den + error * num <= 0 ==> diffused_channel(value, error, num, den) == 0,
{
    let scaled = value * den + error * num;
    if 0 < scaled < 255 * den {
        assert(0 <= scaled / den <= 255) by (nonlinear_arith)
            requires
                0 < scaled < 255 * den,
                den > 0,
        ;
    }
}

fn make_tap(dx: i32, dy: i32, num: u32, den: u32) -> (t: Tap)
    ensures
        t == tap(dx as int, dy as int, num as int, den as int),
{
    Tap { dx, dy, num, den }
}

/// The channel `value` after it has received `num / den` of `error`.
pub fn diffuse_channel(value: u8, error: i32, num: u32, den: u32) -> (out: u8)
    requires
        den > 0,
    ensures
        out == diffused_channel(value as int, error as int, num as int, den as int),
{
    assert(0 <= value * den <= 255 * 0xffff_ffff) by (nonlinear_arith)
        requires
            0 <= value <= 255,
            0 <= den <= 0xffff_ffff,
    ;
    assert(-0x8000_0000 * 0xffff_ffff <= error * num <= 0x8000_0000 * 0xffff_ffff)
        by (nonlinear_arith)
        requires
            -0x8000_0000 <= error <= 0x8000_0000,
            0 <= num <= 0xffff_ffff,
    ;
    let scaled: i128 = (value as i128) * (den as i128) + (error as i128) * (num as i128);
    let top: i128 = 255 * (den as i128);
    if scaled <= 0 {
        0
    } else if scaled >= top {
        255
    } else {
        assert(0 <= (scaled as int) / (den as int) <= 255) by (nonlinear_arith)
            requires
                0 < scaled < 255 * den,
                den > 0,
        ;
        let whole: i128 = scaled / (den as i128);
        whole as u8
    }
}

/// The kernel of the given name; the kernel without taps for any other name.
pub fn kernel_by_name(name: &str) -> (kernel: Vec<Tap>)
    ensures
        kernel@ == kernel_named(name@),
        kernel_wf(kernel@),
{
    let given: String = name.to_owned();
    let mut kernel: Vec<Tap> = Vec::new();
    if given == "floyd-steinberg".to_owned() {
        kernel.push(make_tap(1, 0, 7, 16));
        kernel.push(make_tap(-1, 1, 3, 16));
        kernel.push(make_tap(0, 1, 5, 16));
        kernel.push(make_tap(1, 1, 1, 16));
        assert(kernel@ =~= floyd_steinberg());
    } else if given == "jarvis-judice-ninke".to_owned() {
        kernel.push(make_tap(1, 0, 7, 48));
        kernel.push(make_tap(2, 0, 5, 48));
        kernel.push(make_tap(-2, 1, 3, 48));
        kernel.push(make_tap(-1, 1, 5, 48));
        kernel.push(make_tap(0, 1, 7, 48));
        kernel.push(make_tap(1, 1, 5, 48));
        kernel.push(make_tap(2, 1, 3, 48));
        kernel.push(make_tap(-2, 2, 1, 48));
        kernel.push(make_tap(-1, 2, 3, 48));
        kernel.push(make_tap(0, 2, 5, 48));
        kernel.push(make_tap(1, 2, 3, 48));
        kernel.push(make_tap(2, 2, 1, 48));
        assert(kernel@ =~= jarvis_judice_ninke());
    } else if given == "atkinson".to_owned() {
        kernel.push(make_tap(1, 0, 1, 8));
        kernel.push(make_tap(2, 0, 1, 8));
        kernel.push(make_tap(-1, 1, 1, 8));
        kernel.push(make_tap(0, 1, 1, 8));
        kernel.push(make_tap(1, 1, 1, 8));
        kernel.push(make_tap(0, 2, 1, 8));
        assert(kernel@ =~= atkinson());
    } else {
        assert(kernel@ =~= Seq::<Tap>::empty());
    }
    kernel
}

} // verus!
