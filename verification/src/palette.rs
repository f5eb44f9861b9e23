//! Ordered palettes and the search for the nearest colour in one.

use vstd::prelude::*;
use crate::color::{Color, Named, distance_squared, color_distance_squared, white};

verus! {

/// Why a palette request is refused.
#[derive(Clone, Copy, Debug, PartialEq, Eq, Structural)]
pub enum ConfigError {
    /// No colour was asked for, or none was offered.
    EmptyPalette,
    /// More colours were asked for than the palette holds.
    TooManyColors,
}

/// The eight colours in the order of their priority.
pub open spec fn catalog_colors() -> Seq<Color> {
    seq![
        Named::White.rgb(),
        Named::Black.rgb(),
        Named::Red.rgb(),
        Named::Green.rgb(),
        Named::Blue.rgb(),
        Named::Yellow.rgb(),
        Named::Magenta.rgb(),
        Named::Cyan.rgb(),
    ]
}

/// The five colours that error diffusion quantises to, in the order of their
/// priority.
pub open spec fn diffusion_colors() -> Seq<Color> {
    seq![
        Named::Black.rgb(),
        Named::White.rgb(),
        Named::Red.rgb(),
        Named::Blue.rgb(),
        Named::Green.rgb(),
    ]
}

/// What a request for the first `n` colours of `colors` gives: the colours, or
/// the reason for which there are none.
pub open spec fn selection(colors: Seq<Color>, n: int) -> Result<Seq<Color>, ConfigError> {
    if n <= 0 {
        Err(ConfigError::EmptyPalette)
    } else if n > colors.len() {
        Err(ConfigError::TooManyColors)
    } else {
        Ok(colors.take(n))
    }
}

/// `k` is the first index of `candidates` whose colour is as near to `c` as any.
pub open spec fn is_first_nearest(c: Color, candidates: Seq<Color>, k: int) -> bool {
    &&& 0 <= k < candidates.len()
    &&& forall|j: int|
        0 <= j < candidates.len() ==> distance_squared(c, candidates[k]) <= distance_squared(
            c,
            #[trigger] candidates[j],
        )
    &&& forall|j: int|
        0 <= j < k ==> distance_squared(c, candidates[k]) < distance_squared(
            c,
            #[trigger] candidates[j],
        )
}

/// The index of the candidate that `c` is quantised to.
pub open spec fn nearest_index(c: Color, candidates: Seq<Color>) -> int {
    choose|k: int| is_first_nearest(c, candidates, k)
}

/// The candidate nearest to `c`; of several at the same distance, the first.
pub open spec fn quantize(c: Color, candidates: Seq<Color>) -> Color {
    candidates[nearest_index(c, candidates)]
}

/// At most one index is the first nearest.
pub proof fn lemma_first_nearest_unique(c: Color, candidates: Seq<Color>, k1: int, k2: int)
    requires
        is_first_nearest(c, candidates, k1),
        is_first_nearest(c, candidates, k2),
    ensures
        k1 == k2,
{
    if k1 < k2 {
        assert(distance_squared(c, candidates[k2]) < distance_squared(c, candidates[k1]));
    } else if k2 < k1 {
        assert(distance_squared(c, candidates[k1]) < distance_squared(c, candidates[k2]));
    }
}

/// An index known to be the first nearest is the one that `quantize` takes.
pub proof fn lemma_quantize_at(c: Color, candidates: Seq<Color>, k: int)
    requires
        is_first_nearest(c, candidates, k),
    ensures
        nearest_index(c, candidates) == k,
        quantize(c, candidates) == candidates[k],
{
    lemma_first_nearest_unique(c, candidates, k, nearest_index(c, candidates));
}

/// With a single candidate every colour is quantised to that candidate.
pub proof fn lemma_single_candidate(c: Color, only: Color)
    ensures
        quantize(c, seq![only]) == only,
{
    let s = seq![only];
    assert(is_first_nearest(c, s, 0));
    lemma_quantize_at(c, s, 0);
}

/// The first colour of the catalogue alone is white, so a palette of one
/// colour turns every colour white.
pub proof fn lemma_first_of_catalog_is_white(c: Color)
    ensures
        selection(catalog_colors(), 1) == Ok::<Seq<Color>, ConfigError>(seq![white()]),
        quantize(c, catalog_colors().take(1)) == white(),
{
    assert(catalog_colors().take(1) =~= seq![white()]);
    lemma_single_candidate(c, white());
}

/// The eight catalogue colours, first priority first.
pub fn catalog() -> (colors: Vec<Color>)
    ensures
        colors@ == catalog_colors(),
{
    let mut colors: Vec<Color> = Vec::new();
    colors.push(Named::White.rgb());
    colors.push(Named::Black.rgb());
    colors.push(Named::Red.rgb());
    colors.push(Named::Green.rgb());
    colors.push(Named::Blue.rgb());
    colors.push(Named::Yellow.rgb());
    colors.push(Named::Magenta.rgb());
    colors.push(Named::Cyan.rgb());
    assert(colors@ =~= catalog_colors());
    colors
}

/// The five colours of the diffusion palette, first priority first.
pub fn diffusion_catalog() -> (colors: Vec<Color>)
    ensures
        colors@ == diffusion_colors(),
{
    let mut colors: Vec<Color> = Vec::new();
    colors.push(Named::Black.rgb());
    colors.push(Named::White.rgb());
    colors.push(Named::Red.rgb());
    colors.push(Named::Blue.rgb());
    colors.push(Named::Green.rgb());
    assert(colors@ =~= diffusion_colors());
    colors
}

/// The first `n` colours of `colors`, in their order. A request for none is
/// refused as `EmptyPalette`, one for more than there are as `TooManyColors`.
pub fn select_first(colors: &Vec<Color>, n: usize) -> (r: Result<Vec<Color>, ConfigError>)
    ensures
        match r {
            Ok(chosen) => selection(colors@, n as int) == Ok::<Seq<Color>, ConfigError>(chosen@),
            Err(e) => selection(colors@, n as int) == Err::<Seq<Color>, ConfigError>(e),
        },
{
    if n == 0 {
        return Err(ConfigError::EmptyPalette);
    }
    if n > colors.len() {
        return Err(ConfigError::TooManyColors);
    }
    let mut chosen: Vec<Color> = Vec::new();
    let mut i: usize = 0;
    while i < n
        invariant
            i <= n <= colors@.len(),
            chosen@ == colors@.take(i as int),
        decreases n - i,
    {
        chosen.push(colors[i]);
        assert(chosen@ =~= colors@.take(i + 1));
        i += 1;
    }
    Ok(chosen)
}

/// The nearest candidate to `c` when there is at least one candidate.
pub fn nearest_of(c: Color, candidates: &Vec<Color>) -> (q: Color)
    requires
        candidates@.len() > 0,
    ensures
        q == quantize(c, candidates@),
        is_first_nearest(c, candidates@, nearest_index(c, candidates@)),
{
    let mut best: usize = 0;
    let mut best_distance: u32 = color_distance_squared(c, candidates[0]);
    let mut i: usize = 1;
    while i < candidates.len()
        invariant
            1 <= i <= candidates@.len(),
            best < i,
            best_distance == distance_squared(c, candidates@[best as int]),
            forall|j: int|
                0 <= j < i ==> best_distance <= distance_squared(c, #[trigger] candidates@[j]),
            forall|j: int|
                0 <= j < best ==> best_distance < distance_squared(c, #[trigger] candidates@[j]),
        decreases candidates@.len() - i,
    {
        let d: u32 = color_distance_squared(c, candidates[i]);
        if d < best_distance {
            best = i;
            best_distance = d;
        }
        i += 1;
    }
    proof {
        assert(is_first_nearest(c, candidates@, best as int));
        lemma_quantize_at(c, candidates@, best as int);
    }
    candidates[best]
}

/// Quantises `c` to the nearest of `candidates`, the first of several equally
/// near. An empty list is refused as `EmptyPalette`.
pub fn nearest_color(c: Color, candidates: &Vec<Color>) -> (r: Result<Color, ConfigError>)
    ensures
        candidates@.len() == 0 ==> r == Err::<Color, ConfigError>(ConfigError::EmptyPalette),
        candidates@.len() > 0 ==> r == Ok::<Color, ConfigError>(quantize(c, candidates@)),
        candidates@.len() > 0 ==> is_first_nearest(
            c,
            candidates@,
            nearest_index(c, candidates@),
        ),
{
    if candidates.len() == 0 {
        Err(ConfigError::EmptyPalette)
    } else {
        Ok(nearest_of(c, candidates))
    }
}

} // verus!
