//! The recursively built threshold matrix of ordered dithering.

use vstd::prelude::*;

verus! {

/// Two to the power `n`.
pub open spec fn pow2(n: nat) -> nat
    decreases n,
{
    if n == 0 {
        1
    } else {
        2 * pow2((n - 1) as nat)
    }
}

/// What a quadrant adds to four times the smaller matrix's rank.
pub open spec fn quadrant_offset(lower: bool, right: bool) -> nat {
    if lower {
        if right {
            1
        } else {
            2
        }
    } else {
        if right {
            3
        } else {
            0
        }
    }
}

/// The rank at row `i`, column `j` of the matrix of the given order.
///
/// Order 0 is the single cell 0. A matrix of order n holds four copies of the
/// matrix of order n - 1, each rank multiplied by four, with 0 added in the
/// upper left quadrant, 3 in the upper right, 2 in the lower left and 1 in the
/// lower right.
pub open spec fn bayer_rank(order: nat, i: int, j: int) -> nat
    decreases order,
{
    if order == 0 {
        0
    } else {
        let half = pow2((order - 1) as nat) as int;
        let lower = i >= half;
        let right = j >= half;
        let pi = if lower { i - half } else { i };
        let pj = if right { j - half } else { j };
        4 * bayer_rank((order - 1) as nat, pi, pj) + quadrant_offset(lower, right)
    }
}

/// `m` is the square matrix of the given order, cell by cell.
pub open spec fn is_bayer_matrix(m: Seq<Vec<u32>>, order: nat) -> bool {
    &&& m.len() == pow2(order)
    &&& forall|i: int| 0 <= i < m.len() ==> (#[trigger] m[i])@.len() == pow2(order)
    &&& forall|i: int, j: int|
        0 <= i < m.len() && 0 <= j < m.len() ==> (#[trigger] m[i]@[j]) == bayer_rank(order, i, j)
}

/// Some cell of the matrix of the given order holds the rank `v`.
pub open spec fn rank_occurs(order: nat, v: nat) -> bool {
    exists|i: int, j: int|
        0 <= i < pow2(order) && 0 <= j < pow2(order) && #[trigger] bayer_rank(order, i, j) == v
}

/// Ordered dithering of one colour against the rank of its cell: white where
/// the luminance exceeds `rank * 255 / cells`, black elsewhere. The luminance
/// is in ten-thousandths.
pub open spec fn exceeds_rank(luminance: int, rank: int, cells: int) -> bool {
    luminance * cells > rank * 2550000
}

/// A power of two is at least one.
pub proof fn lemma_pow2_positive(n: nat)
    ensures
        pow2(n) >= 1,
    decreases n,
{
    if n > 0 {
        lemma_pow2_positive((n - 1) as nat);
    }
}

/// A larger exponent gives no smaller power of two.
pub proof fn lemma_pow2_monotone(a: nat, b: nat)
    requires
        a <= b,
    ensures
        pow2(a) <= pow2(b),
    decreases b,
{
    if a < b {
        lemma_pow2_monotone(a, (b - 1) as nat);
    }
}

proof fn lemma_pow2_values()
    ensures
        pow2(15) == 32768,
        pow2(14) == 16384,
{
    reveal_with_fuel(pow2, 17);
}

/// Every rank of the matrix of order n lies below the number of its cells.
pub proof fn lemma_rank_in_range(order: nat, i: int, j: int)
    requires
        0 <= i < pow2(order),
        0 <= j < pow2(order),
    ensures
        bayer_rank(order, i, j) < pow2(order) * pow2(order),
    decreases order,
{
    if order == 0 {
    } else {
        let half = pow2((order - 1) as nat) as int;
        let pi = if i >= half { i - half } else { i };
        let pj = if j >= half { j - half } else { j };
        lemma_rank_in_range((order - 1) as nat, pi, pj);
        assert((2 * half) * (2 * half) == 4 * (half * half)) by (nonlinear_arith);
    }
}

/// No rank occurs in two cells of one matrix.
pub proof fn lemma_rank_injective(order: nat, i1: int, j1: int, i2: int, j2: int)
    requires
        0 <= i1 < pow2(order),
        0 <= j1 < pow2(order),
        0 <= i2 < pow2(order),
        0 <= j2 < pow2(order),
        bayer_rank(order, i1, j1) == bayer_rank(order, i2, j2),
    ensures
        i1 == i2,
        j1 == j2,
    decreases order,
{
    if order == 0 {
    } else {
        let half = pow2((order - 1) as nat) as int;
        let p1 = if i1 >= half { i1 - half } else { i1 };
        let q1 = if j1 >= half { j1 - half } else { j1 };
        let p2 = if i2 >= half { i2 - half } else { i2 };
        let q2 = if j2 >= half { j2 - half } else { j2 };
        lemma_rank_injective((order - 1) as nat, p1, q1, p2, q2);
    }
}

/// Every number below the number of cells is the rank of some cell.
pub proof fn lemma_rank_surjective(order: nat, v: nat) -> (cell: (int, int))
    requires
        v < pow2(order) * pow2(order),
    ensures
        0 <= cell.0 < pow2(order),
        0 <= cell.1 < pow2(order),
        bayer_rank(order, cell.0, cell.1) == v,
    decreases order,
{
    if order == 0 {
        assert(pow2(0) * pow2(0) == 1) by (nonlinear_arith)
            requires
                pow2(0) == 1,
        ;
        (0, 0)
    } else {
        let half = pow2((order - 1) as nat) as int;
        assert((2 * half) * (2 * half) == 4 * (half * half)) by (nonlinear_arith);
        assert(pow2(order) == 2 * half);
        let q = v / 4;
        let r = v % 4;
        assert(q < pow2((order - 1) as nat) * pow2((order - 1) as nat));
        let inner = lemma_rank_surjective((order - 1) as nat, q);
        if r == 0 {
            (inner.0, inner.1)
        } else if r == 3 {
            (inner.0, inner.1 + half)
        } else if r == 2 {
            (inner.0 + half, inner.1)
        } else {
            (inner.0 + half, inner.1 + half)
        }
    }
}

/// The ranks of the matrix of order n are a permutation of the numbers below
/// the number of its cells: each is in range, none occurs twice, and none is
/// missing.
pub proof fn lemma_ranks_are_permutation(order: nat)
    ensures
        forall|i: int, j: int|
            0 <= i < pow2(order) && 0 <= j < pow2(order) ==> #[trigger] bayer_rank(order, i, j)
                < pow2(order) * pow2(order),
        forall|i1: int, j1: int, i2: int, j2: int|
            0 <= i1 < pow2(order) && 0 <= j1 < pow2(order) && 0 <= i2 < pow2(order) && 0 <= j2
                < pow2(order) && #[trigger] bayer_rank(order, i1, j1) == #[trigger] bayer_rank(
                order,
                i2,
                j2,
            ) ==> i1 == i2 && j1 == j2,
        forall|v: nat| v < pow2(order) * pow2(order) ==> #[trigger] rank_occurs(order, v),
{
    assert forall|i: int, j: int|
        0 <= i < pow2(order) && 0 <= j < pow2(order) implies #[trigger] bayer_rank(order, i, j)
        < pow2(order) * pow2(order) by {
        lemma_rank_in_range(order, i, j);
    }
    assert forall|i1: int, j1: int, i2: int, j2: int|
        0 <= i1 < pow2(order) && 0 <= j1 < pow2(order) && 0 <= i2 < pow2(order) && 0 <= j2 < pow2(
            order,
        ) && #[trigger] bayer_rank(order, i1, j1) == #[trigger] bayer_rank(order, i2, j2) implies i1
        == i2 && j1 == j2 by {
        lemma_rank_injective(order, i1, j1, i2, j2);
    }
    assert forall|v: nat| v < pow2(order) * pow2(order) implies #[trigger] rank_occurs(
        order,
        v,
    ) by {
        let cell = lemma_rank_surjective(order, v);
        assert(bayer_rank(order, cell.0, cell.1) == v);
    }
}

/// The matrix of order 1 is [[0, 3], [2, 1]].
pub proof fn lemma_order_one()
    ensures
        bayer_rank(1, 0, 0) == 0,
        bayer_rank(1, 0, 1) == 3,
        bayer_rank(1, 1, 0) == 2,
        bayer_rank(1, 1, 1) == 1,
{
    reveal_with_fuel(bayer_rank, 3);
    reveal_with_fuel(pow2, 3);
}

/// Builds the threshold matrix of the given order: a square of side
/// 2^order whose cell (i, j) holds `bayer_rank(order, i, j)`.
pub fn generate_bayer_matrix(order: u32) -> (matrix: Vec<Vec<u32>>)
    requires
        order <= 15,
    ensures
        is_bayer_matrix(matrix@, order as nat),
    decreases order,
{
    if order == 0 {
        let mut row: Vec<u32> = Vec::new();
        row.push(0);
        let mut matrix: Vec<Vec<u32>> = Vec::new();
        matrix.push(row);
        return matrix;
    }
    let prev = generate_bayer_matrix(order - 1);
    let half: usize = prev.len();
    proof {
        lemma_pow2_values();
        lemma_pow2_monotone((order - 1) as nat, 14);
        lemma_pow2_positive((order - 1) as nat);
    }
    let size: usize = half * 2;
    let mut matrix: Vec<Vec<u32>> = Vec::new();
    let mut i: usize = 0;
    while i < size
        invariant
            1 <= order <= 15,
            half == pow2((order - 1) as nat),
            half <= 16384,
            size == 2 * half,
            size == pow2(order as nat),
            is_bayer_matrix(prev@, (order - 1) as nat),
            i <= size,
            matrix@.len() == i,
            forall|a: int| 0 <= a < i ==> (#[trigger] matrix@[a])@.len() == size,
            forall|a: int, b: int|
                0 <= a < i && 0 <= b < size ==> (#[trigger] matrix@[a]@[b]) == bayer_rank(
                    order as nat,
                    a,
                    b,
                ),
        decreases size - i,
    {
        let lower = i >= half;
        let pi: usize = if lower { i - half } else { i };
        let mut row: Vec<u32> = Vec::new();
        let mut j: usize = 0;
        while j < size
            invariant
                1 <= order <= 15,
                half == pow2((order - 1) as nat),
                half <= 16384,
                size == 2 * half,
                is_bayer_matrix(prev@, (order - 1) as nat),
                i < size,
                lower == (i >= half),
                pi == if lower { i - half } else { i as int },
                j <= size,
                row@.len() == j,
                forall|b: int| 0 <= b < j ==> (#[trigger] row@[b]) == bayer_rank(
                    order as nat,
                    i as int,
                    b,
                ),
            decreases size - j,
        {
            let right = j >= half;
            let pj: usize = if right { j - half } else { j };
            let inner: u32 = prev[pi][pj];
            proof {
                lemma_rank_in_range((order - 1) as nat, pi as int, pj as int);
                assert(half * half <= 16384 * 16384) by (nonlinear_arith)
                    requires
                        0 <= half <= 16384,
                ;
                assert(inner == bayer_rank((order - 1) as nat, pi as int, pj as int));
            }
            let offset: u32 = if lower {
                if right { 1 } else { 2 }
            } else {
                if right { 3 } else { 0 }
            };
            row.push(4 * inner + offset);
            j += 1;
        }
        matrix.push(row);
        i += 1;
    }
    matrix
}

/// Whether a pixel of the given luminance (in ten-thousandths) is white under
/// the rank of its cell in a matrix of `side` by `side` cells.
pub fn rank_test(luminance: u32, rank: u32, side: usize) -> (lit: bool)
    requires
        luminance <= 2550000,
        side <= 32768,
    ensures
        lit == exceeds_rank(luminance as int, rank as int, side * side),
{
    assert(side * side <= 32768 * 32768) by (nonlinear_arith)
        requires
            0 <= side <= 32768,
    ;
    let cells: u64 = (side as u64) * (side as u64);
    assert(luminance * cells <= 2550000 * (32768 * 32768)) by (nonlinear_arith)
        requires
            0 <= luminance <= 2550000,
            0 <= cells <= 32768 * 32768,
    ;
    assert(rank * 2550000 <= 0xffff_ffff * 2550000) by (nonlinear_arith)
        requires
            0 <= rank <= 0xffff_ffff,
    ;
    (luminance as u64) * cells > (rank as u64) * 2550000
}

} // verus!
