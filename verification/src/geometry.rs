//! Why three cells of padding are enough: in exact arithmetic, a grid that
//! is centred on an extent and has three cells more than the extent spans
//! reaches beyond the extent on both sides, and every position inside the
//! extent falls in a cell whose whole 3-wide window lies inside the grid.
//! And why a window of adjacent cells is enough: two positions that are at
//! most one cell length apart fall in the same cell or in adjacent cells, so
//! that the candidates of the search include every true neighbour.
//!
//! Lengths are integers in one common unit. Where a half would be needed the
//! doubled quantity is used instead.

use crate::constants::GRID_PADDING;
use vstd::prelude::*;

verus! {

/// Twice the lower bound of a grid of `count` cells of length `h` that is
/// centred on the midpoint of the extent from `lo` to `hi`.
pub open spec fn doubled_offset(lo: int, hi: int, count: int, h: int) -> int {
    lo + hi - count * h
}

/// The cell coordinate of position `p` in a grid with cells of length `h`
/// whose doubled lower bound is `offset2`: the floor of `(p - offset) / h`.
pub open spec fn axis_cell(p: int, offset2: int, h: int) -> int {
    (2 * p - offset2) / (2 * h)
}

/// A grid with three cells more than the extent spans has its middle at the
/// midpoint of the extent and strictly contains the extent, and every
/// position of the extent has a cell coordinate from 1 to `count - 2`, so
/// that its neighbours on both sides are cells of the grid.
pub proof fn lemma_padding_covers_window(lo: int, hi: int, h: int, span: int, p: int)
    requires
        h > 0,
        lo <= hi,
        span * h >= hi - lo,
        lo <= p <= hi,
    ensures
        doubled_offset(lo, hi, span + GRID_PADDING, h) + (span + GRID_PADDING) * h == lo + hi,
        doubled_offset(lo, hi, span + GRID_PADDING, h) < 2 * lo,
        doubled_offset(lo, hi, span + GRID_PADDING, h) + 2 * ((span + GRID_PADDING) * h) > 2 * hi,
        1 <= axis_cell(p, doubled_offset(lo, hi, span + GRID_PADDING, h), h) <= span
            + GRID_PADDING - 2,
{
    let count = span + 3;
    let offset2 = doubled_offset(lo, hi, count, h);
    assert(count * h == span * h + 3 * h) by (nonlinear_arith)
        requires
            count == span + 3,
    ;
    let num = 2 * p - offset2;
    assert(2 * h <= num);
    assert(num < (count - 1) * (2 * h)) by (nonlinear_arith)
        requires
            num <= 2 * (span * h) + 3 * h,
            count == span + 3,
            h > 0,
    ;
    assert(1 <= num / (2 * h)) by (nonlinear_arith)
        requires
            2 * h <= num,
            h > 0,
    ;
    assert(num / (2 * h) <= count - 2) by (nonlinear_arith)
        requires
            num < (count - 1) * (2 * h),
            h > 0,
    ;
}

/// Two positions that are at most one cell length apart along an axis have
/// cell coordinates that differ by at most one.
pub proof fn lemma_near_positions_adjacent(p: int, q: int, offset2: int, h: int)
    requires
        h > 0,
        -h <= p - q <= h,
    ensures
        -1 <= axis_cell(p, offset2, h) - axis_cell(q, offset2, h) <= 1,
{
    let d = 2 * h;
    let a = 2 * p - offset2;
    let b = 2 * q - offset2;
    vstd::arithmetic::div_mod::lemma_fundamental_div_mod(a, d);
    vstd::arithmetic::div_mod::lemma_fundamental_div_mod(b, d);
    vstd::arithmetic::div_mod::lemma_mod_bound(a, d);
    vstd::arithmetic::div_mod::lemma_mod_bound(b, d);
    let ca = a / d;
    let cb = b / d;
    assert(-1 <= ca - cb <= 1) by (nonlinear_arith)
        requires
            d > 0,
            -d <= a - b <= d,
            a == d * ca + a % d,
            b == d * cb + b % d,
            0 <= a % d < d,
            0 <= b % d < d,
    {
        if ca - cb >= 2 {
            assert(d * ca >= d * cb + 2 * d);
        } else if cb - ca >= 2 {
            assert(d * cb >= d * ca + 2 * d);
        }
    }
}

} // verus!
