//! What the neighbour search guarantees once every particle is filed in at
//! most one bucket: a pair of particles is recorded exactly when their cells
//! are adjacent, and then exactly once, under the smaller index.

use crate::spatial_hash::{above, candidates, column, links, slab, sweep, window, Grid};
use crate::spatial_hash::{indices_below, lemma_bucket_members, populated};
use crate::spatial_hash::{window_dx, window_dy, window_dz};
use vstd::prelude::*;
use vstd::seq_lib::{
    lemma_no_dup_in_concat, lemma_seq_concat_contains_all_elements, lemma_seq_contains_after_push,
};

verus! {

/// No particle index is stored twice, be it in one bucket or in two.
pub open spec fn disjoint(table: Seq<Seq<usize>>) -> bool {
    forall|c: int, k: int, d: int, m: int|
        0 <= c < table.len() && 0 <= k < table[c].len() && 0 <= d < table.len() && 0 <= m
            < table[d].len() && #[trigger] table[c][k] == #[trigger] table[d][m] ==> c == d && k
            == m
}

/// The two cells differ by at most one on every axis.
pub open spec fn adjacent(xi: int, yi: int, zi: int, xj: int, yj: int, zj: int) -> bool {
    &&& -1 <= xj - xi <= 1
    &&& -1 <= yj - yi <= 1
    &&& -1 <= zj - zi <= 1
}

/// Position in the window walk of the cell at offset `(dx, dy, dz)`.
pub open spec fn window_rank(dx: int, dy: int, dz: int) -> int {
    (dx + 1) * 9 + (dy + 1) * 3 + (dz + 1)
}

/// Particle `i` is stored in no cell of the grid but, possibly, `(x, y, z)`.
pub open spec fn only_at(
    grid: &Grid,
    table: Seq<Seq<usize>>,
    i: usize,
    x: int,
    y: int,
    z: int,
) -> bool {
    forall|cx: int, cy: int, cz: int|
        grid.contains(cx, cy, cz) && #[trigger] table[grid.index(cx, cy, cz)].contains(i) ==> cx
            == x && cy == y && cz == z
}

/// Two cells inside the grid with the same linear index are the same cell.
pub proof fn lemma_index_injective(
    grid: &Grid,
    xi: int,
    yi: int,
    zi: int,
    xj: int,
    yj: int,
    zj: int,
)
    requires
        grid.contains(xi, yi, zi),
        grid.contains(xj, yj, zj),
        grid.index(xi, yi, zi) == grid.index(xj, yj, zj),
    ensures
        xi == xj,
        yi == yj,
        zi == zj,
{
    let nx = grid.nx();
    let ny = grid.ny();
    let ri = yi + ny * zi;
    let rj = yj + ny * zj;
    assert(ri == rj && xi == xj) by (nonlinear_arith)
        requires
            0 <= xi < nx,
            0 <= xj < nx,
            xi + nx * ri == xj + nx * rj,
    {
        if ri < rj {
            assert(nx * rj >= nx * ri + nx);
        } else if rj < ri {
            assert(nx * ri >= nx * rj + nx);
        }
    }
    assert(zi == zj && yi == yj) by (nonlinear_arith)
        requires
            0 <= yi < ny,
            0 <= yj < ny,
            yi + ny * zi == yj + ny * zj,
    {
        if zi < zj {
            assert(ny * zj >= ny * zi + ny);
        } else if zj < zi {
            assert(ny * zi >= ny * zj + ny);
        }
    }
}

/// `above` keeps exactly the entries greater than `i`, and keeps a list free
/// of repetitions free of them.
pub proof fn lemma_above_members(list: Seq<usize>, i: usize)
    ensures
        forall|j: usize|
            #![trigger above(list, i).contains(j)]
            #![trigger list.contains(j)]
            above(list, i).contains(j) <==> list.contains(j) && i < j,
        list.no_duplicates() ==> above(list, i).no_duplicates(),
    decreases list.len(),
{
    if list.len() > 0 {
        let front = list.drop_last();
        let last = list.last();
        lemma_above_members(front, i);
        assert(list == front.push(last));
        assert forall|j: usize|
            #![trigger above(list, i).contains(j)]
            #![trigger list.contains(j)]
            above(list, i).contains(j) <==> list.contains(j) && i < j by {
            lemma_seq_contains_after_push(front, last, j);
            lemma_seq_contains_after_push(above(front, i), last, j);
        }
        if list.no_duplicates() {
            assert(front.no_duplicates());
            if i < last {
                if front.contains(last) {
                    let k = choose|k: int| 0 <= k < front.len() && front[k] == last;
                    assert(list[k] == list[list.len() - 1]);
                }
                assert(!above(front, i).contains(last));
                let kept = above(front, i);
                assert forall|a: int, b: int|
                    0 <= a < kept.push(last).len() && 0 <= b < kept.push(last).len() && a
                        != b implies kept.push(last)[a] != kept.push(last)[b] by {
                    if a < kept.len() {
                        assert(kept.contains(kept[a]));
                    }
                    if b < kept.len() {
                        assert(kept.contains(kept[b]));
                    }
                }
            }
        }
    }
}

/// A source bucket that does not hold `i` adds nothing to its candidates.
pub proof fn lemma_links_absent(src: Seq<usize>, dst: Seq<usize>, i: usize)
    requires
        !src.contains(i),
    ensures
        links(src, dst, i) == Seq::<usize>::empty(),
    decreases src.len(),
{
    if src.len() > 0 {
        assert(src[src.len() - 1] != i);
        assert forall|k: int| 0 <= k < src.drop_last().len() implies src.drop_last()[k] != i by {
            assert(src[k] != i);
        }
        lemma_links_absent(src.drop_last(), dst, i);
    }
}

/// A source bucket that holds `i` once adds the target's entries above `i`.
pub proof fn lemma_links_single(src: Seq<usize>, dst: Seq<usize>, i: usize)
    requires
        src.no_duplicates(),
        src.contains(i),
    ensures
        links(src, dst, i) == above(dst, i),
    decreases src.len(),
{
    let front = src.drop_last();
    let k = choose|k: int| 0 <= k < src.len() && src[k] == i;
    if src.last() == i {
        assert forall|m: int| 0 <= m < front.len() implies front[m] != i by {
            assert(src[m] != src[src.len() - 1]);
        }
        lemma_links_absent(front, dst, i);
        assert(links(src, dst, i) == Seq::<usize>::empty() + above(dst, i));
    } else {
        assert(front[k] == i);
        lemma_links_single(front, dst, i);
    }
}

/// A source cell that does not hold `i` adds nothing to its candidates.
pub proof fn lemma_window_absent(
    grid: &Grid,
    table: Seq<Seq<usize>>,
    x: int,
    y: int,
    z: int,
    w: nat,
    i: usize,
)
    requires
        !table[grid.index(x, y, z)].contains(i),
    ensures
        window(grid, table, x, y, z, w, i) == Seq::<usize>::empty(),
    decreases w,
{
    if w > 0 {
        let r = w - 1;
        lemma_window_absent(grid, table, x, y, z, r as nat, i);
        let tx = x + window_dx(r);
        let ty = y + window_dy(r);
        let tz = z + window_dz(r);
        lemma_links_absent(table[grid.index(x, y, z)], table[grid.index(tx, ty, tz)], i);
    }
}

/// Every bucket of a table that stores no particle twice is free of
/// repetitions.
pub proof fn lemma_disjoint_bucket(table: Seq<Seq<usize>>, c: int)
    requires
        disjoint(table),
        0 <= c < table.len(),
    ensures
        table[c].no_duplicates(),
{
    assert forall|k: int, m: int| 0 <= k < table[c].len() && 0 <= m < table[c].len() && k
        != m implies table[c][k] != table[c][m] by {
        if table[c][k] == table[c][m] {
            assert(k == m);
        }
    }
}

/// In a table that stores no particle twice, a particle found in one cell of
/// the grid is in no other.
pub proof fn lemma_disjoint_home(
    grid: &Grid,
    table: Seq<Seq<usize>>,
    i: usize,
    x: int,
    y: int,
    z: int,
)
    requires
        table.len() == grid.cells(),
        disjoint(table),
        grid.contains(x, y, z),
        table[grid.index(x, y, z)].contains(i),
    ensures
        only_at(grid, table, i, x, y, z),
{
    crate::spatial_hash::lemma_index_in_range(grid, x, y, z);
    let home = grid.index(x, y, z);
    let k = choose|k: int| 0 <= k < table[home].len() && table[home][k] == i;
    assert forall|cx: int, cy: int, cz: int|
        grid.contains(cx, cy, cz) && #[trigger] table[grid.index(cx, cy, cz)].contains(
            i,
        ) implies cx == x && cy == y && cz == z by {
        crate::spatial_hash::lemma_index_in_range(grid, cx, cy, cz);
        let c = grid.index(cx, cy, cz);
        let m = choose|m: int| 0 <= m < table[c].len() && table[c][m] == i;
        assert(table[c][m] == table[home][k]);
        lemma_index_injective(grid, cx, cy, cz, x, y, z);
    }
}

/// With `i` stored once, in cell `(xi, yi, zi)`, and `j` stored once, in
/// cell `(xj, yj, zj)`: the first `w` cells of the window of `i`'s cell yield
/// `j` exactly if `j` is the larger index and its cell is among those `w`.
pub proof fn lemma_window_members(
    grid: &Grid,
    table: Seq<Seq<usize>>,
    w: nat,
    i: usize,
    j: usize,
    xi: int,
    yi: int,
    zi: int,
    xj: int,
    yj: int,
    zj: int,
)
    requires
        table.len() == grid.cells(),
        disjoint(table),
        w <= 27,
        grid.contains(xi, yi, zi),
        grid.contains(xj, yj, zj),
        table[grid.index(xi, yi, zi)].contains(i),
        table[grid.index(xj, yj, zj)].contains(j),
    ensures
        window(grid, table, xi, yi, zi, w, i).contains(j) <==> i < j && adjacent(
            xi,
            yi,
            zi,
            xj,
            yj,
            zj,
        ) && window_rank(xj - xi, yj - yi, zj - zi) < w,
    decreases w,
{
    if w > 0 {
        let r = w - 1;
        let tx = xi + window_dx(r);
        let ty = yi + window_dy(r);
        let tz = zi + window_dz(r);
        let earlier = window(grid, table, xi, yi, zi, r as nat, i);
        lemma_window_members(grid, table, r as nat, i, j, xi, yi, zi, xj, yj, zj);
        assert(adjacent(xi, yi, zi, xj, yj, zj) && window_rank(xj - xi, yj - yi, zj - zi) == r
            <==> tx == xj && ty == yj && tz == zj);
        if grid.contains(tx, ty, tz) {
            crate::spatial_hash::lemma_index_in_range(grid, xi, yi, zi);
            crate::spatial_hash::lemma_index_in_range(grid, tx, ty, tz);
            let src = table[grid.index(xi, yi, zi)];
            let dst = table[grid.index(tx, ty, tz)];
            lemma_disjoint_bucket(table, grid.index(xi, yi, zi));
            lemma_links_single(src, dst, i);
            lemma_above_members(dst, i);
            lemma_seq_concat_contains_all_elements(earlier, above(dst, i), j);
            lemma_disjoint_home(grid, table, j, xj, yj, zj);
            assert(dst.contains(j) <==> tx == xj && ty == yj && tz == zj);
        }
    }
}

/// With `i` stored once, in cell `(x, y, z)`, the window of that cell yields
/// no particle twice.
pub proof fn lemma_window_no_duplicates(
    grid: &Grid,
    table: Seq<Seq<usize>>,
    w: nat,
    i: usize,
    x: int,
    y: int,
    z: int,
)
    requires
        table.len() == grid.cells(),
        disjoint(table),
        w <= 27,
        grid.contains(x, y, z),
        table[grid.index(x, y, z)].contains(i),
    ensures
        window(grid, table, x, y, z, w, i).no_duplicates(),
    decreases w,
{
    if w > 0 {
        let r = w - 1;
        let tx = x + window_dx(r);
        let ty = y + window_dy(r);
        let tz = z + window_dz(r);
        let earlier = window(grid, table, x, y, z, r as nat, i);
        lemma_window_no_duplicates(grid, table, r as nat, i, x, y, z);
        if grid.contains(tx, ty, tz) {
            crate::spatial_hash::lemma_index_in_range(grid, x, y, z);
            crate::spatial_hash::lemma_index_in_range(grid, tx, ty, tz);
            let src = table[grid.index(x, y, z)];
            let dst = table[grid.index(tx, ty, tz)];
            let added = above(dst, i);
            lemma_disjoint_bucket(table, grid.index(x, y, z));
            lemma_disjoint_bucket(table, grid.index(tx, ty, tz));
            lemma_links_single(src, dst, i);
            lemma_above_members(dst, i);
            assert forall|a: int, b: int| 0 <= a < earlier.len() && 0 <= b < added.len() implies
                earlier[a] != added[b] by {
                let j = added[b];
                assert(added.contains(j));
                assert(dst.contains(j));
                lemma_window_members(grid, table, r as nat, i, j, x, y, z, tx, ty, tz);
                if earlier[a] == j {
                    assert(earlier.contains(j));
                }
            }
            lemma_no_dup_in_concat(earlier, added);
        }
    }
}

/// With `i` stored nowhere in the grid but, possibly, in cell `(xi, yi, zi)`,
/// the source cells `(x, y, 0..zs)` add what that cell's window adds if it is
/// among them, and nothing otherwise.
pub proof fn lemma_column_home(
    grid: &Grid,
    table: Seq<Seq<usize>>,
    x: int,
    y: int,
    zs: nat,
    i: usize,
    xi: int,
    yi: int,
    zi: int,
)
    requires
        only_at(grid, table, i, xi, yi, zi),
        0 <= x < grid.nx(),
        0 <= y < grid.ny(),
        zs <= grid.nz(),
    ensures
        column(grid, table, x, y, zs, i) == if x == xi && y == yi && 0 <= zi < zs {
            window(grid, table, xi, yi, zi, 27, i)
        } else {
            Seq::<usize>::empty()
        },
    decreases zs,
{
    if zs > 0 {
        let z = zs - 1;
        lemma_column_home(grid, table, x, y, z as nat, i, xi, yi, zi);
        let before = column(grid, table, x, y, z as nat, i);
        let here = window(grid, table, x, y, z, 27, i);
        if !(x == xi && y == yi && z == zi) {
            assert(grid.contains(x, y, z));
            lemma_window_absent(grid, table, x, y, z, 27, i);
            assert(before + here == before);
        } else {
            assert(before + here == here);
        }
    }
}

/// The same for the source cells `(x, 0..ys, *)`.
pub proof fn lemma_slab_home(
    grid: &Grid,
    table: Seq<Seq<usize>>,
    x: int,
    ys: nat,
    i: usize,
    xi: int,
    yi: int,
    zi: int,
)
    requires
        only_at(grid, table, i, xi, yi, zi),
        0 <= x < grid.nx(),
        ys <= grid.ny(),
        0 <= grid.nz(),
    ensures
        slab(grid, table, x, ys, i) == if x == xi && 0 <= yi < ys && 0 <= zi < grid.nz() {
            window(grid, table, xi, yi, zi, 27, i)
        } else {
            Seq::<usize>::empty()
        },
    decreases ys,
{
    if ys > 0 {
        let y = ys - 1;
        lemma_slab_home(grid, table, x, y as nat, i, xi, yi, zi);
        lemma_column_home(grid, table, x, y, grid.nz() as nat, i, xi, yi, zi);
        let before = slab(grid, table, x, y as nat, i);
        let here = column(grid, table, x, y, grid.nz() as nat, i);
        if x == xi && y == yi && 0 <= zi < grid.nz() {
            assert(before + here == here);
        } else {
            assert(before + here == before);
        }
    }
}

/// The same for the source cells `(0..xs, *, *)`.
pub proof fn lemma_sweep_home(
    grid: &Grid,
    table: Seq<Seq<usize>>,
    xs: nat,
    i: usize,
    xi: int,
    yi: int,
    zi: int,
)
    requires
        only_at(grid, table, i, xi, yi, zi),
        xs <= grid.nx(),
        0 <= grid.ny(),
        0 <= grid.nz(),
    ensures
        sweep(grid, table, xs, i) == if 0 <= xi < xs && 0 <= yi < grid.ny() && 0 <= zi
            < grid.nz() {
            window(grid, table, xi, yi, zi, 27, i)
        } else {
            Seq::<usize>::empty()
        },
    decreases xs,
{
    if xs > 0 {
        let x = xs - 1;
        lemma_sweep_home(grid, table, x as nat, i, xi, yi, zi);
        lemma_slab_home(grid, table, x, grid.ny() as nat, i, xi, yi, zi);
        let before = sweep(grid, table, x as nat, i);
        let here = slab(grid, table, x, grid.ny() as nat, i);
        if x == xi && 0 <= yi < grid.ny() && 0 <= zi < grid.nz() {
            assert(before + here == here);
        } else {
            assert(before + here == before);
        }
    }
}

/// Some bucket of the table holds particle `j`.
pub open spec fn stored(table: Seq<Seq<usize>>, j: usize) -> bool {
    exists|c: int| 0 <= c < table.len() && (#[trigger] table[c]).contains(j)
}

/// Every candidate of a particle has a larger index than the particle and
/// is taken from a bucket of the table.
pub proof fn lemma_candidates_above(grid: &Grid, table: Seq<Seq<usize>>, i: usize, j: usize)
    requires
        0 <= grid.nx(),
        table.len() == grid.cells(),
        candidates(grid, table, i).contains(j),
    ensures
        i < j,
        stored(table, j),
{
    lemma_sweep_above(grid, table, grid.nx() as nat, i, j);
}

/// Where every stored index is below `n`, so is every candidate.
pub proof fn lemma_candidates_below(
    grid: &Grid,
    table: Seq<Seq<usize>>,
    n: int,
    i: usize,
    k: int,
)
    requires
        0 <= grid.nx(),
        table.len() == grid.cells(),
        indices_below(table, n),
        0 <= k < candidates(grid, table, i).len(),
    ensures
        i < candidates(grid, table, i)[k] < n,
{
    let j = candidates(grid, table, i)[k];
    assert(candidates(grid, table, i).contains(j));
    lemma_candidates_above(grid, table, i, j);
    let c = choose|c: int| 0 <= c < table.len() && (#[trigger] table[c]).contains(j);
    let m = choose|m: int| 0 <= m < table[c].len() && table[c][m] == j;
    assert(table[c][m] < n);
}

proof fn lemma_links_above(src: Seq<usize>, dst: Seq<usize>, i: usize, j: usize)
    requires
        links(src, dst, i).contains(j),
    ensures
        i < j,
        dst.contains(j),
    decreases src.len(),
{
    if src.len() > 0 {
        if src.last() == i {
            lemma_seq_concat_contains_all_elements(links(src.drop_last(), dst, i), above(dst, i), j);
            lemma_above_members(dst, i);
            if links(src.drop_last(), dst, i).contains(j) {
                lemma_links_above(src.drop_last(), dst, i, j);
            }
        } else {
            lemma_links_above(src.drop_last(), dst, i, j);
        }
    }
}

proof fn lemma_window_above(
    grid: &Grid,
    table: Seq<Seq<usize>>,
    x: int,
    y: int,
    z: int,
    w: nat,
    i: usize,
    j: usize,
)
    requires
        table.len() == grid.cells(),
        window(grid, table, x, y, z, w, i).contains(j),
    ensures
        i < j,
        stored(table, j),
    decreases w,
{
    if w > 0 {
        let r = w - 1;
        let tx = x + window_dx(r);
        let ty = y + window_dy(r);
        let tz = z + window_dz(r);
        let earlier = window(grid, table, x, y, z, r as nat, i);
        if grid.contains(tx, ty, tz) {
            let added = links(table[grid.index(x, y, z)], table[grid.index(tx, ty, tz)], i);
            lemma_seq_concat_contains_all_elements(earlier, added, j);
            if added.contains(j) {
                lemma_links_above(table[grid.index(x, y, z)], table[grid.index(tx, ty, tz)], i, j);
                crate::spatial_hash::lemma_index_in_range(grid, tx, ty, tz);
                assert(table[grid.index(tx, ty, tz)].contains(j));
            } else {
                lemma_window_above(grid, table, x, y, z, r as nat, i, j);
            }
        } else {
            lemma_window_above(grid, table, x, y, z, r as nat, i, j);
        }
    }
}

proof fn lemma_column_above(
    grid: &Grid,
    table: Seq<Seq<usize>>,
    x: int,
    y: int,
    zs: nat,
    i: usize,
    j: usize,
)
    requires
        table.len() == grid.cells(),
        column(grid, table, x, y, zs, i).contains(j),
    ensures
        i < j,
        stored(table, j),
    decreases zs,
{
    if zs > 0 {
        let before = column(grid, table, x, y, (zs - 1) as nat, i);
        let here = window(grid, table, x, y, zs - 1, 27, i);
        lemma_seq_concat_contains_all_elements(before, here, j);
        if here.contains(j) {
            lemma_window_above(grid, table, x, y, zs - 1, 27, i, j);
        } else {
            lemma_column_above(grid, table, x, y, (zs - 1) as nat, i, j);
        }
    }
}

proof fn lemma_slab_above(
    grid: &Grid,
    table: Seq<Seq<usize>>,
    x: int,
    ys: nat,
    i: usize,
    j: usize,
)
    requires
        table.len() == grid.cells(),
        slab(grid, table, x, ys, i).contains(j),
    ensures
        i < j,
        stored(table, j),
    decreases ys,
{
    if ys > 0 {
        let before = slab(grid, table, x, (ys - 1) as nat, i);
        let here = column(grid, table, x, ys - 1, grid.nz() as nat, i);
        lemma_seq_concat_contains_all_elements(before, here, j);
        if here.contains(j) {
            lemma_column_above(grid, table, x, ys - 1, grid.nz() as nat, i, j);
        } else {
            lemma_slab_above(grid, table, x, (ys - 1) as nat, i, j);
        }
    }
}

proof fn lemma_sweep_above(grid: &Grid, table: Seq<Seq<usize>>, xs: nat, i: usize, j: usize)
    requires
        table.len() == grid.cells(),
        sweep(grid, table, xs, i).contains(j),
    ensures
        i < j,
        stored(table, j),
    decreases xs,
{
    if xs > 0 {
        let before = sweep(grid, table, (xs - 1) as nat, i);
        let here = slab(grid, table, xs - 1, grid.ny() as nat, i);
        lemma_seq_concat_contains_all_elements(before, here, j);
        if here.contains(j) {
            lemma_slab_above(grid, table, xs - 1, grid.ny() as nat, i, j);
        } else {
            lemma_sweep_above(grid, table, (xs - 1) as nat, i, j);
        }
    }
}

/// The candidates of a particle that is stored once, in cell `(x, y, z)`,
/// are what the window of that cell yields.
pub proof fn lemma_candidates_from_home(
    grid: &Grid,
    table: Seq<Seq<usize>>,
    i: usize,
    x: int,
    y: int,
    z: int,
)
    requires
        table.len() == grid.cells(),
        disjoint(table),
        grid.contains(x, y, z),
        table[grid.index(x, y, z)].contains(i),
    ensures
        candidates(grid, table, i) == window(grid, table, x, y, z, 27, i),
{
    lemma_disjoint_home(grid, table, i, x, y, z);
    lemma_sweep_home(grid, table, grid.nx() as nat, i, x, y, z);
}

/// A particle that no bucket holds has no candidates.
pub proof fn lemma_candidates_of_absent(grid: &Grid, table: Seq<Seq<usize>>, i: usize)
    requires
        0 <= grid.nx(),
        0 <= grid.ny(),
        0 <= grid.nz(),
        forall|c: int| 0 <= c < table.len() ==> !(#[trigger] table[c]).contains(i),
        table.len() == grid.cells(),
    ensures
        candidates(grid, table, i) == Seq::<usize>::empty(),
{
    assert forall|cx: int, cy: int, cz: int|
        grid.contains(cx, cy, cz) && #[trigger] table[grid.index(cx, cy, cz)].contains(
            i,
        ) implies cx == -1 && cy == -1 && cz == -1 by {
        crate::spatial_hash::lemma_index_in_range(grid, cx, cy, cz);
    }
    lemma_sweep_home(grid, table, grid.nx() as nat, i, -1, -1, -1);
}

/// Soundness and completeness of the search. When no particle is stored
/// twice, `i` is stored in cell `(xi, yi, zi)` and `j` in cell
/// `(xj, yj, zj)`: `j` is a candidate of `i` exactly if `i < j` and the two
/// cells are the same or adjacent.
pub proof fn lemma_candidate_iff_adjacent(
    grid: &Grid,
    table: Seq<Seq<usize>>,
    i: usize,
    j: usize,
    xi: int,
    yi: int,
    zi: int,
    xj: int,
    yj: int,
    zj: int,
)
    requires
        table.len() == grid.cells(),
        disjoint(table),
        grid.contains(xi, yi, zi),
        grid.contains(xj, yj, zj),
        table[grid.index(xi, yi, zi)].contains(i),
        table[grid.index(xj, yj, zj)].contains(j),
    ensures
        candidates(grid, table, i).contains(j) <==> i < j && adjacent(xi, yi, zi, xj, yj, zj),
{
    lemma_candidates_from_home(grid, table, i, xi, yi, zi);
    lemma_window_members(grid, table, 27, i, j, xi, yi, zi, xj, yj, zj);
}

/// When no particle is stored twice, no candidate list names a particle
/// twice.
pub proof fn lemma_candidates_no_duplicates(grid: &Grid, table: Seq<Seq<usize>>, i: usize)
    requires
        0 <= grid.nx(),
        0 <= grid.ny(),
        0 <= grid.nz(),
        table.len() == grid.cells(),
        disjoint(table),
    ensures
        candidates(grid, table, i).no_duplicates(),
{
    if exists|x: int, y: int, z: int|
        grid.contains(x, y, z) && #[trigger] table[grid.index(x, y, z)].contains(i) {
        let (x, y, z) = choose|x: int, y: int, z: int|
            grid.contains(x, y, z) && #[trigger] table[grid.index(x, y, z)].contains(i);
        lemma_candidates_from_home(grid, table, i, x, y, z);
        lemma_window_no_duplicates(grid, table, 27, i, x, y, z);
    } else {
        assert(only_at(grid, table, i, -1, -1, -1));
        lemma_sweep_home(grid, table, grid.nx() as nat, i, -1, -1, -1);
    }
}

/// Every unordered pair is recorded once. When no particle is stored twice
/// and two distinct particles lie in the same or in adjacent cells, the
/// larger is a candidate of the smaller, once, and the smaller is no
/// candidate of the larger.
pub proof fn lemma_pair_recorded_once(
    grid: &Grid,
    table: Seq<Seq<usize>>,
    i: usize,
    j: usize,
    xi: int,
    yi: int,
    zi: int,
    xj: int,
    yj: int,
    zj: int,
)
    requires
        table.len() == grid.cells(),
        disjoint(table),
        grid.contains(xi, yi, zi),
        grid.contains(xj, yj, zj),
        table[grid.index(xi, yi, zi)].contains(i),
        table[grid.index(xj, yj, zj)].contains(j),
        adjacent(xi, yi, zi, xj, yj, zj),
        i < j,
    ensures
        candidates(grid, table, i).contains(j),
        candidates(grid, table, i).no_duplicates(),
        !candidates(grid, table, j).contains(i),
{
    lemma_candidate_iff_adjacent(grid, table, i, j, xi, yi, zi, xj, yj, zj);
    lemma_candidate_iff_adjacent(grid, table, j, i, xj, yj, zj, xi, yi, zi);
    lemma_candidates_no_duplicates(grid, table, i);
}

/// A freshly populated table stores every particle once, under the linear
/// index of its cell, and nothing else.
pub proof fn lemma_populated_table(grid: &Grid, cells: Seq<[i32; 3]>, table: Seq<Seq<usize>>)
    requires
        populated(grid, cells, table),
        cells.len() <= usize::MAX,
        forall|i: int| 0 <= i < cells.len() ==> grid.holds(#[trigger] cells[i]),
    ensures
        disjoint(table),
        indices_below(table, cells.len() as int),
        forall|i: int|
            0 <= i < cells.len() ==> (#[trigger] table[grid.slot(cells[i])]).contains(i as usize),
{
    assert forall|c: int, k: int|
        0 <= c < table.len() && 0 <= k < table[c].len() implies #[trigger] table[c][k]
        < cells.len() && grid.slot(cells[table[c][k] as int]) == c by {
        lemma_bucket_members(grid, cells, c);
        assert(table[c].contains(table[c][k]));
    }
    assert forall|c: int, k: int, d: int, m: int|
        0 <= c < table.len() && 0 <= k < table[c].len() && 0 <= d < table.len() && 0 <= m
            < table[d].len() && #[trigger] table[c][k] == #[trigger] table[d][m] implies c == d
        && k == m by {
        lemma_bucket_members(grid, cells, c);
        if k < m {
            assert(table[c][k] < table[c][m]);
        } else if m < k {
            assert(table[c][m] < table[c][k]);
        }
    }
    assert forall|i: int| 0 <= i < cells.len() implies (#[trigger] table[grid.slot(
        cells[i],
    )]).contains(i as usize) by {
        assert(grid.holds(cells[i]));
        crate::spatial_hash::lemma_index_in_range(
            grid,
            cells[i][0] as int,
            cells[i][1] as int,
            cells[i][2] as int,
        );
        lemma_bucket_members(grid, cells, grid.slot(cells[i]));
    }
}

/// The search over a freshly populated table: `j` is a candidate of `i`
/// exactly if `i < j` and the cells of the two particles are the same or
/// adjacent, and no candidate list names a particle twice.
pub proof fn lemma_search_after_populate(
    grid: &Grid,
    cells: Seq<[i32; 3]>,
    table: Seq<Seq<usize>>,
    i: usize,
    j: usize,
)
    requires
        grid.wf(),
        populated(grid, cells, table),
        cells.len() <= usize::MAX,
        forall|k: int| 0 <= k < cells.len() ==> grid.holds(#[trigger] cells[k]),
        i < cells.len(),
        j < cells.len(),
    ensures
        candidates(grid, table, i).contains(j) <==> i < j && adjacent(
            cells[i as int][0] as int,
            cells[i as int][1] as int,
            cells[i as int][2] as int,
            cells[j as int][0] as int,
            cells[j as int][1] as int,
            cells[j as int][2] as int,
        ),
        candidates(grid, table, i).no_duplicates(),
{
    lemma_populated_table(grid, cells, table);
    let ci = cells[i as int];
    let cj = cells[j as int];
    assert(grid.holds(ci) && grid.holds(cj));
    assert(table[grid.slot(ci)].contains(i));
    assert(table[grid.slot(cj)].contains(j));
    lemma_candidate_iff_adjacent(
        grid,
        table,
        i,
        j,
        ci[0] as int,
        ci[1] as int,
        ci[2] as int,
        cj[0] as int,
        cj[1] as int,
        cj[2] as int,
    );
    lemma_candidates_no_duplicates(grid, table, i);
}

} // verus!
