//! Uniform spatial hash grid: linear cell indexing, bucket assignment and the
//! coarse neighbour search over the 3-wide window of adjacent cells.

use crate::constants::GRID_PADDING;
use vstd::prelude::*;

verus! {

/// Cell counts of a uniform axis-aligned grid, one entry per axis.
#[derive(Debug, Clone)]
pub struct Grid {
    pub count: Vec<usize>,
}

impl Grid {
    /// Number of cells along the first axis.
    pub open spec fn nx(&self) -> int {
        self.count@[0] as int
    }

    /// Number of cells along the second axis.
    pub open spec fn ny(&self) -> int {
        self.count@[1] as int
    }

    /// Number of cells along the third axis.
    pub open spec fn nz(&self) -> int {
        self.count@[2] as int
    }

    /// Total number of cells.
    pub open spec fn cells(&self) -> int {
        self.nx() * self.ny() * self.nz()
    }

    /// A grid has three axes, every cell coordinate fits a signed 32-bit
    /// integer, and every linear cell index fits a machine word.
    pub open spec fn wf(&self) -> bool {
        &&& self.count@.len() == 3
        &&& self.nx() <= i32::MAX
        &&& self.ny() <= i32::MAX
        &&& self.nz() <= i32::MAX
        &&& self.cells() <= usize::MAX
    }

    /// The cell coordinate lies inside the grid on every axis.
    pub open spec fn contains(&self, cx: int, cy: int, cz: int) -> bool {
        &&& 0 <= cx < self.nx()
        &&& 0 <= cy < self.ny()
        &&& 0 <= cz < self.nz()
    }

    /// Linear index of a cell: the first axis varies fastest.
    pub open spec fn index(&self, cx: int, cy: int, cz: int) -> int {
        cx + self.nx() * (cy + self.ny() * cz)
    }

    /// The coordinate triple names a cell inside the grid.
    pub open spec fn holds(&self, cell: [i32; 3]) -> bool {
        self.contains(cell[0] as int, cell[1] as int, cell[2] as int)
    }

    /// Linear index of the cell that a coordinate triple names.
    pub open spec fn slot(&self, cell: [i32; 3]) -> int {
        self.index(cell[0] as int, cell[1] as int, cell[2] as int)
    }
}

/// Every cell inside the grid has a linear index below the number of cells.
pub proof fn lemma_index_in_range(grid: &Grid, cx: int, cy: int, cz: int)
    requires
        grid.contains(cx, cy, cz),
    ensures
        0 <= cy + grid.ny() * cz < grid.ny() * grid.nz(),
        0 <= grid.index(cx, cy, cz) < grid.cells(),
{
    let nx = grid.nx();
    let ny = grid.ny();
    let nz = grid.nz();
    assert(0 <= cy + ny * cz < ny * nz) by (nonlinear_arith)
        requires
            0 <= cy < ny,
            0 <= cz < nz,
    ;
    assert(0 <= cx + nx * (cy + ny * cz) < nx * ny * nz) by (nonlinear_arith)
        requires
            0 <= cx < nx,
            0 <= cy + ny * cz < ny * nz,
    ;
}

/// Linear index of the cell `(x, y, z)`.
pub fn hash(x: i32, y: i32, z: i32, grid: &Grid) -> (index: usize)
    requires
        grid.wf(),
        grid.contains(x as int, y as int, z as int),
    ensures
        index == grid.index(x as int, y as int, z as int),
        index < grid.cells(),
{
    proof {
        let row = y + grid.ny() * z;
        lemma_index_in_range(grid, x as int, y as int, z as int);
        assert(0 <= grid.ny() * z <= row <= grid.nx() * row <= grid.cells()) by (nonlinear_arith)
            requires
                0 <= y,
                0 <= z,
                0 <= grid.ny(),
                1 <= grid.nx(),
                row == y + grid.ny() * z,
                x + grid.nx() * row < grid.cells(),
                0 <= x,
        ;
    }
    let row: usize = (y as usize) + grid.count[1] * (z as usize);
    (x as usize) + grid.count[0] * row
}

fn clear_all(lists: &mut Vec<Vec<usize>>)
    ensures
        final(lists)@.len() == old(lists)@.len(),
        forall|k: int| 0 <= k < final(lists)@.len() ==> final(lists)@[k]@ == Seq::<usize>::empty(),
{
    let n: usize = lists.len();
    let mut k: usize = 0;
    while k < n
        invariant
            k <= n,
            lists@.len() == n,
            forall|m: int| 0 <= m < k ==> lists@[m]@ == Seq::<usize>::empty(),
        decreases n - k,
    {
        lists[k].clear();
        k += 1;
    }
}

/// The particles, among those whose cells are listed in `cells`, that lie in
/// the cell with linear index `c`, by increasing particle index.
pub open spec fn bucket(grid: &Grid, cells: Seq<[i32; 3]>, c: int) -> Seq<usize>
    decreases cells.len(),
{
    if cells.len() == 0 {
        Seq::empty()
    } else {
        let rest = bucket(grid, cells.drop_last(), c);
        if grid.slot(cells.last()) == c {
            rest.push((cells.len() - 1) as usize)
        } else {
            rest
        }
    }
}

/// The table holds, for every cell of the grid, the bucket of that cell.
pub open spec fn populated(grid: &Grid, cells: Seq<[i32; 3]>, table: Seq<Seq<usize>>) -> bool {
    &&& table.len() == grid.cells()
    &&& forall|c: int| 0 <= c < table.len() ==> #[trigger] table[c] == bucket(grid, cells, c)
}

/// A bucket lists exactly the particles of its cell, each once, in strictly
/// increasing order.
pub proof fn lemma_bucket_members(grid: &Grid, cells: Seq<[i32; 3]>, c: int)
    requires
        cells.len() <= usize::MAX,
    ensures
        forall|i: usize|
            bucket(grid, cells, c).contains(i) <==> i < cells.len() && grid.slot(cells[i as int])
                == c,
        forall|k: int, m: int|
            0 <= k < m < bucket(grid, cells, c).len() ==> bucket(grid, cells, c)[k] < bucket(
                grid,
                cells,
                c,
            )[m],
    decreases cells.len(),
{
    let b = bucket(grid, cells, c);
    if cells.len() > 0 {
        let rest = bucket(grid, cells.drop_last(), c);
        let last = (cells.len() - 1) as usize;
        lemma_bucket_members(grid, cells.drop_last(), c);
        assert forall|k: int| 0 <= k < rest.len() implies rest[k] < last by {
            assert(rest.contains(rest[k]));
        }
        assert forall|i: usize|
            b.contains(i) <==> i < cells.len() && grid.slot(cells[i as int]) == c by {
            if grid.slot(cells.last()) == c {
                assert(b == rest.push(last));
                assert(b[rest.len() as int] == last);
                if b.contains(i) {
                    let k = choose|k: int| 0 <= k < b.len() && b[k] == i;
                    if k < rest.len() {
                        assert(rest.contains(rest[k]));
                    }
                }
                if i < cells.len() && grid.slot(cells[i as int]) == c {
                    if i == last {
                        assert(b[rest.len() as int] == i);
                    } else {
                        assert(rest.contains(i));
                        let k = choose|k: int| 0 <= k < rest.len() && rest[k] == i;
                        assert(b[k] == i);
                    }
                }
            } else {
                assert(b == rest);
            }
        }
    }
}

/// Rebuilds the cell buckets from scratch: empties every bucket, then files
/// each of the first `num_particles` particles under the linear index of its
/// cell and records that index in `grid_map`.
pub fn populate_grid(
    cells: &Vec<[i32; 3]>,
    grid: &Grid,
    contents: &mut Vec<Vec<usize>>,
    grid_map: &mut Vec<usize>,
    num_particles: usize,
)
    requires
        grid.wf(),
        old(contents)@.len() == grid.cells(),
        num_particles <= cells@.len(),
        num_particles <= old(grid_map)@.len(),
        forall|i: int| 0 <= i < num_particles ==> grid.holds(#[trigger] cells@[i]),
    ensures
        populated(grid, cells@.take(num_particles as int), final(contents).deep_view()),
        final(grid_map)@.len() == old(grid_map)@.len(),
        forall|i: int|
            0 <= i < num_particles ==> #[trigger] final(grid_map)@[i] == grid.slot(cells@[i]),
        forall|i: int|
            num_particles <= i < old(grid_map)@.len() ==> #[trigger] final(grid_map)@[i] == old(
                grid_map,
            )@[i],
{
    clear_all(contents);
    let mut i: usize = 0;
    while i < num_particles
        invariant
            grid.wf(),
            contents@.len() == grid.cells(),
            i <= num_particles <= cells@.len(),
            grid_map@.len() == old(grid_map)@.len(),
            num_particles <= grid_map@.len(),
            forall|k: int| 0 <= k < num_particles ==> grid.holds(#[trigger] cells@[k]),
            forall|c: int|
                0 <= c < grid.cells() ==> (#[trigger] contents@[c])@ == bucket(
                    grid,
                    cells@.take(i as int),
                    c,
                ),
            forall|k: int| 0 <= k < i ==> #[trigger] grid_map@[k] == grid.slot(cells@[k]),
            forall|k: int|
                i <= k < grid_map@.len() ==> #[trigger] grid_map@[k] == old(grid_map)@[k],
        decreases num_particles - i,
    {
        let cell: [i32; 3] = cells[i];
        assert(grid.holds(cells@[i as int]));
        let cell_index: usize = hash(cell[0], cell[1], cell[2], grid);
        contents[cell_index].push(i);
        grid_map[i] = cell_index;
        proof {
            let before = cells@.take(i as int);
            let after = cells@.take(i + 1);
            assert(after.drop_last() == before);
            assert(after.last() == cells@[i as int]);
        }
        i += 1;
    }
    proof {
        let table = contents.deep_view();
        assert forall|c: int| 0 <= c < table.len() implies #[trigger] table[c] == bucket(
            grid,
            cells@.take(num_particles as int),
            c,
        ) by {
            assert(table[c] == contents@[c]@);
        }
    }
}

/// The entries of `list` that are greater than `i`, in their order.
pub open spec fn above(list: Seq<usize>, i: usize) -> Seq<usize>
    decreases list.len(),
{
    if list.len() == 0 {
        Seq::empty()
    } else if i < list.last() {
        above(list.drop_last(), i).push(list.last())
    } else {
        above(list.drop_last(), i)
    }
}

/// What pairing the source bucket `src` with the target bucket `dst` adds to
/// the candidate list of particle `i`: the entries of `dst` above `i`, once
/// for every occurrence of `i` in `src`.
pub open spec fn links(src: Seq<usize>, dst: Seq<usize>, i: usize) -> Seq<usize>
    decreases src.len(),
{
    if src.len() == 0 {
        Seq::empty()
    } else if src.last() == i {
        links(src.drop_last(), dst, i) + above(dst, i)
    } else {
        links(src.drop_last(), dst, i)
    }
}

/// Offset along the first axis of the `w`-th cell of a 27-cell window.
pub open spec fn window_dx(w: int) -> int {
    w / 9 - 1
}

/// Offset along the second axis of the `w`-th cell of a 27-cell window.
pub open spec fn window_dy(w: int) -> int {
    (w / 3) % 3 - 1
}

/// Offset along the third axis of the `w`-th cell of a 27-cell window.
pub open spec fn window_dz(w: int) -> int {
    w % 3 - 1
}

/// What the source cell `(x, y, z)` adds to the candidate list of particle
/// `i` from the first `w` cells of its window. The window is walked with the
/// first axis slowest; cells outside the grid are skipped, not wrapped.
pub open spec fn window(
    grid: &Grid,
    table: Seq<Seq<usize>>,
    x: int,
    y: int,
    z: int,
    w: nat,
    i: usize,
) -> Seq<usize>
    decreases w,
{
    if w == 0 {
        Seq::empty()
    } else {
        let r = w - 1;
        let tx = x + window_dx(r);
        let ty = y + window_dy(r);
        let tz = z + window_dz(r);
        let earlier = window(grid, table, x, y, z, r as nat, i);
        if grid.contains(tx, ty, tz) {
            earlier + links(table[grid.index(x, y, z)], table[grid.index(tx, ty, tz)], i)
        } else {
            earlier
        }
    }
}

/// Contribution of the source cells `(x, y, 0..zs)`.
pub open spec fn column(
    grid: &Grid,
    table: Seq<Seq<usize>>,
    x: int,
    y: int,
    zs: nat,
    i: usize,
) -> Seq<usize>
    decreases zs,
{
    if zs == 0 {
        Seq::empty()
    } else {
        column(grid, table, x, y, (zs - 1) as nat, i) + window(grid, table, x, y, zs - 1, 27, i)
    }
}

/// Contribution of the source cells `(x, 0..ys, *)`.
pub open spec fn slab(grid: &Grid, table: Seq<Seq<usize>>, x: int, ys: nat, i: usize) -> Seq<
    usize,
>
    decreases ys,
{
    if ys == 0 {
        Seq::empty()
    } else {
        slab(grid, table, x, (ys - 1) as nat, i) + column(
            grid,
            table,
            x,
            ys - 1,
            grid.nz() as nat,
            i,
        )
    }
}

/// Contribution of the source cells `(0..xs, *, *)`.
pub open spec fn sweep(grid: &Grid, table: Seq<Seq<usize>>, xs: nat, i: usize) -> Seq<usize>
    decreases xs,
{
    if xs == 0 {
        Seq::empty()
    } else {
        sweep(grid, table, (xs - 1) as nat, i) + slab(grid, table, xs - 1, grid.ny() as nat, i)
    }
}

/// The candidate neighbours of particle `i`: source cells are visited with
/// the first axis slowest and the third fastest, each paired with the cells
/// of its window in turn, and every pairing adds the target's particles
/// above `i` if the source cell holds `i`.
pub open spec fn candidates(grid: &Grid, table: Seq<Seq<usize>>, i: usize) -> Seq<usize> {
    sweep(grid, table, grid.nx() as nat, i)
}

/// Every particle index stored in the table is below `n`.
pub open spec fn indices_below(table: Seq<Seq<usize>>, n: int) -> bool {
    forall|c: int, k: int|
        0 <= c < table.len() && 0 <= k < table[c].len() ==> #[trigger] table[c][k] < n
}

fn link_cells(src: &Vec<usize>, dst: &Vec<usize>, neighbors: &mut Vec<Vec<usize>>)
    requires
        forall|k: int| 0 <= k < src@.len() ==> #[trigger] src@[k] < old(neighbors)@.len(),
    ensures
        final(neighbors)@.len() == old(neighbors)@.len(),
        forall|i: int|
            0 <= i < old(neighbors)@.len() ==> (#[trigger] final(neighbors)@[i])@ == old(
                neighbors,
            )@[i]@ + links(src@, dst@, i as usize),
{
    let ghost entry = neighbors@;
    let n: usize = neighbors.len();
    let mut a: usize = 0;
    while a < src.len()
        invariant
            a <= src@.len(),
            n == entry.len(),
            neighbors@.len() == entry.len(),
            forall|k: int| 0 <= k < src@.len() ==> #[trigger] src@[k] < entry.len(),
            forall|i: int|
                0 <= i < entry.len() ==> (#[trigger] neighbors@[i])@ == entry[i]@ + links(
                    src@.take(a as int),
                    dst@,
                    i as usize,
                ),
        decreases src@.len() - a,
    {
        let p: usize = src[a];
        let ghost mid = neighbors@;
        let mut b: usize = 0;
        while b < dst.len()
            invariant
                b <= dst@.len(),
                p < entry.len(),
                n == entry.len(),
                neighbors@.len() == entry.len(),
                mid.len() == entry.len(),
                forall|i: int|
                    0 <= i < entry.len() && i != p ==> #[trigger] neighbors@[i] == mid[i],
                neighbors@[p as int]@ == mid[p as int]@ + above(dst@.take(b as int), p),
            decreases dst@.len() - b,
        {
            let q: usize = dst[b];
            if p < q {
                neighbors[p].push(q);
            }
            proof {
                assert(dst@.take(b + 1).drop_last() == dst@.take(b as int));
                assert(dst@.take(b + 1).last() == q);
            }
            b += 1;
        }
        proof {
            assert(dst@.take(dst@.len() as int) == dst@);
            assert(src@.take(a + 1).drop_last() == src@.take(a as int));
            assert(src@.take(a + 1).last() == p);
            assert forall|i: int| 0 <= i < entry.len() implies (#[trigger] neighbors@[i])@
                == entry[i]@ + links(src@.take(a + 1), dst@, i as usize) by {
                if i == p {
                    assert(neighbors@[i]@ == entry[i]@ + (links(src@.take(a as int), dst@, p)
                        + above(dst@, p)));
                } else {
                    assert(neighbors@[i] == mid[i]);
                    assert(i as usize != p);
                    assert(links(src@.take(a + 1), dst@, i as usize) == links(
                        src@.take(a as int),
                        dst@,
                        i as usize,
                    ));
                }
            }
        }
        a += 1;
    }
    proof {
        assert(src@.take(src@.len() as int) == src@);
    }
}

fn link_window(
    grid: &Grid,
    contents: &Vec<Vec<usize>>,
    x: i32,
    y: i32,
    z: i32,
    neighbors: &mut Vec<Vec<usize>>,
)
    requires
        grid.wf(),
        contents@.len() == grid.cells(),
        grid.contains(x as int, y as int, z as int),
        indices_below(contents.deep_view(), old(neighbors)@.len() as int),
    ensures
        final(neighbors)@.len() == old(neighbors)@.len(),
        forall|i: int|
            0 <= i < old(neighbors)@.len() ==> (#[trigger] final(neighbors)@[i])@ == old(
                neighbors,
            )@[i]@ + window(
                grid,
                contents.deep_view(),
                x as int,
                y as int,
                z as int,
                27,
                i as usize,
            ),
{
    let ghost entry = neighbors@;
    let ghost table = contents.deep_view();
    let n: usize = neighbors.len();
    let cell_index: usize = hash(x, y, z, grid);
    let mut dx: i32 = -1;
    while dx <= 1
        invariant
            -1 <= dx <= 2,
            grid.wf(),
            contents@.len() == grid.cells(),
            table == contents.deep_view(),
            grid.contains(x as int, y as int, z as int),
            cell_index == grid.index(x as int, y as int, z as int),
            cell_index < grid.cells(),
            indices_below(table, n as int),
            n == entry.len(),
            neighbors@.len() == n,
            forall|i: int|
                0 <= i < n ==> (#[trigger] neighbors@[i])@ == entry[i]@ + window(
                    grid,
                    table,
                    x as int,
                    y as int,
                    z as int,
                    ((dx + 1) * 9) as nat,
                    i as usize,
                ),
        decreases 2 - dx,
    {
        let mut dy: i32 = -1;
        while dy <= 1
            invariant
                -1 <= dx <= 1,
                -1 <= dy <= 2,
                grid.wf(),
                contents@.len() == grid.cells(),
                table == contents.deep_view(),
                grid.contains(x as int, y as int, z as int),
                cell_index == grid.index(x as int, y as int, z as int),
                cell_index < grid.cells(),
                indices_below(table, n as int),
                n == entry.len(),
                neighbors@.len() == n,
                forall|i: int|
                    0 <= i < n ==> (#[trigger] neighbors@[i])@ == entry[i]@ + window(
                        grid,
                        table,
                        x as int,
                        y as int,
                        z as int,
                        ((dx + 1) * 9 + (dy + 1) * 3) as nat,
                        i as usize,
                    ),
            decreases 2 - dy,
        {
            let mut dz: i32 = -1;
            while dz <= 1
                invariant
                    -1 <= dx <= 1,
                    -1 <= dy <= 1,
                    -1 <= dz <= 2,
                    grid.wf(),
                    contents@.len() == grid.cells(),
                    table == contents.deep_view(),
                    grid.contains(x as int, y as int, z as int),
                    cell_index == grid.index(x as int, y as int, z as int),
                    cell_index < grid.cells(),
                    indices_below(table, n as int),
                    n == entry.len(),
                    neighbors@.len() == n,
                    forall|i: int|
                        0 <= i < n ==> (#[trigger] neighbors@[i])@ == entry[i]@ + window(
                            grid,
                            table,
                            x as int,
                            y as int,
                            z as int,
                            ((dx + 1) * 9 + (dy + 1) * 3 + (dz + 1)) as nat,
                            i as usize,
                        ),
                decreases 2 - dz,
            {
                let tx: i32 = x + dx;
                let ty: i32 = y + dy;
                let tz: i32 = z + dz;
                let ghost rank: int = (dx + 1) * 9 + (dy + 1) * 3 + (dz + 1);
                let ghost before = neighbors@;
                assert(window_dx(rank) == dx && window_dy(rank) == dy && window_dz(rank) == dz);
                if tx >= 0 && tx < grid.count[0] as i32 && ty >= 0 && ty < grid.count[1] as i32
                    && tz >= 0 && tz < grid.count[2] as i32 {
                    let neighbor_cell_index: usize = hash(tx, ty, tz, grid);
                    let cell_points = &contents[cell_index];
                    let neighbor_points = &contents[neighbor_cell_index];
                    assert(table[cell_index as int] == cell_points@);
                    assert(table[neighbor_cell_index as int] == neighbor_points@);
                    assert forall|k: int| 0 <= k < cell_points@.len() implies
                        #[trigger] cell_points@[k] < n by {
                        assert(table[cell_index as int][k] < n);
                    }
                    link_cells(cell_points, neighbor_points, neighbors);
                }
                proof {
                    assert forall|i: int| 0 <= i < n implies (#[trigger] neighbors@[i])@
                        == entry[i]@ + window(
                        grid,
                        table,
                        x as int,
                        y as int,
                        z as int,
                        (rank + 1) as nat,
                        i as usize,
                    ) by {
                        let earlier = window(
                            grid,
                            table,
                            x as int,
                            y as int,
                            z as int,
                            rank as nat,
                            i as usize,
                        );
                        assert(before[i]@ == entry[i]@ + earlier);
                        if grid.contains(tx as int, ty as int, tz as int) {
                            let added = links(
                                table[grid.index(x as int, y as int, z as int)],
                                table[grid.index(tx as int, ty as int, tz as int)],
                                i as usize,
                            );
                            assert(neighbors@[i]@ == before[i]@ + added);
                            assert(neighbors@[i]@ == entry[i]@ + (earlier + added));
                        }
                    }
                }
                dz += 1;
            }
            dy += 1;
        }
        dx += 1;
    }
}

/// Rebuilds the candidate neighbour lists: empties every list, then visits
/// every cell and, for every cell of its clamped 3-wide window, records
/// `j` as a candidate of `i` for each `i` in the cell and `j` in the window
/// cell with `i < j`.
pub fn find_neighbors(grid: &Grid, contents: &Vec<Vec<usize>>, neighbors: &mut Vec<Vec<usize>>)
    requires
        grid.wf(),
        contents@.len() == grid.cells(),
        indices_below(contents.deep_view(), old(neighbors)@.len() as int),
    ensures
        final(neighbors)@.len() == old(neighbors)@.len(),
        forall|i: int|
            0 <= i < old(neighbors)@.len() ==> (#[trigger] final(neighbors)@[i])@ == candidates(
                grid,
                contents.deep_view(),
                i as usize,
            ),
{
    let ghost table = contents.deep_view();
    clear_all(neighbors);
    let n: usize = neighbors.len();
    let count_x: i32 = grid.count[0] as i32;
    let count_y: i32 = grid.count[1] as i32;
    let count_z: i32 = grid.count[2] as i32;
    let mut x: i32 = 0;
    while x < count_x
        invariant
            0 <= x <= count_x,
            grid.wf(),
            count_x == grid.nx(),
            count_y == grid.ny(),
            count_z == grid.nz(),
            contents@.len() == grid.cells(),
            table == contents.deep_view(),
            indices_below(table, n as int),
            neighbors@.len() == n,
            forall|i: int|
                0 <= i < n ==> (#[trigger] neighbors@[i])@ == sweep(
                    grid,
                    table,
                    x as nat,
                    i as usize,
                ),
        decreases count_x - x,
    {
        let mut y: i32 = 0;
        while y < count_y
            invariant
                0 <= x < count_x,
                0 <= y <= count_y,
                grid.wf(),
                count_x == grid.nx(),
                count_y == grid.ny(),
                count_z == grid.nz(),
                contents@.len() == grid.cells(),
                table == contents.deep_view(),
                indices_below(table, n as int),
                neighbors@.len() == n,
                forall|i: int|
                    0 <= i < n ==> (#[trigger] neighbors@[i])@ == sweep(
                        grid,
                        table,
                        x as nat,
                        i as usize,
                    ) + slab(grid, table, x as int, y as nat, i as usize),
            decreases count_y - y,
        {
            let mut z: i32 = 0;
            while z < count_z
                invariant
                    0 <= x < count_x,
                    0 <= y < count_y,
                    0 <= z <= count_z,
                    grid.wf(),
                    count_x == grid.nx(),
                    count_y == grid.ny(),
                    count_z == grid.nz(),
                    contents@.len() == grid.cells(),
                    table == contents.deep_view(),
                    indices_below(table, n as int),
                    neighbors@.len() == n,
                    forall|i: int|
                        0 <= i < n ==> (#[trigger] neighbors@[i])@ == sweep(
                            grid,
                            table,
                            x as nat,
                            i as usize,
                        ) + slab(grid, table, x as int, y as nat, i as usize) + column(
                            grid,
                            table,
                            x as int,
                            y as int,
                            z as nat,
                            i as usize,
                        ),
                decreases count_z - z,
            {
                let ghost before = neighbors@;
                link_window(grid, contents, x, y, z, neighbors);
                proof {
                    assert forall|i: int| 0 <= i < n implies (#[trigger] neighbors@[i])@ == sweep(
                        grid,
                        table,
                        x as nat,
                        i as usize,
                    ) + slab(grid, table, x as int, y as nat, i as usize) + column(
                        grid,
                        table,
                        x as int,
                        y as int,
                        (z + 1) as nat,
                        i as usize,
                    ) by {
                        let a = sweep(grid, table, x as nat, i as usize);
                        let b = slab(grid, table, x as int, y as nat, i as usize);
                        let c = column(grid, table, x as int, y as int, z as nat, i as usize);
                        let d = window(grid, table, x as int, y as int, z as int, 27, i as usize);
                        assert(before[i]@ == a + b + c);
                        assert(neighbors@[i]@ == before[i]@ + d);
                        assert(neighbors@[i]@ == a + b + (c + d));
                    }
                }
                z += 1;
            }
            proof {
                assert forall|i: int| 0 <= i < n implies (#[trigger] neighbors@[i])@ == sweep(
                    grid,
                    table,
                    x as nat,
                    i as usize,
                ) + slab(grid, table, x as int, (y + 1) as nat, i as usize) by {
                    let a = sweep(grid, table, x as nat, i as usize);
                    let b = slab(grid, table, x as int, y as nat, i as usize);
                    let c = column(grid, table, x as int, y as int, grid.nz() as nat, i as usize);
                    assert(neighbors@[i]@ == a + b + c);
                    assert(neighbors@[i]@ == a + (b + c));
                }
            }
            y += 1;
        }
        proof {
            assert forall|i: int| 0 <= i < n implies (#[trigger] neighbors@[i])@ == sweep(
                grid,
                table,
                (x + 1) as nat,
                i as usize,
            ) by {
                let a = sweep(grid, table, x as nat, i as usize);
                let b = slab(grid, table, x as int, grid.ny() as nat, i as usize);
                assert(neighbors@[i]@ == a + b);
            }
        }
        x += 1;
    }
}

impl Grid {
    /// The grid over axes whose extents span `spans[d]` cells: three cells
    /// more on every axis, so that the grid reaches beyond the extent on both
    /// sides.
    pub fn padded(spans: &Vec<usize>) -> (grid: Grid)
        requires
            forall|d: int|
                0 <= d < spans@.len() ==> #[trigger] spans@[d] + GRID_PADDING <= usize::MAX,
        ensures
            grid.count@.len() == spans@.len(),
            forall|d: int|
                0 <= d < spans@.len() ==> #[trigger] grid.count@[d] == spans@[d] + GRID_PADDING,
    {
        let mut count: Vec<usize> = Vec::new();
        let mut d: usize = 0;
        while d < spans.len()
            invariant
                d <= spans@.len(),
                count@.len() == d,
                forall|k: int|
                    0 <= k < spans@.len() ==> #[trigger] spans@[k] + GRID_PADDING <= usize::MAX,
                forall|k: int| 0 <= k < d ==> #[trigger] count@[k] == spans@[k] + GRID_PADDING,
            decreases spans@.len() - d,
        {
            count.push(spans[d] + GRID_PADDING);
            d += 1;
        }
        Grid { count }
    }

    /// The number of cells, if the grid is well formed; `None` if it is not.
    pub fn checked_cells(&self) -> (cells: Option<usize>)
        ensures
            cells is Some <==> self.wf(),
            cells is Some ==> cells->0 == self.cells(),
    {
        if self.count.len() != 3 {
            return None;
        }
        let nx: usize = self.count[0];
        let ny: usize = self.count[1];
        let nz: usize = self.count[2];
        if nx > 0x7fff_ffff || ny > 0x7fff_ffff || nz > 0x7fff_ffff {
            return None;
        }
        match nx.checked_mul(ny) {
            None => {
                proof {
                    lemma_product_exceeds(nx as int, ny as int, nz as int);
                }
                if nz == 0 {
                    Some(0)
                } else {
                    None
                }
            },
            Some(area) => {
                assert(area * nz == self.cells()) by (nonlinear_arith)
                    requires
                        area == nx * ny,
                        self.cells() == nx * ny * nz,
                ;
                area.checked_mul(nz)
            },
        }
    }

    /// Whether the coordinate triple names a cell inside the grid.
    pub fn holds_cell(&self, cell: &[i32; 3]) -> (inside: bool)
        requires
            self.wf(),
        ensures
            inside == self.holds(*cell),
    {
        0 <= cell[0] && cell[0] < self.count[0] as i32 && 0 <= cell[1] && cell[1]
            < self.count[1] as i32 && 0 <= cell[2] && cell[2] < self.count[2] as i32
    }
}

proof fn lemma_product_exceeds(nx: int, ny: int, nz: int)
    requires
        0 <= nx,
        0 <= ny,
        0 <= nz,
    ensures
        nz == 0 ==> nx * ny * nz == 0,
        nz > 0 ==> nx * ny * nz >= nx * ny,
{
    assert(0 <= nx * ny) by (nonlinear_arith)
        requires
            0 <= nx,
            0 <= ny,
    ;
    assert(nz == 0 ==> nx * ny * nz == 0) by (nonlinear_arith);
    assert(nz > 0 ==> nx * ny * nz >= nx * ny) by (nonlinear_arith)
        requires
            0 <= nx * ny,
            0 <= nz,
    ;
}

/// Whether every particle index stored in the buckets is below `n`.
pub fn indices_in_range(contents: &Vec<Vec<usize>>, n: usize) -> (ok: bool)
    ensures
        ok == indices_below(contents.deep_view(), n as int),
{
    let ghost table = contents.deep_view();
    let mut c: usize = 0;
    while c < contents.len()
        invariant
            c <= contents@.len(),
            table == contents.deep_view(),
            forall|d: int, k: int|
                0 <= d < c && 0 <= k < table[d].len() ==> #[trigger] table[d][k] < n,
        decreases contents@.len() - c,
    {
        let list = &contents[c];
        assert(table[c as int] == list@);
        let mut k: usize = 0;
        while k < list.len()
            invariant
                k <= list@.len(),
                c < table.len(),
                table[c as int] == list@,
                table == contents.deep_view(),
                forall|m: int| 0 <= m < k ==> #[trigger] list@[m] < n,
            decreases list@.len() - k,
        {
            if list[k] >= n {
                assert(!(table[c as int][k as int] < n));
                return false;
            }
            k += 1;
        }
        c += 1;
    }
    true
}

} // verus!
