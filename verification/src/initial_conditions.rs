//! Initial conditions: what a fresh state is given before its first step.
//! The grid is installed with empty buckets and neighbour lists, the table of
//! neighbour-cell offsets is derived from it, and the particles are placed
//! row by row on a lattice that is cut off once every particle has a place.

use crate::spatial_hash::Grid;
use crate::state::{empty_lists, filled, PhysicalConstants, State};
use vstd::prelude::*;

verus! {

/// Why a state cannot be initialised.
#[derive(Debug, Clone, Copy, PartialEq, Eq, Structural)]
pub enum InitError {
    /// The state holds no particle, so that no particle mass can be derived.
    NoParticles,
    /// The grid does not have three axes with one offset each, or has more
    /// cells than can be indexed.
    BadGrid,
}

/// The value of a signed offset as a machine word, in two's complement.
pub open spec fn wrapped(v: int) -> int {
    if v >= 0 {
        v
    } else {
        v + usize::MAX + 1
    }
}

/// Entry `k` of the table of neighbour-cell offsets of a grid with `nx` cells
/// along the first axis: the difference in linear index to the cell at
/// `(dx, dy)`, with `dx` varying slowest.
pub open spec fn offset_entry(nx: int, k: int) -> int {
    wrapped((k / 3 - 1) + (k % 3 - 1) * nx)
}

/// The nine differences in linear index from a cell to the cells of its
/// window in the plane of the first two axes. Negative differences are
/// stored in two's complement.
pub fn neighbor_offsets(grid: &Grid) -> (offsets: Vec<usize>)
    requires
        grid.count@.len() >= 1,
        grid.nx() <= i32::MAX,
    ensures
        offsets@.len() == 9,
        forall|k: int| 0 <= k < 9 ==> #[trigger] offsets@[k] == offset_entry(grid.nx(), k),
{
    let nx: i64 = grid.count[0] as i64;
    let mut offsets: Vec<usize> = Vec::new();
    let mut dx: i64 = -1;
    while dx <= 1
        invariant
            -1 <= dx <= 2,
            0 <= nx <= i32::MAX,
            nx == grid.nx(),
            offsets@.len() == (dx + 1) * 3,
            forall|k: int|
                0 <= k < offsets@.len() ==> #[trigger] offsets@[k] == offset_entry(nx as int, k),
        decreases 2 - dx,
    {
        let mut dy: i64 = -1;
        while dy <= 1
            invariant
                -1 <= dx <= 1,
                -1 <= dy <= 2,
                0 <= nx <= i32::MAX,
                offsets@.len() == (dx + 1) * 3 + (dy + 1),
                forall|k: int|
                    0 <= k < offsets@.len() ==> #[trigger] offsets@[k] == offset_entry(
                        nx as int,
                        k,
                    ),
            decreases 2 - dy,
        {
            assert(-(i32::MAX as int) <= dy * nx <= i32::MAX) by (nonlinear_arith)
                requires
                    -1 <= dy <= 1,
                    0 <= nx <= i32::MAX,
            ;
            let v: i64 = dx + dy * nx;
            let ghost k: int = offsets@.len() as int;
            assert(k / 3 - 1 == dx && k % 3 - 1 == dy);
            let entry: usize = if v >= 0 {
                v as usize
            } else {
                usize::MAX - ((-v - 1) as usize)
            };
            assert(entry == offset_entry(nx as int, k));
            offsets.push(entry);
            dy += 1;
        }
        dx += 1;
    }
    offsets
}

/// The places of one lattice row: columns `0..count` of row `row`.
pub open spec fn row_slots(row: usize, count: usize) -> Seq<(usize, usize)> {
    Seq::new(count as nat, |c: int| (row, c as usize))
}

/// The places of a lattice whose row `r` has `row_counts[r]` columns, as
/// `(row, column)`, row by row.
pub open spec fn lattice(row_counts: Seq<usize>) -> Seq<(usize, usize)>
    decreases row_counts.len(),
{
    if row_counts.len() == 0 {
        Seq::empty()
    } else {
        lattice(row_counts.drop_last()) + row_slots(
            (row_counts.len() - 1) as usize,
            row_counts.last(),
        )
    }
}

/// The lattice of the first rows is the start of the whole lattice.
pub proof fn lemma_lattice_prefix(row_counts: Seq<usize>, rows: int)
    requires
        0 <= rows <= row_counts.len(),
    ensures
        lattice(row_counts.take(rows)).len() <= lattice(row_counts).len(),
        lattice(row_counts.take(rows)) == lattice(row_counts).take(
            lattice(row_counts.take(rows)).len() as int,
        ),
    decreases row_counts.len(),
{
    if rows == row_counts.len() {
        assert(row_counts.take(rows) == row_counts);
    } else {
        let front = row_counts.drop_last();
        lemma_lattice_prefix(front, rows);
        assert(front.take(rows) == row_counts.take(rows));
    }
}

/// Places for `n` particles on a lattice, row by row: the first `n` places,
/// or all of them where the lattice has fewer.
pub fn wedge_slots(row_counts: &Vec<usize>, n: usize) -> (slots: Vec<(usize, usize)>)
    ensures
        slots@.len() == if n <= lattice(row_counts@).len() {
            n as nat
        } else {
            lattice(row_counts@).len()
        },
        slots@ == lattice(row_counts@).take(slots@.len() as int),
{
    let mut slots: Vec<(usize, usize)> = Vec::new();
    let mut row: usize = 0;
    while row < row_counts.len() && slots.len() < n
        invariant
            row <= row_counts@.len(),
            slots@.len() <= n,
            slots@.len() <= lattice(row_counts@.take(row as int)).len(),
            slots@ == lattice(row_counts@.take(row as int)).take(slots@.len() as int),
            slots@.len() == lattice(row_counts@.take(row as int)).len() || slots@.len() == n,
        decreases row_counts@.len() - row,
    {
        let count: usize = row_counts[row];
        let ghost base = lattice(row_counts@.take(row as int));
        let ghost this_row = row_slots(row, count);
        proof {
            assert(row_counts@.take(row + 1).drop_last() == row_counts@.take(row as int));
            assert(row_counts@.take(row + 1).last() == count);
            assert(lattice(row_counts@.take(row + 1)) == base + this_row);
            assert(slots@ == base);
        }
        let mut col: usize = 0;
        while col < count && slots.len() < n
            invariant
                col <= count,
                slots@.len() <= n,
                this_row == row_slots(row, count),
                slots@ == base + this_row.take(col as int),
            decreases count - col,
        {
            slots.push((row, col));
            proof {
                assert(this_row.take(col + 1) == this_row.take(col as int).push((row, col)));
            }
            col += 1;
        }
        proof {
            assert(slots@ == (base + this_row).take(slots@.len() as int));
        }
        row += 1;
    }
    proof {
        lemma_lattice_prefix(row_counts@, row as int);
        if row == row_counts@.len() {
            assert(row_counts@.take(row as int) == row_counts@);
        }
    }
    slots
}

/// The first `m` entries of `new` are given by `value`; the others are those
/// of `old`.
pub open spec fn placed<T>(new: Seq<T>, old: Seq<T>, m: int, value: spec_fn(int) -> T) -> bool {
    &&& new.len() == old.len()
    &&& forall|k: int|
        0 <= k < new.len() ==> #[trigger] new[k] == if k < m {
            value(k)
        } else {
            old[k]
        }
}

/// The smaller of the two.
pub open spec fn least(a: int, b: int) -> int {
    if a <= b {
        a
    } else {
        b
    }
}

/// Initialises a state: installs `grid` with its offsets and with one empty
/// bucket per cell, installs the physical constants, gives every particle
/// cell index 0 and an empty neighbour list, derives the table of
/// neighbour-cell offsets, and puts particle `k` at `positions[k]` in the
/// plane, at rest, with `zero` for its third coordinate, its accelerations,
/// its density and its pressure. Particles for which `positions` has no
/// entry stay as they are.
///
/// A state without particles is rejected, and so is a grid that is not well
/// formed or does not come with three offsets; the state is then left as it
/// is.
pub fn fill_arena<T: Copy>(
    state: &mut State<T>,
    grid: Grid,
    offset: Vec<T>,
    constants: PhysicalConstants<T>,
    positions: &Vec<(T, T)>,
    zero: T,
) -> (result: Result<(), InitError>)
    requires
        old(state).sized(),
    ensures
        result == Err::<(), InitError>(InitError::NoParticles) <==> old(state).particles() == 0,
        result == Err::<(), InitError>(InitError::BadGrid) <==> old(state).particles() > 0 && (
        !grid.wf() || offset@.len() != 3),
        result is Err ==> *final(state) == *old(state),
        result is Ok ==> {
            let n = old(state).particles();
            let m = least(n as int, positions@.len() as int);
            &&& final(state).wf()
            &&& final(state).particles() == n
            &&& final(state).grid == grid
            &&& final(state).cell_contents.deep_view() == Seq::new(
                grid.cells() as nat,
                |c: int| Seq::<usize>::empty(),
            )
            &&& final(state).point_to_cell@ == Seq::new(n, |i: int| 0usize)
            &&& final(state).neighbors.deep_view() == Seq::new(n, |i: int| Seq::<usize>::empty())
            &&& final(state).neighbor_offsets@.len() == 9
            &&& forall|k: int|
                0 <= k < 9 ==> #[trigger] final(state).neighbor_offsets@[k] == offset_entry(
                    grid.nx(),
                    k,
                )
            &&& placed(final(state).x@, old(state).x@, m, |k: int| positions@[k].0)
            &&& placed(final(state).y@, old(state).y@, m, |k: int| positions@[k].1)
            &&& placed(final(state).z@, old(state).z@, m, |k: int| zero)
            &&& placed(final(state).vx@, old(state).vx@, m, |k: int| zero)
            &&& placed(final(state).vy@, old(state).vy@, m, |k: int| zero)
            &&& placed(final(state).vz@, old(state).vz@, m, |k: int| zero)
            &&& placed(final(state).ax@, old(state).ax@, m, |k: int| zero)
            &&& placed(final(state).ay@, old(state).ay@, m, |k: int| zero)
            &&& placed(final(state).az@, old(state).az@, m, |k: int| zero)
            &&& placed(final(state).ax_@, old(state).ax_@, m, |k: int| zero)
            &&& placed(final(state).ay_@, old(state).ay_@, m, |k: int| zero)
            &&& placed(final(state).az_@, old(state).az_@, m, |k: int| zero)
            &&& placed(final(state).rho@, old(state).rho@, m, |k: int| zero)
            &&& placed(final(state).p@, old(state).p@, m, |k: int| zero)
            &&& final(state).offset == offset
            &&& final(state).particle_mass == constants.particle_mass
            &&& final(state).inv_h == constants.inv_h
            &&& final(state).inv_reference_density == constants.inv_reference_density
            &&& final(state).tait_b == constants.tait_b
        },
{
    let n: usize = state.x.len();
    if n == 0 {
        return Err(InitError::NoParticles);
    }
    let cells: usize = match grid.checked_cells() {
        None => {
            return Err(InitError::BadGrid);
        },
        Some(cells) => cells,
    };
    if offset.len() != 3 {
        return Err(InitError::BadGrid);
    }
    state.offset = offset;
    state.particle_mass = constants.particle_mass;
    state.inv_h = constants.inv_h;
    state.inv_reference_density = constants.inv_reference_density;
    state.tait_b = constants.tait_b;
    state.neighbor_offsets = neighbor_offsets(&grid);
    state.cell_contents = empty_lists(cells);
    state.point_to_cell = filled(0usize, n);
    state.neighbors = empty_lists(n);
    state.grid = grid;
    let ghost m = least(n as int, positions@.len() as int);
    let ghost cell_contents_after = state.cell_contents;
    let ghost point_to_cell_after = state.point_to_cell;
    let ghost neighbors_after = state.neighbors;
    let ghost neighbor_offsets_after = state.neighbor_offsets;
    let ghost offset_after = state.offset;
    let mut k: usize = 0;
    while k < n && k < positions.len()
        invariant
            k <= m,
            m == least(n as int, positions@.len() as int),
            n == old(state).particles(),
            state.sized(),
            state.particles() == n,
            placed(state.x@, old(state).x@, k as int, |i: int| positions@[i].0),
            placed(state.y@, old(state).y@, k as int, |i: int| positions@[i].1),
            placed(state.z@, old(state).z@, k as int, |i: int| zero),
            placed(state.vx@, old(state).vx@, k as int, |i: int| zero),
            placed(state.vy@, old(state).vy@, k as int, |i: int| zero),
            placed(state.vz@, old(state).vz@, k as int, |i: int| zero),
            placed(state.ax@, old(state).ax@, k as int, |i: int| zero),
            placed(state.ay@, old(state).ay@, k as int, |i: int| zero),
            placed(state.az@, old(state).az@, k as int, |i: int| zero),
            placed(state.ax_@, old(state).ax_@, k as int, |i: int| zero),
            placed(state.ay_@, old(state).ay_@, k as int, |i: int| zero),
            placed(state.az_@, old(state).az_@, k as int, |i: int| zero),
            placed(state.rho@, old(state).rho@, k as int, |i: int| zero),
            placed(state.p@, old(state).p@, k as int, |i: int| zero),
            state.grid == grid,
            state.cell_contents == cell_contents_after,
            state.point_to_cell == point_to_cell_after,
            state.neighbors == neighbors_after,
            state.neighbor_offsets == neighbor_offsets_after,
            state.offset == offset_after,
            state.particle_mass == constants.particle_mass,
            state.inv_h == constants.inv_h,
            state.inv_reference_density == constants.inv_reference_density,
            state.tait_b == constants.tait_b,
        decreases n - k,
    {
        let position: (T, T) = positions[k];
        state.x[k] = position.0;
        state.y[k] = position.1;
        state.z[k] = zero;
        state.vx[k] = zero;
        state.vy[k] = zero;
        state.vz[k] = zero;
        state.ax[k] = zero;
        state.ay[k] = zero;
        state.az[k] = zero;
        state.ax_[k] = zero;
        state.ay_[k] = zero;
        state.az_[k] = zero;
        state.rho[k] = zero;
        state.p[k] = zero;
        k += 1;
    }
    Ok(())
}

} // verus!
