//! The start of a simulation step: the grid and the neighbour lists are
//! rebuilt from the particles' current cells, and the accelerations and
//! densities are set up for accumulation.

use crate::neighbor_laws::{
    adjacent, lemma_candidates_below, lemma_populated_table, lemma_search_after_populate,
};
use crate::spatial_hash::{candidates, find_neighbors, populate_grid, populated};
use crate::state::State;
use vstd::prelude::*;

verus! {

/// The cells of particles `i` and `j` are the same or adjacent.
pub open spec fn near(cells: Seq<[i32; 3]>, i: int, j: int) -> bool {
    adjacent(
        cells[i][0] as int,
        cells[i][1] as int,
        cells[i][2] as int,
        cells[j][0] as int,
        cells[j][1] as int,
        cells[j][2] as int,
    )
}

/// Prepares a step. `cells[i]` is the grid cell of particle `i` at its
/// current position.
///
/// The buckets and the point-to-cell map are rebuilt from `cells`, and the
/// neighbour lists from the buckets: afterwards `j` is listed as a neighbour
/// of `i` exactly if `i < j` and their cells are the same or adjacent, and
/// then once. The current acceleration becomes the previous one, and the
/// current acceleration and the density become `zero`. Positions,
/// velocities and pressures stay as they are.
pub fn initialize_timestep<T: Copy>(state: &mut State<T>, cells: &Vec<[i32; 3]>, zero: T)
    requires
        old(state).wf(),
        cells@.len() == old(state).particles(),
        forall|i: int| 0 <= i < cells@.len() ==> old(state).grid.holds(#[trigger] cells@[i]),
    ensures
        final(state).wf(),
        final(state).particles() == old(state).particles(),
        final(state).grid == old(state).grid,
        final(state).offset == old(state).offset,
        final(state).x == old(state).x,
        final(state).y == old(state).y,
        final(state).z == old(state).z,
        final(state).vx == old(state).vx,
        final(state).vy == old(state).vy,
        final(state).vz == old(state).vz,
        final(state).p == old(state).p,
        final(state).ax_@ == old(state).ax@,
        final(state).ay_@ == old(state).ay@,
        final(state).az_@ == old(state).az@,
        final(state).ax@ == Seq::new(old(state).particles(), |i: int| zero),
        final(state).ay@ == Seq::new(old(state).particles(), |i: int| zero),
        final(state).az@ == Seq::new(old(state).particles(), |i: int| zero),
        final(state).rho@ == Seq::new(old(state).particles(), |i: int| zero),
        final(state).particle_mass == old(state).particle_mass,
        final(state).inv_h == old(state).inv_h,
        final(state).inv_reference_density == old(state).inv_reference_density,
        final(state).tait_b == old(state).tait_b,
        final(state).neighbor_offsets == old(state).neighbor_offsets,
        populated(&final(state).grid, cells@, final(state).cell_contents.deep_view()),
        forall|i: int|
            0 <= i < cells@.len() ==> #[trigger] final(state).point_to_cell@[i]
                == final(state).grid.slot(cells@[i]),
        forall|i: int|
            0 <= i < cells@.len() ==> (#[trigger] final(state).neighbors@[i])@ == candidates(
                &final(state).grid,
                final(state).cell_contents.deep_view(),
                i as usize,
            ),
        forall|i: int, j: usize|
            0 <= i < cells@.len() && j < cells@.len() ==> (
            #[trigger] final(state).neighbors@[i]@.contains(j) <==> i < j && near(
                cells@,
                i,
                j as int,
            )),
        forall|i: int|
            0 <= i < cells@.len() ==> (#[trigger] final(state).neighbors@[i])@.no_duplicates(),
        forall|i: int, k: int|
            0 <= i < cells@.len() && 0 <= k < final(state).neighbors@[i]@.len() ==> i
                < #[trigger] final(state).neighbors@[i]@[k] < cells@.len(),
{
    let n: usize = state.x.len();
    populate_grid(cells, &state.grid, &mut state.cell_contents, &mut state.point_to_cell, n);
    proof {
        assert(cells@.take(n as int) == cells@);
        lemma_populated_table(&state.grid, cells@, state.cell_contents.deep_view());
    }
    find_neighbors(&state.grid, &state.cell_contents, &mut state.neighbors);
    proof {
        let table = state.cell_contents.deep_view();
        assert forall|i: int, j: usize| 0 <= i < n && j < n implies (
        #[trigger] state.neighbors@[i]@.contains(j) <==> i < j && near(cells@, i, j as int)) by {
            lemma_search_after_populate(&state.grid, cells@, table, i as usize, j);
        }
        assert forall|i: int| 0 <= i < n implies (
        #[trigger] state.neighbors@[i])@.no_duplicates() by {
            lemma_search_after_populate(&state.grid, cells@, table, i as usize, i as usize);
        }
        assert forall|i: int, k: int| 0 <= i < n && 0 <= k < state.neighbors@[i]@.len() implies i
            < #[trigger] state.neighbors@[i]@[k] < n by {
            lemma_candidates_below(&state.grid, table, n as int, i as usize, k);
        }
    }
    let ghost cell_contents_after = state.cell_contents;
    let ghost point_to_cell_after = state.point_to_cell;
    let ghost neighbors_after = state.neighbors;
    let mut i: usize = 0;
    while i < n
        invariant
            i <= n,
            state.ax@.len() == n,
            state.ay@.len() == n,
            state.az@.len() == n,
            state.ax_@.len() == n,
            state.ay_@.len() == n,
            state.az_@.len() == n,
            state.rho@.len() == n,
            forall|k: int| 0 <= k < i ==> #[trigger] state.ax_@[k] == old(state).ax@[k],
            forall|k: int| 0 <= k < i ==> #[trigger] state.ay_@[k] == old(state).ay@[k],
            forall|k: int| 0 <= k < i ==> #[trigger] state.az_@[k] == old(state).az@[k],
            forall|k: int| 0 <= k < i ==> #[trigger] state.ax@[k] == zero,
            forall|k: int| 0 <= k < i ==> #[trigger] state.ay@[k] == zero,
            forall|k: int| 0 <= k < i ==> #[trigger] state.az@[k] == zero,
            forall|k: int| 0 <= k < i ==> #[trigger] state.rho@[k] == zero,
            forall|k: int| i <= k < n ==> #[trigger] state.ax@[k] == old(state).ax@[k],
            forall|k: int| i <= k < n ==> #[trigger] state.ay@[k] == old(state).ay@[k],
            forall|k: int| i <= k < n ==> #[trigger] state.az@[k] == old(state).az@[k],
            state.x == old(state).x,
            state.y == old(state).y,
            state.z == old(state).z,
            state.vx == old(state).vx,
            state.vy == old(state).vy,
            state.vz == old(state).vz,
            state.p == old(state).p,
            state.grid == old(state).grid,
            state.offset == old(state).offset,
            state.particle_mass == old(state).particle_mass,
            state.inv_h == old(state).inv_h,
            state.inv_reference_density == old(state).inv_reference_density,
            state.tait_b == old(state).tait_b,
            state.neighbor_offsets == old(state).neighbor_offsets,
            state.cell_contents == cell_contents_after,
            state.point_to_cell == point_to_cell_after,
            state.neighbors == neighbors_after,
        decreases n - i,
    {
        state.ax_[i] = state.ax[i];
        state.ay_[i] = state.ay[i];
        state.az_[i] = state.az[i];
        state.ax[i] = zero;
        state.ay[i] = zero;
        state.az[i] = zero;
        state.rho[i] = zero;
        i += 1;
    }
}

} // verus!
