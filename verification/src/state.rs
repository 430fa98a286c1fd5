//! Particle state in structure-of-arrays layout, with the bookkeeping of the
//! spatial hash grid. The scalar type of the physical quantities is a
//! parameter: this module moves such values and never computes with them.

use crate::initial_conditions::{fill_arena, least, offset_entry, InitError};
use crate::spatial_hash::Grid;
use vstd::prelude::*;

verus! {

/// The physical constants that are derived once, when a state is created.
#[derive(Debug, Clone, Copy)]
pub struct PhysicalConstants<T> {
    pub particle_mass: T,
    pub inv_h: T,
    pub inv_reference_density: T,
    pub tait_b: T,
}

/// Everything the simulation owns: one array per per-particle quantity, all
/// of one length, the grid with its buckets and neighbour lists, and the
/// physical constants derived at initialisation.
pub struct State<T> {
    pub x: Vec<T>,
    pub y: Vec<T>,
    pub z: Vec<T>,
    pub vx: Vec<T>,
    pub vy: Vec<T>,
    pub vz: Vec<T>,
    pub ax: Vec<T>,
    pub ay: Vec<T>,
    pub az: Vec<T>,
    pub ax_: Vec<T>,
    pub ay_: Vec<T>,
    pub az_: Vec<T>,
    pub rho: Vec<T>,
    pub p: Vec<T>,
    pub grid: Grid,
    pub offset: Vec<T>,
    pub cell_contents: Vec<Vec<usize>>,
    pub point_to_cell: Vec<usize>,
    pub neighbors: Vec<Vec<usize>>,
    pub particle_mass: T,
    pub inv_h: T,
    pub neighbor_offsets: Vec<usize>,
    pub inv_reference_density: T,
    pub tait_b: T,
}

/// `n` copies of `value`.
pub(crate) fn filled<T: Copy>(value: T, n: usize) -> (v: Vec<T>)
    ensures
        v@ == Seq::new(n as nat, |i: int| value),
{
    let mut v: Vec<T> = Vec::new();
    let mut i: usize = 0;
    while i < n
        invariant
            i <= n,
            v@ == Seq::new(i as nat, |k: int| value),
        decreases n - i,
    {
        v.push(value);
        i += 1;
    }
    v
}

/// `n` empty lists.
pub(crate) fn empty_lists(n: usize) -> (v: Vec<Vec<usize>>)
    ensures
        v@.len() == n,
        v.deep_view() == Seq::new(n as nat, |i: int| Seq::<usize>::empty()),
{
    let mut v: Vec<Vec<usize>> = Vec::new();
    let mut i: usize = 0;
    while i < n
        invariant
            i <= n,
            v@.len() == i,
            forall|k: int| 0 <= k < i ==> (#[trigger] v@[k])@ == Seq::<usize>::empty(),
        decreases n - i,
    {
        v.push(Vec::new());
        i += 1;
    }
    proof {
        let expected = Seq::new(n as nat, |i: int| Seq::<usize>::empty());
        assert(v.deep_view().len() == expected.len());
        assert forall|k: int| 0 <= k < n implies v.deep_view()[k] == expected[k] by {
            assert(v.deep_view()[k] == v@[k]@);
        }
        assert(v.deep_view() =~= expected);
    }
    v
}

fn append_copy<T: Copy>(buffer: &mut Vec<T>, block: &Vec<T>)
    ensures
        final(buffer)@ == old(buffer)@ + block@,
{
    let ghost start = buffer@;
    let mut i: usize = 0;
    while i < block.len()
        invariant
            i <= block@.len(),
            buffer@ == start + block@.take(i as int),
        decreases block@.len() - i,
    {
        buffer.push(block[i]);
        proof {
            assert(block@.take(i + 1) == block@.take(i as int).push(block@[i as int]));
        }
        i += 1;
    }
    proof {
        assert(block@.take(block@.len() as int) == block@);
    }
}

impl<T: Copy> State<T> {
    /// Number of particles.
    pub open spec fn particles(&self) -> nat {
        self.x@.len()
    }

    /// Every per-particle array has one entry per particle, and all of them
    /// together fit one buffer.
    pub open spec fn sized(&self) -> bool {
        let n = self.particles();
        &&& self.y@.len() == n
        &&& self.z@.len() == n
        &&& self.vx@.len() == n
        &&& self.vy@.len() == n
        &&& self.vz@.len() == n
        &&& self.ax@.len() == n
        &&& self.ay@.len() == n
        &&& self.az@.len() == n
        &&& self.ax_@.len() == n
        &&& self.ay_@.len() == n
        &&& self.az_@.len() == n
        &&& self.rho@.len() == n
        &&& self.p@.len() == n
        &&& n * 14 <= usize::MAX
    }

    /// The arrays are sized, the grid is well formed and has one offset per
    /// axis, there is one bucket per grid cell, and one cell index and one
    /// neighbour list per particle.
    pub open spec fn wf(&self) -> bool {
        &&& self.sized()
        &&& self.grid.wf()
        &&& self.offset@.len() == 3
        &&& self.cell_contents@.len() == self.grid.cells()
        &&& self.point_to_cell@.len() == self.particles()
        &&& self.neighbors@.len() == self.particles()
    }

    /// Storage for `n` particles that is not yet ready to be stepped: every
    /// per-particle quantity and every physical constant is `zero`, the grid
    /// has no axes and no buckets, and every particle has cell index 0 and
    /// an empty neighbour list.
    pub fn blank(n: usize, zero: T) -> (state: Self)
        requires
            n * 14 <= usize::MAX,
        ensures
            state.sized(),
            state.particles() == n,
            state.layout() == Seq::new((14 * n) as nat, |i: int| zero),
            state.grid.count@.len() == 0,
            state.offset@.len() == 0,
            state.cell_contents@.len() == 0,
            state.point_to_cell@ == Seq::new(n as nat, |i: int| 0usize),
            state.neighbors.deep_view() == Seq::new(n as nat, |i: int| Seq::<usize>::empty()),
            state.neighbor_offsets@.len() == 0,
            state.particle_mass == zero,
            state.inv_h == zero,
            state.inv_reference_density == zero,
            state.tait_b == zero,
    {
        let state = State {
            x: filled(zero, n),
            y: filled(zero, n),
            z: filled(zero, n),
            vx: filled(zero, n),
            vy: filled(zero, n),
            vz: filled(zero, n),
            ax: filled(zero, n),
            ay: filled(zero, n),
            az: filled(zero, n),
            ax_: filled(zero, n),
            ay_: filled(zero, n),
            az_: filled(zero, n),
            rho: filled(zero, n),
            p: filled(zero, n),
            grid: Grid { count: Vec::new() },
            offset: Vec::new(),
            cell_contents: Vec::new(),
            point_to_cell: filled(0usize, n),
            neighbors: empty_lists(n),
            particle_mass: zero,
            inv_h: zero,
            neighbor_offsets: Vec::new(),
            inv_reference_density: zero,
            tait_b: zero,
        };
        assert(state.layout() =~= Seq::new((14 * n) as nat, |i: int| zero));
        state
    }

    /// A state of `n` particles that is ready to be stepped.
    ///
    /// The grid is installed with its offsets, with one empty bucket per
    /// cell and with the table of neighbour-cell offsets; the physical
    /// constants are installed; every particle has cell index 0 and an empty
    /// neighbour list. Particle `k` is at `positions[k]` in the plane; a
    /// particle for which `positions` has no entry is at `zero`. Every other
    /// per-particle quantity is `zero`.
    ///
    /// A state without particles is rejected, and so is a grid that is not
    /// well formed or does not come with three offsets.
    pub fn new(
        n: usize,
        zero: T,
        grid: Grid,
        offset: Vec<T>,
        constants: PhysicalConstants<T>,
        positions: &Vec<(T, T)>,
    ) -> (result: Result<State<T>, InitError>)
        requires
            n * 14 <= usize::MAX,
        ensures
            result is Err <==> n == 0 || !grid.wf() || offset@.len() != 3,
            result is Err ==> (result->Err_0 == InitError::NoParticles <==> n == 0),
            result is Err ==> (result->Err_0 == InitError::BadGrid <==> n != 0),
            result is Ok ==> {
                let state = result->Ok_0;
                let m = least(n as int, positions@.len() as int);
                &&& state.wf()
                &&& state.particles() == n
                &&& state.grid == grid
                &&& state.offset == offset
                &&& state.particle_mass == constants.particle_mass
                &&& state.inv_h == constants.inv_h
                &&& state.inv_reference_density == constants.inv_reference_density
                &&& state.tait_b == constants.tait_b
                &&& state.cell_contents.deep_view() == Seq::new(
                    grid.cells() as nat,
                    |c: int| Seq::<usize>::empty(),
                )
                &&& state.point_to_cell@ == Seq::new(n as nat, |i: int| 0usize)
                &&& state.neighbors.deep_view() == Seq::new(
                    n as nat,
                    |i: int| Seq::<usize>::empty(),
                )
                &&& state.neighbor_offsets@.len() == 9
                &&& forall|k: int|
                    0 <= k < 9 ==> #[trigger] state.neighbor_offsets@[k] == offset_entry(
                        grid.nx(),
                        k,
                    )
                &&& state.x@ == Seq::new(
                    n as nat,
                    |k: int|
                        if k < m {
                            positions@[k].0
                        } else {
                            zero
                        },
                )
                &&& state.y@ == Seq::new(
                    n as nat,
                    |k: int|
                        if k < m {
                            positions@[k].1
                        } else {
                            zero
                        },
                )
                &&& state.z@ == Seq::new(n as nat, |k: int| zero)
                &&& state.vx@ == Seq::new(n as nat, |k: int| zero)
                &&& state.vy@ == Seq::new(n as nat, |k: int| zero)
                &&& state.vz@ == Seq::new(n as nat, |k: int| zero)
                &&& state.ax@ == Seq::new(n as nat, |k: int| zero)
                &&& state.ay@ == Seq::new(n as nat, |k: int| zero)
                &&& state.az@ == Seq::new(n as nat, |k: int| zero)
                &&& state.ax_@ == Seq::new(n as nat, |k: int| zero)
                &&& state.ay_@ == Seq::new(n as nat, |k: int| zero)
                &&& state.az_@ == Seq::new(n as nat, |k: int| zero)
                &&& state.rho@ == Seq::new(n as nat, |k: int| zero)
                &&& state.p@ == Seq::new(n as nat, |k: int| zero)
            },
    {
        let mut state = State::blank(n, zero);
        let ghost zeros = Seq::new(n as nat, |k: int| zero);
        proof {
            state.lemma_blank_blocks(zero);
            assert(state.block(0) == zeros && state.block(1) == zeros && state.block(2) == zeros);
            assert(state.block(3) == zeros && state.block(4) == zeros && state.block(5) == zeros);
            assert(state.block(6) == zeros && state.block(7) == zeros && state.block(8) == zeros);
            assert(state.block(9) == zeros && state.block(10) == zeros && state.block(11) == zeros);
            assert(state.block(12) == zeros && state.block(13) == zeros);
        }
        match fill_arena(&mut state, grid, offset, constants, positions, zero) {
            Ok(()) => {
                proof {
                    let m = least(n as int, positions@.len() as int);
                    assert(state.x@ =~= Seq::new(
                        n as nat,
                        |k: int|
                            if k < m {
                                positions@[k].0
                            } else {
                                zero
                            },
                    ));
                    assert(state.y@ =~= Seq::new(
                        n as nat,
                        |k: int|
                            if k < m {
                                positions@[k].1
                            } else {
                                zero
                            },
                    ));
                    assert(state.z@ =~= zeros);
                    assert(state.vx@ =~= zeros);
                    assert(state.vy@ =~= zeros);
                    assert(state.vz@ =~= zeros);
                    assert(state.ax@ =~= zeros);
                    assert(state.ay@ =~= zeros);
                    assert(state.az@ =~= zeros);
                    assert(state.ax_@ =~= zeros);
                    assert(state.ay_@ =~= zeros);
                    assert(state.az_@ =~= zeros);
                    assert(state.rho@ =~= zeros);
                    assert(state.p@ =~= zeros);
                }
                Ok(state)
            },
            Err(error) => Err(error),
        }
    }

    /// Whether the per-particle arrays are sized.
    pub fn is_sized(&self) -> (ok: bool)
        ensures
            ok == self.sized(),
    {
        let n: usize = self.x.len();
        self.y.len() == n && self.z.len() == n && self.vx.len() == n && self.vy.len() == n
            && self.vz.len() == n && self.ax.len() == n && self.ay.len() == n && self.az.len()
            == n && self.ax_.len() == n && self.ay_.len() == n && self.az_.len() == n
            && self.rho.len() == n && self.p.len() == n && n <= usize::MAX / 14
    }

    /// Whether the state is well formed.
    pub fn is_wf(&self) -> (ok: bool)
        ensures
            ok == self.wf(),
    {
        let n: usize = self.x.len();
        if !self.is_sized() {
            return false;
        }
        match self.grid.checked_cells() {
            None => false,
            Some(cells) => self.offset.len() == 3 && self.cell_contents.len() == cells
                && self.point_to_cell.len() == n && self.neighbors.len() == n,
        }
    }

    /// All fourteen per-particle arrays, one after the other, in the order
    /// x, y, z, vx, vy, vz, ax, ay, az, previous ax, ay, az, density,
    /// pressure.
    pub open spec fn layout(&self) -> Seq<T> {
        self.x@ + self.y@ + self.z@ + self.vx@ + self.vy@ + self.vz@ + self.ax@ + self.ay@
            + self.az@ + self.ax_@ + self.ay_@ + self.az_@ + self.rho@ + self.p@
    }

    /// Block `k` of the layout: the array of the `k`-th per-particle
    /// quantity.
    pub open spec fn block(&self, k: int) -> Seq<T> {
        if k == 0 {
            self.x@
        } else if k == 1 {
            self.y@
        } else if k == 2 {
            self.z@
        } else if k == 3 {
            self.vx@
        } else if k == 4 {
            self.vy@
        } else if k == 5 {
            self.vz@
        } else if k == 6 {
            self.ax@
        } else if k == 7 {
            self.ay@
        } else if k == 8 {
            self.az@
        } else if k == 9 {
            self.ax_@
        } else if k == 10 {
            self.ay_@
        } else if k == 11 {
            self.az_@
        } else if k == 12 {
            self.rho@
        } else {
            self.p@
        }
    }

    /// The layout is made of fourteen blocks of one entry per particle:
    /// quantity `k` of particle `i` stands at position `k * n + i`.
    pub proof fn lemma_layout_block(&self, k: int, i: int)
        requires
            self.sized(),
            0 <= k < 14,
            0 <= i < self.particles(),
        ensures
            self.layout().len() == 14 * self.particles(),
            self.layout()[k * self.particles() + i] == self.block(k)[i],
    {
        let n = self.particles() as int;
        assert(k * n == if k == 0 {
            0
        } else if k == 1 {
            n
        } else if k == 2 {
            2 * n
        } else if k == 3 {
            3 * n
        } else if k == 4 {
            4 * n
        } else if k == 5 {
            5 * n
        } else if k == 6 {
            6 * n
        } else if k == 7 {
            7 * n
        } else if k == 8 {
            8 * n
        } else if k == 9 {
            9 * n
        } else if k == 10 {
            10 * n
        } else if k == 11 {
            11 * n
        } else if k == 12 {
            12 * n
        } else {
            13 * n
        }) by (nonlinear_arith)
            requires
                0 <= k < 14,
        ;
    }

    /// Where the whole layout is `zero`, so is every array.
    proof fn lemma_blank_blocks(&self, zero: T)
        requires
            self.sized(),
            self.layout() == Seq::new((14 * self.particles()) as nat, |i: int| zero),
        ensures
            forall|k: int|
                0 <= k < 14 ==> #[trigger] self.block(k) == Seq::new(
                    self.particles(),
                    |i: int| zero,
                ),
    {
        let n = self.particles();
        assert forall|k: int| 0 <= k < 14 implies #[trigger] self.block(k) == Seq::new(
            n,
            |i: int| zero,
        ) by {
            assert(self.block(k).len() == n);
            assert forall|i: int| 0 <= i < n implies self.block(k)[i] == zero by {
                self.lemma_layout_block(k, i);
                assert(0 <= k * n + i < 14 * n) by (nonlinear_arith)
                    requires
                        0 <= k < 14,
                        0 <= i < n,
                ;
            }
        }
    }

    /// Length of the contiguous buffer: fourteen entries per particle.
    pub fn len(&self) -> (len: usize)
        requires
            self.sized(),
        ensures
            len == 14 * self.particles(),
            len == self.layout().len(),
    {
        self.x.len() * 14
    }

    /// The contiguous buffer: a copy of the fourteen arrays in layout order.
    pub fn flat(&self) -> (buffer: Vec<T>)
        ensures
            buffer@ == self.layout(),
    {
        let mut buffer: Vec<T> = Vec::new();
        append_copy(&mut buffer, &self.x);
        append_copy(&mut buffer, &self.y);
        append_copy(&mut buffer, &self.z);
        append_copy(&mut buffer, &self.vx);
        append_copy(&mut buffer, &self.vy);
        append_copy(&mut buffer, &self.vz);
        append_copy(&mut buffer, &self.ax);
        append_copy(&mut buffer, &self.ay);
        append_copy(&mut buffer, &self.az);
        append_copy(&mut buffer, &self.ax_);
        append_copy(&mut buffer, &self.ay_);
        append_copy(&mut buffer, &self.az_);
        append_copy(&mut buffer, &self.rho);
        append_copy(&mut buffer, &self.p);
        buffer
    }
}

} // verus!
