use sph::constants::{ARENA_SIZE, FIELDS, GRID_PADDING, N};
use sph::initial_conditions::{fill_arena, neighbor_offsets, wedge_slots, InitError};
use sph::simulation::initialize_timestep;
use sph::spatial_hash::Grid;
use sph::state::{PhysicalConstants, State};

fn constants() -> PhysicalConstants<f32> {
    PhysicalConstants { particle_mass: 0.25, inv_h: 1.0, inv_reference_density: 8.0, tait_b: 2.0 }
}

fn small_state() -> State<f32> {
    let grid = Grid { count: vec![4, 4, 3] };
    let positions = vec![(0.5, 0.5), (0.6, 0.5), (2.5, 2.5), (0.5, 1.5)];
    match State::new(4, 0.0, grid, vec![-0.5, -0.5, -1.5], constants(), &positions) {
        Ok(state) => state,
        Err(error) => panic!("{:?}", error),
    }
}

#[test]
fn new_state_is_ready_to_step() {
    let mut state = small_state();
    assert!(state.is_wf());
    assert_eq!(state.len(), 56);
    assert_eq!(state.grid.count, vec![4, 4, 3]);
    assert_eq!(state.offset, vec![-0.5, -0.5, -1.5]);
    assert_eq!(state.particle_mass, 0.25);
    assert_eq!(state.inv_h, 1.0);
    assert_eq!(state.inv_reference_density, 8.0);
    assert_eq!(state.tait_b, 2.0);
    assert_eq!(state.cell_contents, vec![Vec::<usize>::new(); 48]);
    assert_eq!(state.neighbors, vec![Vec::<usize>::new(); 4]);
    assert_eq!(state.point_to_cell, vec![0; 4]);
    assert_eq!(state.neighbor_offsets.len(), 9);
    assert_eq!(state.x, vec![0.5, 0.6, 2.5, 0.5]);
    assert_eq!(state.y, vec![0.5, 0.5, 2.5, 1.5]);
    for block in [
        &state.z, &state.vx, &state.vy, &state.vz, &state.ax, &state.ay, &state.az, &state.ax_,
        &state.ay_, &state.az_, &state.rho, &state.p,
    ] {
        assert_eq!(*block, vec![0.0; 4]);
    }
    initialize_timestep(&mut state, &vec![[1, 1, 1], [1, 1, 1], [3, 3, 1], [1, 2, 1]], 0.0);
    assert_eq!(state.neighbors, vec![vec![1, 3], vec![3], vec![], vec![]]);
}

#[test]
fn new_state_with_the_default_grid() {
    let grid = Grid { count: vec![14, 14, 3] };
    let state = State::new(1000, 0.0f32, grid, vec![-2.1, -2.1, -0.45], constants(), &vec![]);
    let state = match state {
        Ok(state) => state,
        Err(error) => panic!("{:?}", error),
    };
    assert!(state.is_wf());
    assert_eq!(state.cell_contents.len(), 588);
    assert_eq!(state.x.len(), 1000);
    assert_eq!(state.neighbors.len(), 1000);
    assert_eq!(state.point_to_cell.len(), 1000);
    assert_eq!(state.flat(), vec![0.0; 14000]);
}

#[test]
fn new_state_places_as_many_particles_as_it_has() {
    let grid = Grid { count: vec![4, 4, 3] };
    let positions = vec![(1.0, 2.0), (3.0, 4.0), (5.0, 6.0)];
    let state = State::new(2, 0.0, grid, vec![0.0; 3], constants(), &positions);
    let state = match state {
        Ok(state) => state,
        Err(error) => panic!("{:?}", error),
    };
    assert_eq!(state.x, vec![1.0, 3.0]);
    assert_eq!(state.y, vec![2.0, 4.0]);
    let grid = Grid { count: vec![4, 4, 3] };
    let state = State::new(3, 0.0, grid, vec![0.0; 3], constants(), &vec![(1.0, 2.0)]);
    let state = match state {
        Ok(state) => state,
        Err(error) => panic!("{:?}", error),
    };
    assert_eq!(state.x, vec![1.0, 0.0, 0.0]);
    assert_eq!(state.y, vec![2.0, 0.0, 0.0]);
}

#[test]
fn new_state_rejects_bad_configurations() {
    let grid = || Grid { count: vec![4, 4, 3] };
    let offset = || vec![0.0f32; 3];
    let error = |result: Result<State<f32>, InitError>| match result {
        Ok(_) => panic!("accepted"),
        Err(error) => error,
    };
    assert_eq!(
        error(State::new(0, 0.0, grid(), offset(), constants(), &vec![])),
        InitError::NoParticles
    );
    assert_eq!(
        error(State::new(0, 0.0, Grid { count: vec![4] }, vec![], constants(), &vec![])),
        InitError::NoParticles
    );
    assert_eq!(
        error(State::new(5, 0.0, Grid { count: vec![4, 4] }, offset(), constants(), &vec![])),
        InitError::BadGrid
    );
    assert_eq!(
        error(State::new(5, 0.0, grid(), vec![0.0; 2], constants(), &vec![])),
        InitError::BadGrid
    );
    assert_eq!(
        error(State::new(5, 0.0, grid(), vec![0.0; 4], constants(), &vec![])),
        InitError::BadGrid
    );
    let huge = Grid { count: vec![0x7fff_ffff, 0x7fff_ffff, 0x7fff_ffff] };
    assert_eq!(error(State::new(5, 0.0, huge, offset(), constants(), &vec![])), InitError::BadGrid);
}

#[test]
fn constants_describe_the_default_layout() {
    assert_eq!(N, 1000);
    assert_eq!(FIELDS, 14);
    assert_eq!(ARENA_SIZE, 14000);
    assert_eq!(GRID_PADDING, 3);
}

#[test]
fn blank_state_is_not_ready() {
    let state: State<f32> = State::blank(3, 0.0);
    assert_eq!(state.len(), 42);
    assert_eq!(state.flat(), vec![0.0; 42]);
    assert_eq!(state.point_to_cell, vec![0, 0, 0]);
    assert_eq!(state.neighbors, vec![Vec::<usize>::new(); 3]);
    assert!(state.grid.count.is_empty());
    assert!(state.cell_contents.is_empty());
    assert!(state.neighbor_offsets.is_empty());
    assert!(state.offset.is_empty());
    assert!(state.is_sized());
    assert!(!state.is_wf());
}

#[test]
fn empty_state_is_allowed() {
    let state: State<f64> = State::blank(0, 0.0);
    assert_eq!(state.len(), 0);
    assert!(state.flat().is_empty());
}

#[test]
fn flat_keeps_the_block_order() {
    let mut state: State<i32> = State::blank(2, 0);
    state.x = vec![1, 2];
    state.y = vec![3, 4];
    state.z = vec![5, 6];
    state.vx = vec![7, 8];
    state.vy = vec![9, 10];
    state.vz = vec![11, 12];
    state.ax = vec![13, 14];
    state.ay = vec![15, 16];
    state.az = vec![17, 18];
    state.ax_ = vec![19, 20];
    state.ay_ = vec![21, 22];
    state.az_ = vec![23, 24];
    state.rho = vec![25, 26];
    state.p = vec![27, 28];
    assert_eq!(state.flat(), (1..=28).collect::<Vec<i32>>());
    assert_eq!(state.len(), 28);
}

#[test]
fn fill_arena_installs_grid_and_places_particles() {
    let state = small_state();
    assert!(state.is_wf());
    assert_eq!(state.grid.count, vec![4, 4, 3]);
    assert_eq!(state.cell_contents, vec![Vec::<usize>::new(); 48]);
    assert_eq!(state.neighbors, vec![Vec::<usize>::new(); 4]);
    assert_eq!(state.point_to_cell, vec![0; 4]);
    assert_eq!(state.x, vec![0.5, 0.6, 2.5, 0.5]);
    assert_eq!(state.y, vec![0.5, 0.5, 2.5, 1.5]);
    assert_eq!(state.z, vec![0.0; 4]);
    assert_eq!(
        state.neighbor_offsets,
        vec![
            usize::MAX - 4,
            usize::MAX,
            3,
            usize::MAX - 3,
            0,
            4,
            usize::MAX - 2,
            1,
            5
        ]
    );
}

#[test]
fn fill_arena_leaves_unplaced_particles() {
    let mut state: State<f32> = State::blank(3, 0.0);
    state.x = vec![9.0, 9.0, 9.0];
    state.rho = vec![4.0, 4.0, 4.0];
    let grid = Grid { count: vec![4, 4, 3] };
    assert_eq!(fill_arena(&mut state, grid, vec![0.0; 3], constants(), &vec![(1.0, 2.0)], 0.0), Ok(()));
    assert_eq!(state.x, vec![1.0, 9.0, 9.0]);
    assert_eq!(state.y, vec![2.0, 0.0, 0.0]);
    assert_eq!(state.rho, vec![0.0, 4.0, 4.0]);
}

#[test]
fn fill_arena_ignores_surplus_positions() {
    let mut state: State<f32> = State::blank(1, 0.0);
    let grid = Grid { count: vec![4, 4, 3] };
    let positions = vec![(1.0, 2.0), (3.0, 4.0)];
    assert_eq!(fill_arena(&mut state, grid, vec![0.0; 3], constants(), &positions, 0.0), Ok(()));
    assert_eq!(state.x, vec![1.0]);
    assert_eq!(state.y, vec![2.0]);
}

#[test]
fn fill_arena_rejects_a_state_without_particles() {
    let mut state: State<f32> = State::blank(0, 0.0);
    let grid = Grid { count: vec![4, 4, 3] };
    assert_eq!(fill_arena(&mut state, grid, vec![0.0; 3], constants(), &vec![], 0.0), Err(InitError::NoParticles));
    assert!(state.grid.count.is_empty());
    let grid = Grid { count: vec![4, 4] };
    assert_eq!(fill_arena(&mut state, grid, vec![0.0; 3], constants(), &vec![], 0.0), Err(InitError::NoParticles));
}

#[test]
fn fill_arena_rejects_a_bad_grid() {
    let mut state: State<f32> = State::blank(2, 0.0);
    let grid = Grid { count: vec![4, 4] };
    assert_eq!(
        fill_arena(&mut state, grid, vec![0.0; 3], constants(), &vec![(1.0, 1.0)], 0.0),
        Err(InitError::BadGrid)
    );
    assert!(state.grid.count.is_empty());
    assert_eq!(state.x, vec![0.0, 0.0]);
    assert!(state.neighbor_offsets.is_empty());
    let grid = Grid { count: vec![4, 4, 3] };
    assert_eq!(
        fill_arena(&mut state, grid, vec![0.0; 2], constants(), &vec![(1.0, 1.0)], 0.0),
        Err(InitError::BadGrid)
    );
    assert!(state.grid.count.is_empty());
    assert!(state.offset.is_empty());
    assert_eq!(state.particle_mass, 0.0);
}

#[test]
fn a_state_without_offsets_is_not_well_formed() {
    let mut state = small_state();
    assert!(state.is_wf());
    state.offset = vec![0.0; 2];
    assert!(!state.is_wf());
    state.offset = vec![0.0; 3];
    assert!(state.is_wf());
    state.cell_contents.pop();
    assert!(!state.is_wf());
}

#[test]
fn neighbor_offsets_follow_the_first_axis() {
    let grid = Grid { count: vec![14, 14, 3] };
    let offsets = neighbor_offsets(&grid);
    let signed: Vec<isize> = offsets.iter().map(|offset| *offset as isize).collect();
    assert_eq!(signed, vec![-15, -1, 13, -14, 0, 14, -13, 1, 15]);
}

#[test]
fn wedge_slots_go_row_by_row() {
    assert_eq!(
        wedge_slots(&vec![3, 2, 1], 10),
        vec![(0, 0), (0, 1), (0, 2), (1, 0), (1, 1), (2, 0)]
    );
}

#[test]
fn wedge_slots_stop_at_the_particle_count() {
    assert_eq!(wedge_slots(&vec![3, 2, 1], 4), vec![(0, 0), (0, 1), (0, 2), (1, 0)]);
    assert_eq!(wedge_slots(&vec![3, 2, 1], 3), vec![(0, 0), (0, 1), (0, 2)]);
    assert_eq!(wedge_slots(&vec![3, 2, 1], 0), vec![]);
    assert_eq!(wedge_slots(&vec![0, 2, 0, 1], 3), vec![(1, 0), (1, 1), (3, 0)]);
    assert_eq!(wedge_slots(&vec![], 3), vec![]);
}

#[test]
fn initialize_timestep_rebuilds_the_bookkeeping() {
    let mut state = small_state();
    state.ax = vec![1.0, 2.0, 3.0, 4.0];
    state.ay = vec![5.0, 6.0, 7.0, 8.0];
    state.az = vec![9.0, 10.0, 11.0, 12.0];
    state.rho = vec![1.5; 4];
    state.p = vec![2.5; 4];
    state.vx = vec![0.25; 4];
    let cells = vec![[1, 1, 1], [1, 1, 1], [3, 3, 1], [1, 2, 1]];
    initialize_timestep(&mut state, &cells, 0.0);

    assert_eq!(state.ax_, vec![1.0, 2.0, 3.0, 4.0]);
    assert_eq!(state.ay_, vec![5.0, 6.0, 7.0, 8.0]);
    assert_eq!(state.az_, vec![9.0, 10.0, 11.0, 12.0]);
    assert_eq!(state.ax, vec![0.0; 4]);
    assert_eq!(state.ay, vec![0.0; 4]);
    assert_eq!(state.az, vec![0.0; 4]);
    assert_eq!(state.rho, vec![0.0; 4]);
    assert_eq!(state.p, vec![2.5; 4]);
    assert_eq!(state.vx, vec![0.25; 4]);
    assert_eq!(state.x, vec![0.5, 0.6, 2.5, 0.5]);

    assert_eq!(state.point_to_cell, vec![21, 21, 31, 25]);
    assert_eq!(state.cell_contents[21], vec![0, 1]);
    assert_eq!(state.cell_contents[25], vec![3]);
    assert_eq!(state.cell_contents[31], vec![2]);
    assert_eq!(state.neighbors, vec![vec![1, 3], vec![3], vec![], vec![]]);
}

#[test]
fn initialize_timestep_starts_from_scratch() {
    let mut state = small_state();
    initialize_timestep(&mut state, &vec![[1, 1, 1], [1, 1, 1], [3, 3, 1], [1, 2, 1]], 0.0);
    initialize_timestep(&mut state, &vec![[2, 2, 1], [0, 0, 1], [2, 2, 1], [2, 1, 1]], 0.0);
    assert_eq!(state.neighbors, vec![vec![3, 2], vec![], vec![3], vec![]]);
    assert_eq!(state.cell_contents[21], Vec::<usize>::new());
    assert_eq!(state.cell_contents[26], vec![0, 2]);
}

#[test]
fn initialize_timestep_without_particles_is_a_no_op() {
    let mut state: State<f32> = State::blank(0, 0.0);
    state.grid = Grid { count: vec![3, 3, 3] };
    state.offset = vec![0.0; 3];
    state.cell_contents = vec![vec![]; 27];
    assert!(state.is_wf());
    initialize_timestep(&mut state, &vec![], 0.0);
    assert!(state.is_wf());
    assert_eq!(state.cell_contents, vec![Vec::<usize>::new(); 27]);
    assert!(state.neighbors.is_empty());
}
