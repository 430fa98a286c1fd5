use sph::spatial_hash::{find_neighbors, hash, indices_in_range, populate_grid, Grid};

/// Grid over the extents with cells of the given length: the library pads
/// the cell counts, the offsets centre the grid on each extent's midpoint.
fn compute_grid(extents: &[&[f32; 2]], cell_length: f32) -> (Grid, Vec<f32>) {
    let spans: Vec<usize> = extents
        .iter()
        .map(|extent| ((extent[1] - extent[0]) / cell_length).ceil() as usize)
        .collect();
    let grid = Grid::padded(&spans);
    let offset: Vec<f32> = extents
        .iter()
        .zip(grid.count.iter())
        .map(|(extent, count)| {
            let grid_size = *count as f32 * cell_length;
            (extent[0] + extent[1]) / 2.0 - grid_size / 2.0
        })
        .collect();
    (grid, offset)
}

fn get_cell(x: f32, y: f32, z: f32, offset: &[f32], inv_h: f32) -> [i32; 3] {
    [
        ((x - offset[0]) * inv_h).floor() as i32,
        ((y - offset[1]) * inv_h).floor() as i32,
        ((z - offset[2]) * inv_h).floor() as i32,
    ]
}

/// Buckets and neighbour lists of the particles at the given positions.
fn search(extents: &[&[f32; 2]], radius: f32, px: &[f32], py: &[f32], pz: &[f32]) -> Vec<Vec<usize>> {
    let num_particles = px.len();
    let inv_h = 1.0 / radius;
    let (grid, offset) = compute_grid(extents, radius);
    let n_cells: usize = grid.count.iter().product();
    assert_eq!(grid.checked_cells(), Some(n_cells));
    let mut cell_contents: Vec<Vec<usize>> = vec![vec![]; n_cells];
    let mut point_to_cell = vec![0; num_particles];
    let cells: Vec<[i32; 3]> = (0..num_particles)
        .map(|i| get_cell(px[i], py[i], pz[i], &offset, inv_h))
        .collect();
    for cell in &cells {
        assert!(grid.holds_cell(cell));
    }
    populate_grid(&cells, &grid, &mut cell_contents, &mut point_to_cell, num_particles);
    let mut neighbors: Vec<Vec<usize>> = vec![vec![]; num_particles];
    find_neighbors(&grid, &cell_contents, &mut neighbors);
    neighbors
}

#[test]
fn compute_grid_1d_simple_case() {
    let extents = &[&[0.0_f32, 10.0_f32]];
    let (result, offset) = compute_grid(extents, 2.0);
    assert_eq!(result.count, vec![8]);
    assert_eq!(offset, vec![-3.0]);
}

#[test]
fn compute_grid_1d_exact_cell_divisions() {
    let extents = &[&[0.0_f32, 4.0_f32]];
    let (result, offset) = compute_grid(extents, 1.0);
    assert_eq!(result.count, vec![7]);
    assert_eq!(offset, vec![-1.5]);
}

#[test]
fn compute_grid_1d_negative_extents() {
    let extents = &[&[-5.0_f32, 5.0_f32]];
    let (result, offset) = compute_grid(extents, 2.0);
    assert_eq!(result.count, vec![8]);
    assert_eq!(offset, vec![-8.0]);
}

#[test]
fn compute_grid_1d_fractional_cell_length() {
    let extents = &[&[0.0_f32, 3.0_f32]];
    let (result, offset) = compute_grid(extents, 0.5);
    assert_eq!(result.count, vec![9]);
    assert_eq!(offset, vec![-0.75]);
}

#[test]
fn compute_grid_2d_case() {
    let extents = &[&[0.0_f32, 10.0_f32], &[0.0_f32, 20.0_f32]];
    let (result, offset) = compute_grid(extents, 5.0);
    assert_eq!(result.count, vec![5, 7]);
    assert_eq!(offset, vec![-7.5, -7.5]);
}

#[test]
fn compute_grid_2d_different_ranges() {
    let extents = &[&[-1.0_f32, 1.0_f32], &[0.0_f32, 3.0_f32]];
    let (result, offset) = compute_grid(extents, 1.0);
    assert_eq!(result.count, vec![5, 6]);
    assert_eq!(offset, vec![-2.5, -1.5]);
}

#[test]
fn compute_grid_3d_case() {
    let extents = &[&[0.0_f32, 2.0_f32], &[0.0_f32, 4.0_f32], &[0.0_f32, 6.0_f32]];
    let (result, offset) = compute_grid(extents, 1.0);
    assert_eq!(result.count, vec![5, 7, 9]);
    assert_eq!(offset, vec![-1.5, -1.5, -1.5]);
}

#[test]
fn compute_grid_coverage_verification() {
    let extents = &[&[1.0_f32, 7.0_f32], &[2.0_f32, 8.0_f32]];
    let cell_length = 1.5;
    let (grid, offset) = compute_grid(extents, cell_length);

    for dim in 0..extents.len() {
        let grid_min = offset[dim];
        let grid_max = offset[dim] + grid.count[dim] as f32 * cell_length;

        assert!(grid_min < extents[dim][0]);
        assert!(grid_max > extents[dim][1]);
    }
}

#[test]
fn compute_grid_floating_point_precision_edge_case() {
    let extents = &[&[0.0_f32, 0.1_f32 + 0.2_f32]];
    let cell_length = 0.1;
    let (grid, offset) = compute_grid(extents, cell_length);

    let grid_min = offset[0];
    let grid_max = offset[0] + grid.count[0] as f32 * cell_length;

    assert!(grid_min < extents[0][0]);
    assert!(grid_max > extents[0][1]);
}

#[test]
fn compute_grid_centering_behavior() {
    let extents = &[&[10.0_f32, 20.0_f32]];
    let cell_length = 2.0;
    let (grid, offset) = compute_grid(extents, cell_length);

    let extent_center = (extents[0][0] + extents[0][1]) / 2.0;
    let grid_center = offset[0] + (grid.count[0] as f32 * cell_length) / 2.0;

    assert!((grid_center - extent_center).abs() < 1e-6);
}

#[test]
fn find_neighbors_same_cell() {
    let neighbors = search(
        &[&[0.0_f32, 2.0_f32], &[0.0_f32, 2.0_f32], &[0.0_f32, 0.0_f32]],
        1.0,
        &[1.0, 1.1, 1.2, 1.3],
        &[1.0, 1.1, 1.2, 1.3],
        &[0.0, 0.0, 0.0, 0.0],
    );

    assert_eq!(neighbors[0], vec![1, 2, 3]);
    assert_eq!(neighbors[1], vec![2, 3]);
    assert_eq!(neighbors[2], vec![3]);
    assert_eq!(neighbors[3], vec![]);
}

#[test]
fn find_neighbors_adjacent_cells() {
    let neighbors = search(
        &[&[-1.0_f32, 3.0_f32], &[-1.0_f32, 3.0_f32], &[0.0_f32, 0.0_f32]],
        1.0,
        &[0.9, 1.1, 0.9, 1.1],
        &[0.9, 0.9, 1.1, 1.1],
        &[0.0, 0.0, 0.0, 0.0],
    );

    assert_eq!(neighbors[0], vec![1, 2, 3]);
    assert_eq!(neighbors[1], vec![2, 3]);
    assert_eq!(neighbors[2], vec![3]);
    assert_eq!(neighbors[3], vec![]);
}

#[test]
fn find_neighbors_no_distant_points() {
    let neighbors = search(
        &[&[-2.0_f32, 4.0_f32], &[-2.0_f32, 4.0_f32], &[0.0_f32, 0.0_f32]],
        1.0,
        &[0.0, 3.0, 0.5, 3.5],
        &[0.0, 3.0, 0.5, 3.5],
        &[0.0, 0.0, 0.0, 0.0],
    );

    assert_eq!(neighbors[0], vec![2]);
    assert_eq!(neighbors[1], vec![3]);
    assert_eq!(neighbors[2], vec![]);
    assert_eq!(neighbors[3], vec![]);
}

#[test]
fn find_neighbors_empty_cells() {
    let neighbors = search(
        &[&[-1.0_f32, 3.0_f32], &[-1.0_f32, 3.0_f32], &[0.0_f32, 0.0_f32]],
        1.0,
        &[0.0, 2.0],
        &[0.0, 2.0],
        &[0.0, 0.0],
    );

    assert_eq!(neighbors[0], vec![]);
    assert_eq!(neighbors[1], vec![]);
}

#[test]
fn find_neighbors_ordering_constraint() {
    let neighbors = search(
        &[&[0.0_f32, 2.0_f32], &[0.0_f32, 2.0_f32], &[0.0_f32, 0.0_f32]],
        1.0,
        &[0.5, 0.6, 0.7, 0.8],
        &[0.5, 0.6, 0.7, 0.8],
        &[0.0, 0.0, 0.0, 0.0],
    );

    for (i, neighbor_list) in neighbors.iter().enumerate() {
        for &j in neighbor_list {
            assert!(j > i);
        }
    }

    let mut all_pairs: Vec<(usize, usize)> = Vec::new();
    for (i, neighbor_list) in neighbors.iter().enumerate() {
        for &j in neighbor_list {
            all_pairs.push((i, j));
        }
    }

    assert_eq!(all_pairs, vec![(0, 1), (0, 2), (0, 3), (1, 2), (1, 3), (2, 3)]);
}

#[test]
fn hash_puts_the_first_axis_fastest() {
    let grid = Grid { count: vec![4, 5, 6] };
    assert_eq!(hash(0, 0, 0, &grid), 0);
    assert_eq!(hash(3, 0, 0, &grid), 3);
    assert_eq!(hash(0, 1, 0, &grid), 4);
    assert_eq!(hash(0, 0, 1, &grid), 20);
    assert_eq!(hash(1, 2, 3, &grid), 1 + 4 * (2 + 5 * 3));
    assert_eq!(hash(3, 4, 5, &grid), 119);
}

#[test]
fn padded_adds_three_cells_per_axis() {
    let grid = Grid::padded(&vec![0, 1, 11]);
    assert_eq!(grid.count, vec![3, 4, 14]);
    assert_eq!(Grid::padded(&vec![]).count, Vec::<usize>::new());
}

#[test]
fn checked_cells_accepts_well_formed_grids_only() {
    assert_eq!(Grid { count: vec![4, 5, 6] }.checked_cells(), Some(120));
    assert_eq!(Grid { count: vec![4, 0, 6] }.checked_cells(), Some(0));
    assert_eq!(Grid { count: vec![4, 5] }.checked_cells(), None);
    assert_eq!(Grid { count: vec![4, 5, 6, 7] }.checked_cells(), None);
    assert_eq!(Grid { count: vec![1, 1, 0x8000_0000] }.checked_cells(), None);
    assert_eq!(Grid { count: vec![0x7fff_ffff, 1, 1] }.checked_cells(), Some(0x7fff_ffff));
    assert_eq!(
        Grid { count: vec![0x7fff_ffff, 0x7fff_ffff, 0x7fff_ffff] }.checked_cells(),
        None
    );
    assert_eq!(Grid { count: vec![0x7fff_ffff, 0x7fff_ffff, 0] }.checked_cells(), Some(0));
}

#[test]
fn holds_cell_tests_every_axis() {
    let grid = Grid { count: vec![2, 3, 1] };
    assert!(grid.holds_cell(&[0, 0, 0]));
    assert!(grid.holds_cell(&[1, 2, 0]));
    assert!(!grid.holds_cell(&[2, 0, 0]));
    assert!(!grid.holds_cell(&[0, 3, 0]));
    assert!(!grid.holds_cell(&[0, 0, 1]));
    assert!(!grid.holds_cell(&[-1, 0, 0]));
    assert!(!grid.holds_cell(&[0, -1, 0]));
    assert!(!grid.holds_cell(&[0, 0, -1]));
}

#[test]
fn populate_grid_files_each_particle_once() {
    let grid = Grid { count: vec![3, 2, 1] };
    let cells = vec![[2, 1, 0], [0, 0, 0], [2, 1, 0], [1, 0, 0], [0, 0, 0], [1, 1, 0]];
    let mut contents: Vec<Vec<usize>> = vec![vec![9, 9]; 6];
    let mut grid_map = vec![7; 6];
    populate_grid(&cells, &grid, &mut contents, &mut grid_map, 5);
    assert_eq!(contents, vec![vec![1, 4], vec![3], vec![], vec![], vec![], vec![0, 2]]);
    assert_eq!(grid_map, vec![5, 0, 5, 1, 0, 7]);
}

#[test]
fn find_neighbors_walks_the_window_first_axis_slowest() {
    // Particle 0 sits in the middle of a 3 x 3 x 1 grid, every other cell
    // holds one particle: the candidates come out in window order.
    let grid = Grid { count: vec![3, 3, 1] };
    let cells = vec![
        [1, 1, 0],
        [2, 2, 0],
        [0, 0, 0],
        [1, 0, 0],
        [2, 0, 0],
        [0, 1, 0],
        [2, 1, 0],
        [0, 2, 0],
        [1, 2, 0],
    ];
    let mut contents: Vec<Vec<usize>> = vec![vec![]; 9];
    let mut grid_map = vec![0; 9];
    populate_grid(&cells, &grid, &mut contents, &mut grid_map, 9);
    let mut neighbors: Vec<Vec<usize>> = vec![vec![5]; 9];
    find_neighbors(&grid, &contents, &mut neighbors);
    assert_eq!(neighbors[0], vec![2, 5, 7, 3, 8, 4, 6, 1]);
    assert_eq!(neighbors[1], vec![8, 6]);
    assert_eq!(neighbors[2], vec![5, 3]);
    assert_eq!(neighbors[8], Vec::<usize>::new());
}

#[test]
fn find_neighbors_clamps_at_the_edge() {
    // Opposite corners of a 3-wide grid are not adjacent: the window does
    // not wrap around.
    let grid = Grid { count: vec![3, 1, 1] };
    let contents = vec![vec![0], vec![], vec![1]];
    let mut neighbors: Vec<Vec<usize>> = vec![vec![]; 2];
    find_neighbors(&grid, &contents, &mut neighbors);
    assert_eq!(neighbors, vec![Vec::<usize>::new(), Vec::<usize>::new()]);
}

#[test]
fn find_neighbors_counts_every_occurrence() {
    // A table that names a particle twice yields its candidates twice.
    let grid = Grid { count: vec![1, 1, 1] };
    let contents = vec![vec![0, 0, 1]];
    let mut neighbors: Vec<Vec<usize>> = vec![vec![]; 2];
    find_neighbors(&grid, &contents, &mut neighbors);
    assert_eq!(neighbors, vec![vec![1, 1], vec![]]);
}

#[test]
fn indices_in_range_looks_at_every_bucket() {
    assert!(indices_in_range(&vec![], 0));
    assert!(indices_in_range(&vec![vec![], vec![]], 0));
    assert!(indices_in_range(&vec![vec![0, 2], vec![1]], 3));
    assert!(!indices_in_range(&vec![vec![0, 2], vec![1]], 2));
    assert!(!indices_in_range(&vec![vec![0], vec![], vec![7]], 7));
    assert!(indices_in_range(&vec![vec![0], vec![], vec![7]], 8));
}

#[test]
fn find_neighbors_lists_exactly_the_adjacent_pairs() {
    // Sixty particles scattered over a 5 x 4 x 3 grid by a fixed recurrence.
    let grid = Grid { count: vec![5, 4, 3] };
    let mut seed: u32 = 12345;
    let mut next = |bound: u32| {
        seed = seed.wrapping_mul(1103515245).wrapping_add(12345);
        ((seed >> 16) % bound) as i32
    };
    let cells: Vec<[i32; 3]> = (0..60).map(|_| [next(5), next(4), next(3)]).collect();
    let n = cells.len();

    let mut contents: Vec<Vec<usize>> = vec![vec![]; 60];
    let mut grid_map = vec![0; n];
    populate_grid(&cells, &grid, &mut contents, &mut grid_map, n);
    assert!(indices_in_range(&contents, n));
    for i in 0..n {
        assert_eq!(grid_map[i], hash(cells[i][0], cells[i][1], cells[i][2], &grid));
        assert_eq!(contents[grid_map[i]].iter().filter(|p| **p == i).count(), 1);
    }
    assert_eq!(contents.iter().map(|bucket| bucket.len()).sum::<usize>(), n);
    for bucket in &contents {
        assert!(bucket.windows(2).all(|pair| pair[0] < pair[1]));
    }

    let mut neighbors: Vec<Vec<usize>> = vec![vec![]; n];
    find_neighbors(&grid, &contents, &mut neighbors);
    let mut pairs = 0;
    for i in 0..n {
        for j in 0..n {
            let adjacent = (0..3).all(|axis| (cells[i][axis] - cells[j][axis]).abs() <= 1);
            let listed = neighbors[i].iter().filter(|p| **p == j).count();
            assert_eq!(listed, if i < j && adjacent { 1 } else { 0 });
            pairs += listed;
        }
    }
    assert_eq!(pairs, neighbors.iter().map(|list| list.len()).sum::<usize>());
}
