use wavegrid::grid::Grid;
use wavegrid::grid::IntegratorMode;
use wavegrid::grid::SimError;

/// `create(D, N)` yields arrays of exactly `N^D` elements, all zero, for
/// every supported dimensionality.
#[test]
fn create_shapes_and_zero_fill() {
    for d in 1..=4usize {
        for n in [3usize, 4, 5] {
            let total = n.pow(d as u32);
            let g = Grid::create(d, n, IntegratorMode::Wave).unwrap();
            assert_eq!(g.dimensionality, d);
            assert_eq!(g.num_grid, n);
            assert_eq!(g.current.len(), total);
            assert_eq!(g.previous.len(), total);
            assert_eq!(g.scratch.len(), total);
            assert!(g.current.iter().all(|&v| v == 0));
            assert!(g.previous.iter().all(|&v| v == 0));
            assert!(g.scratch.iter().all(|&v| v == 0));
        }
    }
}

#[test]
fn create_rejects_small_grids() {
    assert_eq!(
        Grid::create(2, 2, IntegratorMode::Wave).unwrap_err(),
        SimError::InvalidConfiguration
    );
    assert_eq!(
        Grid::create(1, 0, IntegratorMode::Diffusion).unwrap_err(),
        SimError::InvalidConfiguration
    );
}

#[test]
fn delta_x_is_two_over_n_minus_one() {
    let g = Grid::create(1, 5, IntegratorMode::Wave).unwrap();
    let dx = g.delta_x();
    assert_eq!(dx.num, 2);
    assert_eq!(dx.den, 4);
    assert_eq!(dx.num as f64 / dx.den as f64, 0.5);
}

#[test]
fn delta_t_follows_mode() {
    let w = Grid::create(2, 11, IntegratorMode::Wave).unwrap();
    let dtw = w.delta_t();
    assert_eq!((dtw.num, dtw.den), (2, 10));

    let d = Grid::create(2, 11, IntegratorMode::Diffusion).unwrap();
    let dtd = d.delta_t();
    // 0.4 * delta_x^2 = 0.4 * 0.04 = 0.016 = 8 / 500
    assert_eq!((dtd.num, dtd.den), (8, 500));
    assert_eq!(dtd.num as f64 / dtd.den as f64, 0.016);
}

#[test]
fn value_roundtrip_and_bounds_check() {
    let mut g = Grid::create(2, 5, IntegratorMode::Wave).unwrap();
    let c = vec![2usize, 3usize];
    g.set_value_at(&c, 77).unwrap();
    assert_eq!(g.value_at(&c).unwrap(), 77);
    // row-major: offset of (2, 3) is 2 * 5 + 3
    assert_eq!(g.current[2 * 5 + 3], 77);

    let out = vec![2usize, 5usize];
    assert_eq!(g.value_at(&out).unwrap_err(), SimError::IndexOutOfBounds);
    assert_eq!(g.set_value_at(&out, 1).unwrap_err(), SimError::IndexOutOfBounds);
    let wrong_len = vec![1usize];
    assert_eq!(g.value_at(&wrong_len).unwrap_err(), SimError::IndexOutOfBounds);
}

/// `Grid.create(dimensionality=1, num_grid=5)`: interior coordinates are
/// exactly the indices 1, 2, 3, and the boundary is 0 and 4.
#[test]
fn coordinate_sequences_one_dimension() {
    let g = Grid::create(1, 5, IntegratorMode::Wave).unwrap();
    let interior = g.interior_coordinates();
    assert_eq!(interior, vec![vec![1usize], vec![2usize], vec![3usize]]);
    let boundary = g.boundary_coordinates();
    assert_eq!(boundary, vec![vec![0usize], vec![4usize]]);
}

/// Interior and boundary coordinates partition the grid, in row-major
/// order.
#[test]
fn coordinate_sequences_two_dimensions() {
    let g = Grid::create(2, 4, IntegratorMode::Wave).unwrap();
    let interior = g.interior_coordinates();
    assert_eq!(
        interior,
        vec![vec![1usize, 1], vec![1, 2], vec![2, 1], vec![2, 2]]
    );
    let boundary = g.boundary_coordinates();
    assert_eq!(interior.len() + boundary.len(), 16);
    for c in &boundary {
        assert!(c.iter().any(|&x| x == 0 || x == 3));
    }
    // row-major order: flat offsets strictly increase
    let offsets: Vec<usize> = boundary.iter().map(|c| c[0] * 4 + c[1]).collect();
    assert!(offsets.windows(2).all(|w| w[0] < w[1]));
}
