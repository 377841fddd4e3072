use wavegrid::driver::DEFAULT_AMPLITUDE_SCALE;
use wavegrid::fixed::SCALE;
use wavegrid::grid::Grid;
use wavegrid::grid::IntegratorMode;

fn gaussian_grid(d: usize, n: usize, mode: IntegratorMode) -> Grid {
    let mut g = Grid::create(d, n, mode).unwrap();
    g.apply_gaussian(DEFAULT_AMPLITUDE_SCALE);
    g
}

/// Running `step` zero times leaves `current` and `previous` unchanged.
#[test]
fn zero_steps_leave_state_unchanged() {
    let g = gaussian_grid(2, 5, IntegratorMode::Wave);
    let cur0 = g.current.clone();
    let prev0 = g.previous.clone();
    // no step taken
    assert_eq!(g.current, cur0);
    assert_eq!(g.previous, prev0);
}

/// The concrete 1D scenario: `num_grid = 5`, wave form, zero initial
/// velocity.  `delta_x = 0.5`; index 2 holds exactly 1.0, the endpoints 0;
/// one step leaves index 2 at
/// `2*v2 - v2 + (v3 - 2*v2 + v1)` with the stored Gaussian values, exactly.
#[test]
fn one_step_wave_scenario_one_dimension() {
    let mut g = gaussian_grid(1, 5, IntegratorMode::Wave);
    let dx = g.delta_x();
    assert_eq!((dx.num, dx.den), (2, 4));
    let dt = g.delta_t();
    assert_eq!((dt.num, dt.den), (2, 4));

    let v1 = g.value_at(&vec![1usize]).unwrap();
    let v2 = g.value_at(&vec![2usize]).unwrap();
    let v3 = g.value_at(&vec![3usize]).unwrap();
    assert_eq!(v2, SCALE);
    assert_eq!(v1, v3);
    // exp(-40 * 0.25) = exp(-10)
    assert!((v1 as f64 / SCALE as f64 - (-10.0f64).exp()).abs() < 1e-7);

    g.step();

    // dt^2/dx^2 = 1: new = 2*cur - prev + laplacian, with prev == cur
    let expect1 = v1 + (v2 - 2 * v1 + 0);
    let expect2 = v2 + (v3 - 2 * v2 + v1);
    let expect3 = v3 + (0 - 2 * v3 + v2);
    assert_eq!(g.value_at(&vec![1usize]).unwrap(), expect1);
    assert_eq!(g.value_at(&vec![2usize]).unwrap(), expect2);
    assert_eq!(g.value_at(&vec![3usize]).unwrap(), expect3);
    // boundary untouched
    assert_eq!(g.value_at(&vec![0usize]).unwrap(), 0);
    assert_eq!(g.value_at(&vec![4usize]).unwrap(), 0);
    // the pre-step field became `previous`
    assert_eq!(g.previous, vec![0, v1, v2, v3, 0]);
}

/// One diffusion step: `delta_t / delta_x^2 = 0.4 = 2/5`, applied with
/// truncating integer division.
#[test]
fn one_step_diffusion_one_dimension() {
    let mut g = gaussian_grid(1, 5, IntegratorMode::Diffusion);
    let v1 = g.value_at(&vec![1usize]).unwrap();
    let v2 = g.value_at(&vec![2usize]).unwrap();
    let v3 = g.value_at(&vec![3usize]).unwrap();

    g.step();

    let diffuse = |cur: i64, lap: i64| {
        let tl = 2 * (lap as i128);
        let q = if tl >= 0 { tl / 5 } else { -((-tl) / 5) };
        (cur as i128 + q) as i64
    };
    assert_eq!(g.value_at(&vec![1usize]).unwrap(), diffuse(v1, v2 - 2 * v1));
    assert_eq!(g.value_at(&vec![2usize]).unwrap(), diffuse(v2, v3 - 2 * v2 + v1));
    assert_eq!(g.value_at(&vec![3usize]).unwrap(), diffuse(v3, v2 - 2 * v3));
    assert_eq!(g.value_at(&vec![0usize]).unwrap(), 0);
    assert_eq!(g.value_at(&vec![4usize]).unwrap(), 0);
}

/// Boundary values are never written by the integrator: after several
/// steps every boundary point still holds its initial value.
#[test]
fn boundary_untouched_by_steps() {
    let mut g = gaussian_grid(3, 5, IntegratorMode::Wave);
    let boundary = g.boundary_coordinates();
    let before: Vec<i64> = boundary.iter().map(|c| g.value_at(c).unwrap()).collect();
    for _ in 0..4 {
        g.step();
    }
    let after: Vec<i64> = boundary.iter().map(|c| g.value_at(c).unwrap()).collect();
    assert_eq!(before, after);
}

/// After one step, `previous` holds exactly the pre-step `current`.
#[test]
fn step_rotates_previous() {
    let mut g = gaussian_grid(2, 7, IntegratorMode::Wave);
    let cur0 = g.current.clone();
    g.step();
    assert_eq!(g.previous, cur0);
}

/// Amplitude smoke test for the wave form at Courant number 1: a bounded
/// number of steps does not drive any value far beyond the initial peak.
/// In one dimension, Courant number 1 is exactly the marginal-stability
/// edge, so the amplitude stays bounded; in two or more dimensions the same
/// time step exceeds the stability limit and round-off grows without bound,
/// so only the one-dimensional bound is tested.
#[test]
fn wave_amplitude_bound_smoke() {
    let mut g = gaussian_grid(1, 51, IntegratorMode::Wave);
    let peak0 = g.current.iter().map(|v| v.abs()).max().unwrap();
    assert_eq!(peak0, SCALE);
    for _ in 0..50 {
        g.step();
    }
    let peak = g.current.iter().map(|v| v.abs()).max().unwrap();
    assert!(
        peak as f64 <= 1.05 * peak0 as f64,
        "peak grew to {} from {}",
        peak,
        peak0
    );
}

/// The stencil is dimension-generic: one wave step in four dimensions
/// matches the update formula assembled from read values.
#[test]
fn one_step_wave_four_dimensions() {
    let n = 5usize;
    let mut g = gaussian_grid(4, n, IntegratorMode::Wave);
    let center = vec![2usize, 2, 2, 2];
    let before = |g: &Grid, c: &Vec<usize>| g.value_at(c).unwrap();
    let vc = before(&g, &center);
    let mut lap: i64 = 0;
    for axis in 0..4 {
        let mut plus = center.clone();
        plus[axis] += 1;
        let mut minus = center.clone();
        minus[axis] -= 1;
        lap += before(&g, &plus) - 2 * vc + before(&g, &minus);
    }
    // zero initial velocity: previous == current
    let expected = 2 * vc - vc + lap;
    g.step();
    assert_eq!(g.value_at(&center).unwrap(), expected);
}
