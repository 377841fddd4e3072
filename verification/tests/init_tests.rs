use wavegrid::driver::DEFAULT_AMPLITUDE_SCALE;
use wavegrid::fixed::SCALE;
use wavegrid::grid::Grid;
use wavegrid::grid::IntegratorMode;

fn gaussian_grid(d: usize, n: usize) -> Grid {
    let mut g = Grid::create(d, n, IntegratorMode::Wave).unwrap();
    g.apply_gaussian(DEFAULT_AMPLITUDE_SCALE);
    g
}

/// Expected profile value as a real number, for comparison within
/// floating-point tolerance.
fn expected_gauss(c: &[usize], n: usize) -> f64 {
    let m = (n - 1) as f64;
    let sum_sq: f64 = c
        .iter()
        .map(|&ci| {
            let x = -1.0 + 2.0 * ci as f64 / m;
            x * x
        })
        .sum();
    (DEFAULT_AMPLITUDE_SCALE as f64 * sum_sq).exp()
}

/// The center of an odd grid sits at the physical origin, where the profile
/// is exactly `exp(0) = 1`.
#[test]
fn gaussian_center_is_exactly_one() {
    for d in 1..=4usize {
        let g = gaussian_grid(d, 5);
        let center = vec![2usize; d];
        assert_eq!(g.value_at(&center).unwrap(), SCALE);
    }
}

/// The axis-aligned boundary points actually zeroed carry exactly 0; the
/// rest of the boundary keeps its Gaussian value (the documented partial
/// zeroing).
#[test]
fn gaussian_partial_boundary_zeroing() {
    let n = 5usize;
    let g = gaussian_grid(3, n);
    for i in 0..n {
        assert_eq!(g.value_at(&vec![i, 0, 0]).unwrap(), 0);
        assert_eq!(g.value_at(&vec![0, i, 0]).unwrap(), 0);
        assert_eq!(g.value_at(&vec![0, 0, i]).unwrap(), 0);
    }
    // a boundary point off the axes is NOT zeroed; with the default decay
    // its value underflows the fixed-point resolution, so a gentle decay
    // makes the distinction visible
    let mut soft = Grid::create(3, n, IntegratorMode::Wave).unwrap();
    soft.apply_gaussian(-1);
    let v = soft.value_at(&vec![4usize, 2, 2]).unwrap();
    assert!(v > 0);
    assert!((v as f64 / SCALE as f64 - (-1.0f64).exp()).abs() < 1e-7);
    assert_eq!(soft.value_at(&vec![4usize, 0, 0]).unwrap(), 0);
}

/// In one dimension only the two endpoints are zeroed.
#[test]
fn gaussian_one_dimension_endpoints() {
    let n = 5usize;
    let g = gaussian_grid(1, n);
    assert_eq!(g.value_at(&vec![0usize]).unwrap(), 0);
    assert_eq!(g.value_at(&vec![4usize]).unwrap(), 0);
    for i in 1..=3usize {
        let v = g.value_at(&vec![i]).unwrap();
        assert!(v > 0);
        let expected = expected_gauss(&[i], n);
        assert!((v as f64 / SCALE as f64 - expected).abs() < 1e-7);
    }
}

/// `current` and `previous` are identical after initialization (zero
/// initial velocity), and `scratch` matches too.
#[test]
fn gaussian_fills_all_three_buffers_identically() {
    let g = gaussian_grid(2, 7);
    assert_eq!(g.current, g.previous);
    assert_eq!(g.current, g.scratch);
}

/// Radial symmetry: a coordinate and its reflection through the domain
/// center carry the same value, wherever the partial boundary zeroing
/// treats both alike.  A gentle decay keeps boundary values visibly
/// nonzero, so the documented asymmetry of the zeroing shows as well.
#[test]
fn gaussian_reflection_symmetry() {
    let n = 7usize;
    let mut g = Grid::create(2, n, IntegratorMode::Wave).unwrap();
    g.apply_gaussian(-1);
    for i in 0..n {
        for j in 0..n {
            let c = vec![i, j];
            let rc = vec![n - 1 - i, n - 1 - j];
            let zeroed = |c: &Vec<usize>| {
                let boundary = c.iter().any(|&x| x == 0 || x == n - 1);
                let nonzero = c.iter().filter(|&&x| x != 0).count();
                boundary && nonzero <= 1
            };
            if zeroed(&c) == zeroed(&rc) {
                assert_eq!(g.value_at(&c).unwrap(), g.value_at(&rc).unwrap());
            }
        }
    }
    // the documented asymmetry: (2, 0) is zeroed, its reflection (4, 6)
    // keeps its Gaussian value
    assert_eq!(g.value_at(&vec![2usize, 0]).unwrap(), 0);
    assert!(g.value_at(&vec![4usize, 6]).unwrap() > 0);
}

/// The fixed-point profile tracks `exp(amplitude_scale * sum x_i^2)` at a
/// generic interior point.
#[test]
fn gaussian_matches_exponential() {
    let n = 9usize;
    let g = gaussian_grid(2, n);
    for i in 1..n - 1 {
        for j in 1..n - 1 {
            let v = g.value_at(&vec![i, j]).unwrap();
            let expected = expected_gauss(&[i, j], n);
            assert!((v as f64 / SCALE as f64 - expected).abs() < 1e-7);
        }
    }
}
