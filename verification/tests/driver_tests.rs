use wavegrid::driver::run;
use wavegrid::driver::DEFAULT_AMPLITUDE_SCALE;
use wavegrid::grid::Grid;
use wavegrid::grid::IntegratorMode;
use wavegrid::grid::SimError;

/// `run(dimensionality=2, num_grid=11, num_snapshots=5, steps_per_snapshot=3)`
/// emits exactly 5 samples with times `0, 3*dt, 6*dt, 9*dt, 12*dt`.
#[test]
fn run_emits_snapshots_at_sampled_times() {
    let samples = run(2, 11, IntegratorMode::Wave, 5, 3).unwrap();
    assert_eq!(samples.len(), 5);
    // dt = 2/10 = 0.2
    for (j, s) in samples.iter().enumerate() {
        assert_eq!(s.dimensionality, 2);
        assert_eq!(s.num_grid, 11);
        assert_eq!(s.field.len(), 121);
        assert_eq!(s.time.num, 2 * (j as u128) * 3);
        assert_eq!(s.time.den, 10);
        let t = s.time.num as f64 / s.time.den as f64;
        assert!((t - 0.6 * j as f64).abs() < 1e-12);
    }
}

/// The samples agree with stepping a grid by hand: sample `j` is the field
/// after `j * steps_per_snapshot` steps from the Gaussian initial state.
#[test]
fn run_matches_manual_stepping() {
    let samples = run(1, 9, IntegratorMode::Wave, 4, 2).unwrap();
    let mut g = Grid::create(1, 9, IntegratorMode::Wave).unwrap();
    g.apply_gaussian(DEFAULT_AMPLITUDE_SCALE);
    for s in &samples {
        assert_eq!(s.field, g.current);
        g.step();
        g.step();
    }
}

/// The first sample is the initial state itself (zero steps taken before
/// it).
#[test]
fn run_first_sample_is_initial_state() {
    let samples = run(2, 5, IntegratorMode::Diffusion, 1, 7).unwrap();
    assert_eq!(samples.len(), 1);
    assert_eq!(samples[0].time.num, 0);
    let mut g = Grid::create(2, 5, IntegratorMode::Diffusion).unwrap();
    g.apply_gaussian(DEFAULT_AMPLITUDE_SCALE);
    assert_eq!(samples[0].field, g.current);
}

#[test]
fn run_rejects_small_grids() {
    assert_eq!(
        run(3, 2, IntegratorMode::Wave, 4, 4).unwrap_err(),
        SimError::InvalidConfiguration
    );
}

/// Diffusion-mode sample times use `delta_t = 0.4 * delta_x^2`.
#[test]
fn run_diffusion_times() {
    let samples = run(1, 5, IntegratorMode::Diffusion, 3, 10).unwrap();
    // dt = 8/80 = 0.1
    for (j, s) in samples.iter().enumerate() {
        assert_eq!(s.time.num, 8 * (j as u128) * 10);
        assert_eq!(s.time.den, 80);
        let t = s.time.num as f64 / s.time.den as f64;
        assert!((t - j as f64).abs() < 1e-12);
    }
}

/// A sample's own bounds-checked accessor agrees with its row-major buffer.
#[test]
fn frame_sample_value_at() {
    let samples = run(2, 5, IntegratorMode::Wave, 2, 1).unwrap();
    let s = &samples[1];
    assert_eq!(s.value_at(&vec![1usize, 2]).unwrap(), s.field[1 * 5 + 2]);
    assert_eq!(
        s.value_at(&vec![5usize, 0]).unwrap_err(),
        SimError::IndexOutOfBounds
    );
}
