//! The simulation driver: builds and initializes a grid, then alternates
//! snapshot emission with integration steps.

use vstd::prelude::*;

verus! {

use crate::index::npow;
use crate::index::index_of;
use crate::index::valid_coord;
use crate::index::coord_to_index;
use crate::grid::Grid;
use crate::grid::check_coord;
use crate::grid::delta_t_of;
use crate::grid::IntegratorMode;
use crate::grid::Ratio;
use crate::grid::SimError;
use crate::grid::copy_field;
use crate::init::init_field;
use crate::integrator::sim;
use crate::integrator::lemma_sim_snoc;

/// The decay used by the driver's Gaussian initial condition.
pub const DEFAULT_AMPLITUDE_SCALE: i64 = -40;

/// A captured scalar field at one simulation time: the sole artifact handed
/// to the rendering collaborator.  The field is an owned row-major copy of
/// `current` at capture time.
#[derive(Debug)]
pub struct FrameSample {
    /// Simulation time of the capture, exactly
    /// `snapshot_index * steps_per_snapshot * delta_t`.
    pub time: Ratio,
    /// Row-major copy of the field at capture time.
    pub field: Vec<i64>,
    /// Grid points per axis.
    pub num_grid: usize,
    /// Number of spatial dimensions.
    pub dimensionality: usize,
}

impl FrameSample {
    /// Shape invariant: a supported dimensionality and a field buffer of
    /// exactly `num_grid^D` values.
    pub open spec fn wf(self) -> bool {
        &&& 1 <= self.dimensionality <= 4
        &&& self.num_grid >= 3
        &&& npow(self.num_grid as nat, self.dimensionality as nat) <= usize::MAX
        &&& self.field@.len() == npow(self.num_grid as nat, self.dimensionality as nat)
    }

    /// Bounds-checked read of the captured field at a coordinate.
    pub fn value_at(&self, coordinate: &Vec<usize>) -> (r: Result<i64, SimError>)
        requires
            self.wf(),
        ensures
            match r {
                Ok(v) => valid_coord(
                    coordinate@,
                    self.dimensionality as nat,
                    self.num_grid as nat,
                ) && v == self.field@[index_of(coordinate@, self.num_grid as nat) as int],
                Err(e) => e == SimError::IndexOutOfBounds && !valid_coord(
                    coordinate@,
                    self.dimensionality as nat,
                    self.num_grid as nat,
                ),
            },
    {
        if !check_coord(coordinate, self.dimensionality, self.num_grid) {
            return Err(SimError::IndexOutOfBounds);
        }
        let k = coord_to_index(coordinate, self.dimensionality, self.num_grid);
        Ok(self.field[k])
    }
}

/// What `run` promises of the sample at position `j`.
pub open spec fn sample_ok(
    s: FrameSample,
    j: int,
    dimensionality: nat,
    num_grid: nat,
    mode: IntegratorMode,
    steps_per_snapshot: nat,
    dt: Ratio,
) -> bool {
    let f0 = init_field(dimensionality, num_grid, DEFAULT_AMPLITUDE_SCALE as int);
    &&& s.wf()
    &&& s.dimensionality == dimensionality
    &&& s.num_grid == num_grid
    &&& s.time.num == dt.num * j * steps_per_snapshot
    &&& s.time.den == dt.den
    &&& s.field@ == sim(
        mode,
        f0,
        f0,
        num_grid,
        dimensionality,
        (j * steps_per_snapshot) as nat,
    ).0
}

/// Constructs and Gaussian-initializes a grid, then emits exactly
/// `num_snapshots` samples in increasing time order, advancing the field by
/// `steps_per_snapshot` integration steps between consecutive samples.
/// Sample `j` carries time `j * steps_per_snapshot * delta_t` and the field
/// after `j * steps_per_snapshot` steps.  Fails with `InvalidConfiguration`
/// exactly when `num_grid < 3`.
pub fn run(
    dimensionality: usize,
    num_grid: usize,
    mode: IntegratorMode,
    num_snapshots: usize,
    steps_per_snapshot: usize,
) -> (r: Result<Vec<FrameSample>, SimError>)
    requires
        1 <= dimensionality <= 4,
        num_grid >= 3 ==> npow(num_grid as nat, dimensionality as nat) <= usize::MAX,
        mode == IntegratorMode::Diffusion ==> 5 * ((num_grid - 1) as int) * ((num_grid - 1) as int)
            <= u128::MAX,
        (num_snapshots as int) * (steps_per_snapshot as int) * 8 <= u128::MAX,
    ensures
        match r {
            Ok(samples) => {
                &&& num_grid >= 3
                &&& samples@.len() == num_snapshots
                &&& forall|j: int|
                    0 <= j < num_snapshots ==> sample_ok(
                        #[trigger] samples@[j],
                        j,
                        dimensionality as nat,
                        num_grid as nat,
                        mode,
                        steps_per_snapshot as nat,
                        delta_t_of(mode, num_grid as nat),
                    )
            },
            Err(e) => e == SimError::InvalidConfiguration && num_grid < 3,
        },
{
    let mut grid = match Grid::create(dimensionality, num_grid, mode) {
        Ok(g) => g,
        Err(e) => {
            return Err(e);
        },
    };
    grid.apply_gaussian(DEFAULT_AMPLITUDE_SCALE);
    let ghost f0 = grid.current@;
    let dt = grid.delta_t();
    proof {
        assert(dt == delta_t_of(mode, num_grid as nat));
        assert(sim(mode, f0, f0, num_grid as nat, dimensionality as nat, 0) == (f0, f0));
    }
    let mut samples: Vec<FrameSample> = Vec::new();
    let mut j: usize = 0;
    while j < num_snapshots
        invariant
            j <= num_snapshots,
            grid.wf(),
            grid.dimensionality == dimensionality,
            grid.num_grid == num_grid,
            grid.mode == mode,
            1 <= dimensionality <= 4,
            num_grid >= 3,
            (num_snapshots as int) * (steps_per_snapshot as int) * 8 <= u128::MAX,
            dt == delta_t_of(mode, num_grid as nat),
            dt.num <= 8,
            f0 == init_field(dimensionality as nat, num_grid as nat, DEFAULT_AMPLITUDE_SCALE as int),
            grid.current@ == sim(
                mode,
                f0,
                f0,
                num_grid as nat,
                dimensionality as nat,
                (j * steps_per_snapshot) as nat,
            ).0,
            grid.previous@ == sim(
                mode,
                f0,
                f0,
                num_grid as nat,
                dimensionality as nat,
                (j * steps_per_snapshot) as nat,
            ).1,
            samples@.len() == j,
            forall|i: int|
                0 <= i < j ==> sample_ok(
                    #[trigger] samples@[i],
                    i,
                    dimensionality as nat,
                    num_grid as nat,
                    mode,
                    steps_per_snapshot as nat,
                    dt,
                ),
        decreases num_snapshots - j,
    {
        proof {
            assert((j as int) * (steps_per_snapshot as int) <= (num_snapshots as int) * (
            steps_per_snapshot as int)) by (nonlinear_arith)
                requires 0 <= j <= num_snapshots, steps_per_snapshot >= 0;
            assert((num_snapshots as int) * (steps_per_snapshot as int) * 8 >= (num_snapshots as int)
                * (steps_per_snapshot as int)) by (nonlinear_arith)
                requires num_snapshots >= 0, steps_per_snapshot >= 0;
            assert(dt.num * ((j as int) * (steps_per_snapshot as int)) <= 8 * ((num_snapshots as int)
                * (steps_per_snapshot as int))) by (nonlinear_arith)
                requires
                    0 <= dt.num <= 8,
                    0 <= (j as int) * (steps_per_snapshot as int) <= (num_snapshots as int) * (
                    steps_per_snapshot as int);
            assert(8 * ((num_snapshots as int) * (steps_per_snapshot as int)) == (
            num_snapshots as int) * (steps_per_snapshot as int) * 8) by (nonlinear_arith);
        }
        let ticks: u128 = (j as u128) * (steps_per_snapshot as u128);
        let sample = FrameSample {
            time: Ratio { num: dt.num * ticks, den: dt.den },
            field: copy_field(&grid.current),
            num_grid,
            dimensionality,
        };
        samples.push(sample);
        proof {
            assert(dt.num * (j as int) * (steps_per_snapshot as int) == dt.num * ((j as int) * (
            steps_per_snapshot as int))) by (nonlinear_arith);
            assert(sample_ok(
                samples@[j as int],
                j as int,
                dimensionality as nat,
                num_grid as nat,
                mode,
                steps_per_snapshot as nat,
                dt,
            ));
        }
        let mut s: usize = 0;
        while s < steps_per_snapshot
            invariant
                s <= steps_per_snapshot,
                j < num_snapshots,
                grid.wf(),
                grid.dimensionality == dimensionality,
                grid.num_grid == num_grid,
                grid.mode == mode,
                grid.current@ == sim(
                    mode,
                    f0,
                    f0,
                    num_grid as nat,
                    dimensionality as nat,
                    ((j * steps_per_snapshot) as nat + s as nat),
                ).0,
                grid.previous@ == sim(
                    mode,
                    f0,
                    f0,
                    num_grid as nat,
                    dimensionality as nat,
                    ((j * steps_per_snapshot) as nat + s as nat),
                ).1,
            decreases steps_per_snapshot - s,
        {
            proof {
                lemma_sim_snoc(
                    mode,
                    f0,
                    f0,
                    num_grid as nat,
                    dimensionality as nat,
                    ((j * steps_per_snapshot) as nat + s as nat),
                );
            }
            grid.step();
            s = s + 1;
        }
        proof {
            assert((j + 1) as int * (steps_per_snapshot as int) == (j as int) * (
            steps_per_snapshot as int) + steps_per_snapshot) by (nonlinear_arith);
        }
        j = j + 1;
    }
    Ok(samples)
}

} // verus!
