//! The stencil integrator: one explicit finite-difference time step.
//!
//! For every interior coordinate the discrete Laplacian is the sum over the
//! axes of `field[c + e_a] - 2 * field[c] + field[c - e_a]`.  The wave
//! (three-level leapfrog) update writes
//! `2 * current[c] - previous[c] + laplacian` and the diffusion (two-level)
//! update writes `current[c] + (2/5) * laplacian` into `scratch`; the exact
//! coefficients come from the time-step rules `delta_t = delta_x` (so
//! `delta_t^2 / delta_x^2 = 1`) and `delta_t = 0.4 * delta_x^2` (so
//! `delta_t / delta_x^2 = 2/5`).  After the sweep the buffers rotate in
//! O(1): `previous <- current`, `current <- scratch`.  Boundary points are
//! never updated; a result outside the `i64` range saturates silently:
//! numerical blow-up is a data-quality failure for the caller to detect by
//! inspecting sampled values, not an error the integrator raises.

use vstd::prelude::*;

verus! {

use crate::index::npow;
use crate::index::index_of;
use crate::index::coord_of;
use crate::index::valid_coord;
use crate::index::is_interior;
use crate::index::checked_npow;
use crate::index::index_to_coord;
use crate::index::coord_to_index;
use crate::grid::Grid;
use crate::grid::IntegratorMode;
use crate::grid::coord_is_interior;

/// Saturation of a mathematical result into the `i64` range.
pub open spec fn clip(x: int) -> int {
    if x < i64::MIN {
        i64::MIN as int
    } else if x > i64::MAX {
        i64::MAX as int
    } else {
        x
    }
}

/// Division by 5 truncating toward zero, as the executable update computes
/// it.
pub open spec fn trunc_div5(x: int) -> int {
    if x >= 0 {
        x / 5
    } else {
        -((-x) / 5)
    }
}

/// The coordinate one point along axis `a` (`delta` is +1 or -1).
pub open spec fn axis_step(c: Seq<usize>, a: int, delta: int) -> Seq<usize> {
    c.update(a, (c[a] + delta) as usize)
}

/// The discrete Laplacian at `c` restricted to the first `a` axes.
pub open spec fn lap_upto(field: Seq<i64>, c: Seq<usize>, n: nat, a: nat) -> int
    decreases a,
{
    if a == 0 {
        0
    } else {
        lap_upto(field, c, n, (a - 1) as nat) + field[index_of(axis_step(c, a - 1, 1), n) as int]
            - 2 * field[index_of(c, n) as int] + field[index_of(axis_step(c, a - 1, -1), n) as int]
    }
}

/// The full discrete Laplacian at `c`.
pub open spec fn laplacian(field: Seq<i64>, c: Seq<usize>, n: nat, d: nat) -> int {
    lap_upto(field, c, n, d)
}

/// The value one step writes at interior coordinate `c`.
pub open spec fn next_value(
    mode: IntegratorMode,
    cur: Seq<i64>,
    prev: Seq<i64>,
    c: Seq<usize>,
    n: nat,
    d: nat,
) -> int {
    let k = index_of(c, n) as int;
    let lap = laplacian(cur, c, n, d);
    match mode {
        IntegratorMode::Wave => clip(2 * cur[k] - prev[k] + lap),
        IntegratorMode::Diffusion => clip(cur[k] + trunc_div5(2 * lap)),
    }
}

/// The whole field after one step: interior points are updated, all other
/// points keep their value.
pub open spec fn step_field(
    mode: IntegratorMode,
    cur: Seq<i64>,
    prev: Seq<i64>,
    n: nat,
    d: nat,
) -> Seq<i64> {
    Seq::new(
        cur.len(),
        |k: int|
            if is_interior(coord_of(k as nat, d, n), n) {
                next_value(mode, cur, prev, coord_of(k as nat, d, n), n, d) as i64
            } else {
                cur[k]
            },
    )
}

/// The state `(current, previous)` after `t` steps.
pub open spec fn sim(
    mode: IntegratorMode,
    cur: Seq<i64>,
    prev: Seq<i64>,
    n: nat,
    d: nat,
    t: nat,
) -> (Seq<i64>, Seq<i64>)
    decreases t,
{
    if t == 0 {
        (cur, prev)
    } else {
        sim(mode, step_field(mode, cur, prev, n, d), cur, n, d, (t - 1) as nat)
    }
}

/// Running zero steps leaves `current` and `previous` unchanged.
pub proof fn lemma_sim_zero_steps(
    mode: IntegratorMode,
    cur: Seq<i64>,
    prev: Seq<i64>,
    n: nat,
    d: nat,
)
    ensures
        sim(mode, cur, prev, n, d, 0) == (cur, prev),
{
}

/// Unrolling one step at the end: `t + 1` steps are `t` steps followed by
/// one application of `step_field`.
pub proof fn lemma_sim_snoc(
    mode: IntegratorMode,
    cur: Seq<i64>,
    prev: Seq<i64>,
    n: nat,
    d: nat,
    t: nat,
)
    ensures
        sim(mode, cur, prev, n, d, t + 1) == (
            step_field(mode, sim(mode, cur, prev, n, d, t).0, sim(mode, cur, prev, n, d, t).1, n, d),
            sim(mode, cur, prev, n, d, t).0,
        ),
    decreases t,
{
    let stepped = step_field(mode, cur, prev, n, d);
    assert(sim(mode, cur, prev, n, d, t + 1) == sim(mode, stepped, cur, n, d, t));
    if t > 0 {
        lemma_sim_snoc(mode, stepped, cur, n, d, (t - 1) as nat);
        assert(sim(mode, cur, prev, n, d, t) == sim(mode, stepped, cur, n, d, (t - 1) as nat));
    }
}

/// Boundary values are never touched: any point that is not interior keeps
/// its initial value through any number of steps.
pub proof fn lemma_sim_boundary_fixed(
    mode: IntegratorMode,
    cur: Seq<i64>,
    prev: Seq<i64>,
    n: nat,
    d: nat,
    t: nat,
    k: int,
)
    requires
        0 <= k < cur.len(),
        !is_interior(coord_of(k as nat, d, n), n),
    ensures
        sim(mode, cur, prev, n, d, t).0.len() == cur.len(),
        sim(mode, cur, prev, n, d, t).0[k] == cur[k],
    decreases t,
{
    if t > 0 {
        let stepped = step_field(mode, cur, prev, n, d);
        assert(stepped[k] == cur[k]);
        lemma_sim_boundary_fixed(mode, stepped, cur, n, d, (t - 1) as nat, k);
    }
}

/// The partial Laplacian of `i64` data over at most `a` axes is bounded by
/// `a` times four `i64` magnitudes.
proof fn lemma_lap_upto_bound(field: Seq<i64>, c: Seq<usize>, n: nat, a: nat)
    ensures
        -(a as int) * 4 * 0x8000_0000_0000_0000 <= lap_upto(field, c, n, a) <= (a as int) * 4
            * 0x8000_0000_0000_0000,
    decreases a,
{
    if a > 0 {
        lemma_lap_upto_bound(field, c, n, (a - 1) as nat);
        assert((a as int) * 4 * 0x8000_0000_0000_0000 == ((a - 1) as int) * 4
            * 0x8000_0000_0000_0000 + 4 * 0x8000_0000_0000_0000) by (nonlinear_arith);
        assert(-(a as int) * 4 * 0x8000_0000_0000_0000 == -((a - 1) as int) * 4
            * 0x8000_0000_0000_0000 - 4 * 0x8000_0000_0000_0000) by (nonlinear_arith);
    }
}

impl Grid {
    /// Advances the field by one time step: every interior point receives
    /// the update of the selected mode computed from the pre-step `current`
    /// and `previous`, every other point keeps its `current` value, and the
    /// pre-step `current` becomes `previous`.  Boundary values are never
    /// touched.
    pub fn step(&mut self)
        requires
            old(self).wf(),
        ensures
            final(self).wf(),
            final(self).dimensionality == old(self).dimensionality,
            final(self).num_grid == old(self).num_grid,
            final(self).mode == old(self).mode,
            final(self).current@ == step_field(
                old(self).mode,
                old(self).current@,
                old(self).previous@,
                old(self).num_grid as nat,
                old(self).dimensionality as nat,
            ),
            final(self).previous@ == old(self).current@,
    {
        let d = self.dimensionality;
        let n = self.num_grid;
        let total = checked_npow(n, d);
        let ghost target = step_field(
            self.mode,
            self.current@,
            self.previous@,
            n as nat,
            d as nat,
        );
        let mut k: usize = 0;
        while k < total
            invariant
                k <= total,
                n >= 3,
                1 <= d <= 4,
                total == npow(n as nat, d as nat),
                total <= usize::MAX,
                self.dimensionality == d,
                self.num_grid == n,
                self.mode == old(self).mode,
                self.current@ == old(self).current@,
                self.previous@ == old(self).previous@,
                self.current@.len() == total,
                self.previous@.len() == total,
                self.scratch@.len() == total,
                target == step_field(
                    self.mode,
                    self.current@,
                    self.previous@,
                    n as nat,
                    d as nat,
                ),
                forall|j: int| 0 <= j < k ==> self.scratch@[j] == target[j],
            decreases total - k,
        {
            let c = index_to_coord(k, d, n);
            proof {
                crate::index::lemma_coord_of_index(k as nat, d as nat, n as nat);
            }
            let v: i64 = if coord_is_interior(&c, n) {
                self.stencil_value(&c, k)
            } else {
                self.current[k]
            };
            self.scratch.set(k, v);
            k = k + 1;
        }
        proof {
            assert(self.scratch@ =~= target);
        }
        core::mem::swap(&mut self.previous, &mut self.current);
        core::mem::swap(&mut self.current, &mut self.scratch);
    }

    /// The updated value at one interior coordinate `c` with flat offset
    /// `k`, computed in `i128` and saturated into `i64`.
    fn stencil_value(&self, c: &Vec<usize>, k: usize) -> (v: i64)
        requires
            self.wf(),
            self.coord_ok(c@),
            is_interior(c@, self.num_grid as nat),
            k == index_of(c@, self.num_grid as nat),
        ensures
            v as int == next_value(
                self.mode,
                self.current@,
                self.previous@,
                c@,
                self.num_grid as nat,
                self.dimensionality as nat,
            ),
    {
        let d = self.dimensionality;
        let n = self.num_grid;
        proof {
            crate::index::lemma_index_of_bound(c@, d as nat, n as nat);
        }
        let mut nb = copy_coord(c);
        let mut lap: i128 = 0;
        let mut a: usize = 0;
        while a < d
            invariant
                a <= d,
                self.wf(),
                self.dimensionality == d,
                self.num_grid == n,
                self.coord_ok(c@),
                is_interior(c@, n as nat),
                k == index_of(c@, n as nat),
                k < self.current@.len(),
                nb@ == c@,
                lap == lap_upto(self.current@, c@, n as nat, a as nat),
                -(a as int) * 4 * 0x8000_0000_0000_0000 <= lap <= (a as int) * 4
                    * 0x8000_0000_0000_0000,
            decreases d - a,
        {
            let ca = nb[a];
            nb.set(a, ca + 1);
            proof {
                assert(nb@ =~= axis_step(c@, a as int, 1));
                assert(valid_coord(nb@, d as nat, n as nat));
            }
            let kp = coord_to_index(&nb, d, n);
            nb.set(a, ca - 1);
            proof {
                assert(nb@ =~= axis_step(c@, a as int, -1));
                assert(valid_coord(nb@, d as nat, n as nat));
            }
            let km = coord_to_index(&nb, d, n);
            nb.set(a, ca);
            proof {
                assert(nb@ =~= c@);
                assert(((a + 1) as int) * 4 * 0x8000_0000_0000_0000 == (a as int) * 4
                    * 0x8000_0000_0000_0000 + 4 * 0x8000_0000_0000_0000) by (nonlinear_arith);
                assert(-((a + 1) as int) * 4 * 0x8000_0000_0000_0000 == -(a as int) * 4
                    * 0x8000_0000_0000_0000 - 4 * 0x8000_0000_0000_0000) by (nonlinear_arith);
            }
            lap = lap + self.current[kp] as i128 - 2 * (self.current[k] as i128)
                + self.current[km] as i128;
            a = a + 1;
        }
        let cur_k: i128 = self.current[k] as i128;
        let raw: i128 = match self.mode {
            IntegratorMode::Wave => {
                let prev_k: i128 = self.previous[k] as i128;
                2 * cur_k - prev_k + lap
            },
            IntegratorMode::Diffusion => {
                let tl: i128 = 2 * lap;
                let q: i128 = if tl >= 0 {
                    ((tl as u128) / 5) as i128
                } else {
                    -(((-tl) as u128 / 5) as i128)
                };
                cur_k + q
            },
        };
        if raw < i64::MIN as i128 {
            i64::MIN
        } else if raw > i64::MAX as i128 {
            i64::MAX
        } else {
            raw as i64
        }
    }
}

/// Elementwise copy of a coordinate vector.
fn copy_coord(src: &Vec<usize>) -> (r: Vec<usize>)
    ensures
        r@ == src@,
{
    let mut r: Vec<usize> = Vec::new();
    let mut i: usize = 0;
    let len = src.len();
    while i < len
        invariant
            i <= len,
            len == src@.len(),
            r@ == src@.subrange(0, i as int),
        decreases len - i,
    {
        let x = src[i];
        r.push(x);
        proof {
            assert(r@ =~= src@.subrange(0, (i + 1) as int));
        }
        i = i + 1;
    }
    proof {
        assert(src@.subrange(0, len as int) =~= src@);
    }
    r
}

} // verus!
