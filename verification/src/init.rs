//! The initializer: fills the field with a Gaussian bump centered at the
//! domain origin and zeroes part of the boundary.
//!
//! The boundary zeroing is deliberately partial: only boundary points with
//! at most one nonzero index component (the lines through index origin along
//! each axis, and in one dimension just the two endpoints) are forced to 0,
//! not the full boundary hyperface.  This narrowing of true Dirichlet
//! conditions to the axes is this solver's defined behavior; the Gaussian
//! decays so fast toward the boundary that the remaining hyperface values
//! are negligible (and below the fixed-point resolution at the default
//! decay), but the asymmetry is visible at gentle decays.

use vstd::prelude::*;

verus! {

use crate::index::npow;
use crate::index::coord_of;
use crate::index::index_of;
use crate::index::valid_coord;
use crate::index::is_boundary;
use crate::index::checked_npow;
use crate::index::index_to_coord;
use crate::index::lemma_index_of_coord;
use crate::index::lemma_index_of_bound;
use crate::fixed::gauss_fp;
use crate::fixed::gauss_value;
use crate::fixed::reflect;
use crate::fixed::lemma_gauss_fp_reflect;
use crate::grid::Grid;
use crate::grid::coord_is_boundary;
use crate::grid::copy_field;

/// No two components are both nonzero.
pub open spec fn at_most_one_nonzero(c: Seq<usize>) -> bool {
    forall|i: int, j: int|
        0 <= i < j < c.len() ==> (#[trigger] c[i] == 0 || #[trigger] c[j] == 0)
}

/// The boundary points that the initializer forces to 0: boundary points
/// lying on an axis through the index origin (at most one component
/// nonzero).
pub open spec fn axis_zeroed(c: Seq<usize>, n: nat) -> bool {
    is_boundary(c, n) && at_most_one_nonzero(c)
}

/// The field value the initializer leaves at flat offset `k`.
pub open spec fn init_value(k: int, d: nat, n: nat, amplitude_scale: int) -> i64 {
    let c = coord_of(k as nat, d, n);
    if axis_zeroed(c, n) {
        0i64
    } else {
        gauss_fp(c, n, amplitude_scale) as i64
    }
}

/// The whole initialized field, in row-major order.
pub open spec fn init_field(d: nat, n: nat, amplitude_scale: int) -> Seq<i64> {
    Seq::new(npow(n, d), |k: int| init_value(k, d, n, amplitude_scale))
}

impl Grid {
    /// Sets every grid point to the Gaussian profile
    /// `exp(amplitude_scale * sum_i x_i^2)` at its physical coordinates,
    /// then forces the axis-aligned boundary points (see `axis_zeroed`) to
    /// 0.  `current` and `previous` receive identical values, so the initial
    /// velocity is exactly zero; `scratch` is made identical as well.
    pub fn apply_gaussian(&mut self, amplitude_scale: i64)
        requires
            old(self).wf(),
            amplitude_scale <= 0,
        ensures
            final(self).wf(),
            final(self).dimensionality == old(self).dimensionality,
            final(self).num_grid == old(self).num_grid,
            final(self).mode == old(self).mode,
            final(self).current@ == init_field(
                old(self).dimensionality as nat,
                old(self).num_grid as nat,
                amplitude_scale as int,
            ),
            final(self).previous@ == final(self).current@,
            final(self).scratch@ == final(self).current@,
    {
        let d = self.dimensionality;
        let n = self.num_grid;
        let total = checked_npow(n, d);
        let ghost target = init_field(d as nat, n as nat, amplitude_scale as int);
        let mut k: usize = 0;
        while k < total
            invariant
                k <= total,
                n >= 3,
                1 <= d <= 4,
                total == npow(n as nat, d as nat),
                self.dimensionality == d,
                self.num_grid == n,
                self.mode == old(self).mode,
                self.current@.len() == total,
                self.previous@ == old(self).previous@,
                self.scratch@ == old(self).scratch@,
                old(self).wf(),
                amplitude_scale <= 0,
                target == init_field(d as nat, n as nat, amplitude_scale as int),
                forall|j: int| 0 <= j < k ==> self.current@[j] == target[j],
            decreases total - k,
        {
            let c = index_to_coord(k, d, n);
            let v = if coord_is_axis_zeroed(&c, n) {
                0i64
            } else {
                gauss_value(&c, n, amplitude_scale)
            };
            self.current.set(k, v);
            k = k + 1;
        }
        self.previous = copy_field(&self.current);
        self.scratch = copy_field(&self.current);
        proof {
            assert(self.current@ =~= target);
        }
    }
}

/// Index of the first nonzero component, or the length if all are zero.
fn first_nonzero(c: &Vec<usize>) -> (r: usize)
    ensures
        r <= c@.len(),
        forall|j: int| 0 <= j < r ==> c@[j] == 0,
        r < c@.len() ==> c@[r as int] != 0,
{
    let mut i: usize = 0;
    let len = c.len();
    while i < len
        invariant
            i <= len,
            len == c@.len(),
            forall|j: int| 0 <= j < i ==> c@[j] == 0,
        decreases len - i,
    {
        if c[i] != 0 {
            return i;
        }
        i = i + 1;
    }
    len
}

/// Run-time test of `axis_zeroed`.
pub fn coord_is_axis_zeroed(c: &Vec<usize>, n: usize) -> (b: bool)
    requires
        n >= 1,
    ensures
        b == axis_zeroed(c@, n as nat),
{
    if !coord_is_boundary(c, n) {
        return false;
    }
    let f = first_nonzero(c);
    let len = c.len();
    if f == len {
        return true;
    }
    let mut j: usize = f + 1;
    while j < len
        invariant
            f < j <= len,
            len == c@.len(),
            c@[f as int] != 0,
            forall|i: int| 0 <= i < f ==> c@[i] == 0,
            forall|i: int| f < i < j ==> c@[i] == 0,
        decreases len - j,
    {
        if c[j] != 0 {
            proof {
                assert(!(c@[f as int] == 0 || c@[j as int] == 0));
            }
            return false;
        }
        j = j + 1;
    }
    proof {
        assert forall|a: int, b: int|
            0 <= a < b < c@.len() implies (c@[a] == 0 || c@[b] == 0) by {
            if b < f {
            } else if b == f {
            } else {
            }
        }
    }
    true
}

/// The initial field at any valid coordinate: 0 at the axis-aligned
/// boundary points that are zeroed, the Gaussian profile everywhere else.
pub proof fn lemma_init_field_at(c: Seq<usize>, d: nat, n: nat, amplitude_scale: int)
    requires
        1 <= n <= usize::MAX,
        valid_coord(c, d, n),
    ensures
        init_field(d, n, amplitude_scale)[index_of(c, n) as int] == if axis_zeroed(c, n) {
            0i64
        } else {
            gauss_fp(c, n, amplitude_scale) as i64
        },
{
    lemma_index_of_bound(c, d, n);
    lemma_index_of_coord(c, d, n);
}

/// The initializer leaves exactly 0 at every axis-aligned boundary point it
/// zeroes.
pub proof fn lemma_axis_zeroed_value(c: Seq<usize>, d: nat, n: nat, amplitude_scale: int)
    requires
        1 <= n <= usize::MAX,
        valid_coord(c, d, n),
        axis_zeroed(c, n),
    ensures
        init_field(d, n, amplitude_scale)[index_of(c, n) as int] == 0i64,
{
    lemma_init_field_at(c, d, n, amplitude_scale);
}

/// Radial symmetry of the initial condition: a coordinate and its
/// reflection through the domain center carry the same initial field value,
/// provided the partial boundary zeroing treats both points alike (it is
/// itself not symmetric: it zeroes points near the index origin only).
pub proof fn lemma_init_field_reflect(c: Seq<usize>, d: nat, n: nat, amplitude_scale: int)
    requires
        1 <= n <= usize::MAX,
        valid_coord(c, d, n),
        axis_zeroed(c, n) == axis_zeroed(reflect(c, n), n),
    ensures
        init_field(d, n, amplitude_scale)[index_of(c, n) as int] == init_field(
            d,
            n,
            amplitude_scale,
        )[index_of(reflect(c, n), n) as int],
{
    let rc = reflect(c, n);
    assert(valid_coord(rc, d, n));
    lemma_index_of_bound(c, d, n);
    lemma_index_of_coord(c, d, n);
    lemma_index_of_bound(rc, d, n);
    lemma_index_of_coord(rc, d, n);
    if !axis_zeroed(c, n) {
        lemma_gauss_fp_reflect(c, n, amplitude_scale);
    }
}

} // verus!
