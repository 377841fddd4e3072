//! The dense `D`-dimensional grid: metadata, the three field buffers, and
//! bounds-checked indexed access.

use vstd::prelude::*;

verus! {

use crate::index::npow;
use crate::index::index_of;
use crate::index::coord_of;
use crate::index::valid_coord;
use crate::index::is_interior;
use crate::index::is_boundary;
use crate::index::checked_npow;
use crate::index::lemma_coord_of_index;
use crate::index::lemma_index_of_coord;
use crate::index::index_to_coord;
use crate::index::coord_to_index;

/// A caller error detected at the offending call.
#[derive(Clone, Copy, Debug, PartialEq, Eq, Structural)]
pub enum SimError {
    /// The grid resolution is below the minimum of 3 points per axis.
    InvalidConfiguration,
    /// A coordinate component lies outside `[0, num_grid)`, or the
    /// coordinate has the wrong number of components.
    IndexOutOfBounds,
}

/// Which finite-difference update `step` applies.
#[derive(Clone, Copy, Debug, PartialEq, Eq, Structural)]
pub enum IntegratorMode {
    /// Three-level leapfrog update for the wave equation; `delta_t = delta_x`
    /// (Courant number 1).
    Wave,
    /// Two-level update for the diffusion equation;
    /// `delta_t = 0.4 * delta_x^2`.
    Diffusion,
}

/// An exact nonnegative rational, used for the grid spacing, the time step
/// and the sample times.
#[derive(Clone, Copy, Debug, PartialEq, Eq, Structural)]
pub struct Ratio {
    pub num: u128,
    pub den: u128,
}

/// The discretized scalar field over `[-1, 1]^D` sampled at `num_grid`
/// points per axis, held in three flat row-major buffers of `num_grid^D`
/// fixed-point values each.
#[derive(Debug)]
pub struct Grid {
    /// Number of spatial dimensions, between 1 and 4.
    pub dimensionality: usize,
    /// Grid points per axis, at least 3.
    pub num_grid: usize,
    /// Which update `step` applies; also fixes `delta_t`.
    pub mode: IntegratorMode,
    /// The field at the latest time level.
    pub current: Vec<i64>,
    /// The field one time level earlier.
    pub previous: Vec<i64>,
    /// Write target of the interior sweep, swapped into `current` after the
    /// sweep completes.
    pub scratch: Vec<i64>,
}

impl Grid {
    /// Total number of grid points, `num_grid^D`.
    pub open spec fn total(self) -> nat {
        npow(self.num_grid as nat, self.dimensionality as nat)
    }

    /// Structural invariant: supported dimensionality, at least one interior
    /// point per axis, and three equally-shaped buffers that fit in memory.
    pub open spec fn wf(self) -> bool {
        &&& 1 <= self.dimensionality <= 4
        &&& self.num_grid >= 3
        &&& self.total() <= usize::MAX
        &&& self.current@.len() == self.total()
        &&& self.previous@.len() == self.total()
        &&& self.scratch@.len() == self.total()
    }

    /// A coordinate that addresses this grid.
    pub open spec fn coord_ok(self, c: Seq<usize>) -> bool {
        valid_coord(c, self.dimensionality as nat, self.num_grid as nat)
    }

    /// Allocates a zero-filled grid.  Fails with `InvalidConfiguration`
    /// exactly when `num_grid < 3`.
    pub fn create(dimensionality: usize, num_grid: usize, mode: IntegratorMode) -> (r: Result<
        Grid,
        SimError,
    >)
        requires
            1 <= dimensionality <= 4,
            num_grid >= 3 ==> npow(num_grid as nat, dimensionality as nat) <= usize::MAX,
        ensures
            match r {
                Ok(g) => {
                    &&& num_grid >= 3
                    &&& g.wf()
                    &&& g.dimensionality == dimensionality
                    &&& g.num_grid == num_grid
                    &&& g.mode == mode
                    &&& forall|k: int| 0 <= k < g.total() ==> g.current@[k] == 0i64
                    &&& forall|k: int| 0 <= k < g.total() ==> g.previous@[k] == 0i64
                    &&& forall|k: int| 0 <= k < g.total() ==> g.scratch@[k] == 0i64
                },
                Err(e) => e == SimError::InvalidConfiguration && num_grid < 3,
            },
    {
        if num_grid < 3 {
            return Err(SimError::InvalidConfiguration);
        }
        let total = checked_npow(num_grid, dimensionality);
        Ok(Grid {
            dimensionality,
            num_grid,
            mode,
            current: zero_vec(total),
            previous: zero_vec(total),
            scratch: zero_vec(total),
        })
    }

    /// Uniform grid spacing `delta_x = 2 / (num_grid - 1)`, exactly.
    pub fn delta_x(&self) -> (r: Ratio)
        requires
            self.wf(),
        ensures
            r.num == 2,
            r.den == self.num_grid - 1,
    {
        Ratio { num: 2, den: (self.num_grid - 1) as u128 }
    }

    /// Time step per the stability rule of the selected mode, exactly:
    /// `delta_x` for the wave form (Courant number 1) and
    /// `0.4 * delta_x^2 = 8 / (5 * (num_grid - 1)^2)` for the diffusion form.
    pub fn delta_t(&self) -> (r: Ratio)
        requires
            self.wf(),
            self.mode == IntegratorMode::Diffusion ==> 5 * ((self.num_grid - 1) as int) * ((
            self.num_grid - 1) as int) <= u128::MAX,
        ensures
            r == self.delta_t_spec(),
            r.den >= 1,
    {
        let m = (self.num_grid - 1) as u128;
        match self.mode {
            IntegratorMode::Wave => Ratio { num: 2, den: m },
            IntegratorMode::Diffusion => {
                proof {
                    assert(m * m >= 1 && m * m * 5 >= 1 && m * m <= m * m * 5) by (nonlinear_arith)
                        requires m >= 1;
                    assert(m * m * 5 == 5 * (m as int) * (m as int)) by (nonlinear_arith);
                }
                Ratio { num: 8, den: m * m * 5 }
            },
        }
    }

    /// The exact time step as a rational.
    pub open spec fn delta_t_spec(self) -> Ratio {
        delta_t_of(self.mode, self.num_grid as nat)
    }

    /// Bounds-checked read of the field at a coordinate.
    pub fn value_at(&self, coordinate: &Vec<usize>) -> (r: Result<i64, SimError>)
        requires
            self.wf(),
        ensures
            match r {
                Ok(v) => self.coord_ok(coordinate@) && v == self.current@[index_of(
                    coordinate@,
                    self.num_grid as nat,
                ) as int],
                Err(e) => e == SimError::IndexOutOfBounds && !self.coord_ok(coordinate@),
            },
    {
        if !check_coord(coordinate, self.dimensionality, self.num_grid) {
            return Err(SimError::IndexOutOfBounds);
        }
        let k = coord_to_index(coordinate, self.dimensionality, self.num_grid);
        Ok(self.current[k])
    }

    /// Bounds-checked write of the field at a coordinate.  Only `current`
    /// is written; the other buffers and all other points are unchanged.
    pub fn set_value_at(&mut self, coordinate: &Vec<usize>, value: i64) -> (r: Result<
        (),
        SimError,
    >)
        requires
            old(self).wf(),
        ensures
            final(self).wf(),
            final(self).dimensionality == old(self).dimensionality,
            final(self).num_grid == old(self).num_grid,
            final(self).mode == old(self).mode,
            final(self).previous@ == old(self).previous@,
            final(self).scratch@ == old(self).scratch@,
            match r {
                Ok(()) => old(self).coord_ok(coordinate@) && final(self).current@ == old(
                    self,
                ).current@.update(index_of(coordinate@, old(self).num_grid as nat) as int, value),
                Err(e) => {
                    &&& e == SimError::IndexOutOfBounds
                    &&& !old(self).coord_ok(coordinate@)
                    &&& final(self).current@ == old(self).current@
                },
            },
    {
        if !check_coord(coordinate, self.dimensionality, self.num_grid) {
            return Err(SimError::IndexOutOfBounds);
        }
        let k = coord_to_index(coordinate, self.dimensionality, self.num_grid);
        self.current.set(k, value);
        Ok(())
    }

    /// Every coordinate whose components are all strictly between 0 and
    /// `num_grid - 1`, in row-major order: the update domain of `step`.
    pub fn interior_coordinates(&self) -> (r: Vec<Vec<usize>>)
        requires
            self.wf(),
        ensures
            ({
                let list = interior_coords_upto(
                    self.total(),
                    self.dimensionality as nat,
                    self.num_grid as nat,
                );
                &&& r@.len() == list.len()
                &&& forall|j: int| 0 <= j < r@.len() ==> (#[trigger] r@[j])@ == list[j]
            }),
    {
        let d = self.dimensionality;
        let n = self.num_grid;
        let total = checked_npow(n, d);
        let mut r: Vec<Vec<usize>> = Vec::new();
        let mut k: usize = 0;
        while k < total
            invariant
                k <= total,
                n >= 3,
                total == npow(n as nat, d as nat),
                ({
                    let list = interior_coords_upto(k as nat, d as nat, n as nat);
                    &&& r@.len() == list.len()
                    &&& forall|j: int| 0 <= j < r@.len() ==> (#[trigger] r@[j])@ == list[j]
                }),
            decreases total - k,
        {
            let c = index_to_coord(k, d, n);
            if coord_is_interior(&c, n) {
                r.push(c);
            }
            k = k + 1;
        }
        r
    }

    /// Every coordinate with at least one component equal to 0 or
    /// `num_grid - 1`, in row-major order.
    pub fn boundary_coordinates(&self) -> (r: Vec<Vec<usize>>)
        requires
            self.wf(),
        ensures
            ({
                let list = boundary_coords_upto(
                    self.total(),
                    self.dimensionality as nat,
                    self.num_grid as nat,
                );
                &&& r@.len() == list.len()
                &&& forall|j: int| 0 <= j < r@.len() ==> (#[trigger] r@[j])@ == list[j]
            }),
    {
        let d = self.dimensionality;
        let n = self.num_grid;
        let total = checked_npow(n, d);
        let mut r: Vec<Vec<usize>> = Vec::new();
        let mut k: usize = 0;
        while k < total
            invariant
                k <= total,
                n >= 3,
                total == npow(n as nat, d as nat),
                ({
                    let list = boundary_coords_upto(k as nat, d as nat, n as nat);
                    &&& r@.len() == list.len()
                    &&& forall|j: int| 0 <= j < r@.len() ==> (#[trigger] r@[j])@ == list[j]
                }),
            decreases total - k,
        {
            let c = index_to_coord(k, d, n);
            if coord_is_boundary(&c, n) {
                r.push(c);
            }
            k = k + 1;
        }
        r
    }
}

/// The exact time step that a grid of the given mode and resolution uses.
pub open spec fn delta_t_of(mode: IntegratorMode, n: nat) -> Ratio {
    let m = (n - 1) as u128;
    match mode {
        IntegratorMode::Wave => Ratio { num: 2, den: m },
        IntegratorMode::Diffusion => Ratio { num: 8, den: (m * m * 5) as u128 },
    }
}

/// The interior coordinates among the first `k` flat offsets, in offset
/// (row-major) order.
pub open spec fn interior_coords_upto(k: nat, d: nat, n: nat) -> Seq<Seq<usize>>
    decreases k,
{
    if k == 0 {
        Seq::empty()
    } else {
        let rest = interior_coords_upto((k - 1) as nat, d, n);
        let c = coord_of((k - 1) as nat, d, n);
        if is_interior(c, n) {
            rest.push(c)
        } else {
            rest
        }
    }
}

/// The boundary coordinates among the first `k` flat offsets, in offset
/// (row-major) order.
pub open spec fn boundary_coords_upto(k: nat, d: nat, n: nat) -> Seq<Seq<usize>>
    decreases k,
{
    if k == 0 {
        Seq::empty()
    } else {
        let rest = boundary_coords_upto((k - 1) as nat, d, n);
        let c = coord_of((k - 1) as nat, d, n);
        if is_boundary(c, n) {
            rest.push(c)
        } else {
            rest
        }
    }
}

/// Elementwise copy of a field buffer.
pub fn copy_field(src: &Vec<i64>) -> (r: Vec<i64>)
    ensures
        r@ == src@,
{
    let mut r: Vec<i64> = Vec::new();
    let mut i: usize = 0;
    let len = src.len();
    while i < len
        invariant
            i <= len,
            len == src@.len(),
            r@ == src@.subrange(0, i as int),
        decreases len - i,
    {
        let x = src[i];
        r.push(x);
        proof {
            assert(r@ =~= src@.subrange(0, (i + 1) as int));
        }
        i = i + 1;
    }
    proof {
        assert(src@.subrange(0, len as int) =~= src@);
    }
    r
}


/// Every coordinate listed by `interior_coords_upto` is a valid interior
/// coordinate with flat offset below `k`, and the offsets strictly increase
/// along the list (row-major order).
pub proof fn lemma_interior_coords_members(k: nat, d: nat, n: nat)
    requires
        1 <= n <= usize::MAX,
        k <= npow(n, d),
    ensures
        ({
            let list = interior_coords_upto(k, d, n);
            &&& forall|j: int|
                0 <= j < list.len() ==> {
                    &&& valid_coord(#[trigger] list[j], d, n)
                    &&& is_interior(list[j], n)
                    &&& index_of(list[j], n) < k
                }
            &&& forall|j1: int, j2: int|
                0 <= j1 < j2 < list.len() ==> index_of(#[trigger] list[j1], n) < index_of(
                    #[trigger] list[j2],
                    n,
                )
        }),
    decreases k,
{
    if k > 0 {
        lemma_interior_coords_members((k - 1) as nat, d, n);
        lemma_coord_of_index((k - 1) as nat, d, n);
        let rest = interior_coords_upto((k - 1) as nat, d, n);
        let c = coord_of((k - 1) as nat, d, n);
        let list = interior_coords_upto(k, d, n);
        if is_interior(c, n) {
            assert(list == rest.push(c));
            assert(forall|j: int| 0 <= j < rest.len() ==> #[trigger] list[j] == rest[j]);
            assert(list[list.len() - 1] == c);
            assert(index_of(c, n) == k - 1);
        } else {
            assert(list == rest);
        }
    }
}

/// Every valid interior coordinate with flat offset below `k` appears in
/// `interior_coords_upto(k, ..)`: together with the membership lemma, the
/// list holds exactly the interior coordinates, once each.
pub proof fn lemma_interior_coords_complete(k: nat, d: nat, n: nat, c: Seq<usize>)
    requires
        1 <= n <= usize::MAX,
        valid_coord(c, d, n),
        is_interior(c, n),
        index_of(c, n) < k,
        k <= npow(n, d),
    ensures
        interior_coords_upto(k, d, n).contains(c),
    decreases k,
{
    let list = interior_coords_upto(k, d, n);
    if index_of(c, n) == k - 1 {
        lemma_index_of_coord(c, d, n);
        assert(list[list.len() - 1] == c);
    } else {
        lemma_interior_coords_complete((k - 1) as nat, d, n, c);
        let rest = interior_coords_upto((k - 1) as nat, d, n);
        let i = choose|i: int| 0 <= i < rest.len() && rest[i] == c;
        assert(list[i] == c);
    }
}

/// Membership and row-major order of `boundary_coords_upto`, as for the
/// interior list.
pub proof fn lemma_boundary_coords_members(k: nat, d: nat, n: nat)
    requires
        1 <= n <= usize::MAX,
        k <= npow(n, d),
    ensures
        ({
            let list = boundary_coords_upto(k, d, n);
            &&& forall|j: int|
                0 <= j < list.len() ==> {
                    &&& valid_coord(#[trigger] list[j], d, n)
                    &&& is_boundary(list[j], n)
                    &&& index_of(list[j], n) < k
                }
            &&& forall|j1: int, j2: int|
                0 <= j1 < j2 < list.len() ==> index_of(#[trigger] list[j1], n) < index_of(
                    #[trigger] list[j2],
                    n,
                )
        }),
    decreases k,
{
    if k > 0 {
        lemma_boundary_coords_members((k - 1) as nat, d, n);
        lemma_coord_of_index((k - 1) as nat, d, n);
        let rest = boundary_coords_upto((k - 1) as nat, d, n);
        let c = coord_of((k - 1) as nat, d, n);
        let list = boundary_coords_upto(k, d, n);
        if is_boundary(c, n) {
            assert(list == rest.push(c));
            assert(forall|j: int| 0 <= j < rest.len() ==> #[trigger] list[j] == rest[j]);
            assert(list[list.len() - 1] == c);
            assert(index_of(c, n) == k - 1);
        } else {
            assert(list == rest);
        }
    }
}

/// Every valid boundary coordinate with flat offset below `k` appears in
/// `boundary_coords_upto(k, ..)`.
pub proof fn lemma_boundary_coords_complete(k: nat, d: nat, n: nat, c: Seq<usize>)
    requires
        1 <= n <= usize::MAX,
        valid_coord(c, d, n),
        is_boundary(c, n),
        index_of(c, n) < k,
        k <= npow(n, d),
    ensures
        boundary_coords_upto(k, d, n).contains(c),
    decreases k,
{
    let list = boundary_coords_upto(k, d, n);
    if index_of(c, n) == k - 1 {
        lemma_index_of_coord(c, d, n);
        assert(list[list.len() - 1] == c);
    } else {
        lemma_boundary_coords_complete((k - 1) as nat, d, n, c);
        let rest = boundary_coords_upto((k - 1) as nat, d, n);
        let i = choose|i: int| 0 <= i < rest.len() && rest[i] == c;
        assert(list[i] == c);
    }
}

/// A zero-filled buffer of the requested length.
fn zero_vec(len: usize) -> (r: Vec<i64>)
    ensures
        r@.len() == len,
        forall|k: int| 0 <= k < len ==> r@[k] == 0i64,
{
    let mut r: Vec<i64> = Vec::new();
    let mut i: usize = 0;
    while i < len
        invariant
            i <= len,
            r@.len() == i,
            forall|k: int| 0 <= k < i ==> r@[k] == 0i64,
        decreases len - i,
    {
        r.push(0);
        i = i + 1;
    }
    r
}

/// Run-time test of `valid_coord`.
pub fn check_coord(c: &Vec<usize>, d: usize, n: usize) -> (b: bool)
    ensures
        b == valid_coord(c@, d as nat, n as nat),
{
    if c.len() != d {
        return false;
    }
    let mut i: usize = 0;
    while i < d
        invariant
            i <= d,
            c@.len() == d,
            forall|j: int| 0 <= j < i ==> #[trigger] c@[j] < n,
        decreases d - i,
    {
        if c[i] >= n {
            return false;
        }
        i = i + 1;
    }
    true
}

/// Run-time test of `is_interior`.
pub fn coord_is_interior(c: &Vec<usize>, n: usize) -> (b: bool)
    requires
        n >= 1,
    ensures
        b == is_interior(c@, n as nat),
{
    let mut i: usize = 0;
    let len = c.len();
    while i < len
        invariant
            i <= len,
            len == c@.len(),
            n >= 1,
            forall|j: int| 0 <= j < i ==> 0 < #[trigger] c@[j] < n - 1,
        decreases len - i,
    {
        if c[i] == 0 || c[i] >= n - 1 {
            return false;
        }
        i = i + 1;
    }
    true
}

/// Run-time test of `is_boundary`.
pub fn coord_is_boundary(c: &Vec<usize>, n: usize) -> (b: bool)
    requires
        n >= 1,
    ensures
        b == is_boundary(c@, n as nat),
{
    let mut i: usize = 0;
    let len = c.len();
    while i < len
        invariant
            i <= len,
            len == c@.len(),
            n >= 1,
            forall|j: int| 0 <= j < i ==> !(#[trigger] c@[j] == 0 || c@[j] == n - 1),
        decreases len - i,
    {
        if c[i] == 0 || c[i] == n - 1 {
            return true;
        }
        i = i + 1;
    }
    false
}

} // verus!
