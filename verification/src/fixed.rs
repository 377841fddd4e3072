//! Fixed-point scalars and the Gaussian initial profile.
//!
//! A field value is an `i64` that stands for the real number `v / SCALE`.
//! The initial condition `exp(amplitude_scale * sum_i x_i^2)` is evaluated
//! in pure integer arithmetic: each physical coordinate `x_i = (2*c_i - m)/m`
//! (with `m = n - 1`) is squared at 64 fractional bits, the exponent
//! `q = a * sum_i x_i^2` (with `a = -amplitude_scale >= 0`) is formed at the
//! same precision, and `exp(-q)` is computed as a short Taylor polynomial of
//! `q / 2^32` squared 32 times.  The spec functions below define the computed
//! value exactly; the radial symmetry of the profile is proved from them.

use vstd::prelude::*;

verus! {

use vstd::arithmetic::div_mod::lemma_fundamental_div_mod;
use vstd::arithmetic::div_mod::lemma_div_is_ordered;
use vstd::arithmetic::div_mod::lemma_div_multiples_vanish;
use crate::index::valid_coord;

/// Number of fixed-point steps per real unit: field values live in
/// `[-i64::MAX/SCALE, i64::MAX/SCALE]` with `SCALE` steps per unit.
pub const SCALE: i64 = 0x4000_0000;

/// `|2*ci - m|`: twice the distance of grid index `ci` from the domain
/// center, in units of half the spacing.  `ci` and its reflection `m - ci`
/// give the same value.
pub open spec fn axis_delta(ci: int, m: int) -> int {
    if 2 * ci >= m {
        2 * ci - m
    } else {
        m - 2 * ci
    }
}

/// `x_i^2` at 64 fractional bits, computed as the square of the 32-bit
/// quotient `|2*ci - m| * 2^32 / m`.
pub open spec fn axis_sq(ci: int, m: int) -> int {
    let t = axis_delta(ci, m) * 0x1_0000_0000 / m;
    t * t
}

/// `sum_i x_i^2` at 64 fractional bits over the whole coordinate.
pub open spec fn sum_sq(c: Seq<usize>, m: int) -> int
    decreases c.len(),
{
    if c.len() == 0 {
        0
    } else {
        sum_sq(c.drop_last(), m) + axis_sq(c.last() as int, m)
    }
}

/// `v` squared `j` times, rescaled to 64 fractional bits after each square.
pub open spec fn sq_iter(v: int, j: nat) -> int
    decreases j,
{
    if j == 0 {
        v
    } else {
        let w = sq_iter(v, (j - 1) as nat);
        w * w / 0x1_0000_0000_0000_0000
    }
}

/// `exp(-a * s / 2^64) * SCALE`, for a squared radius `s` at 64 fractional
/// bits and a nonnegative decay magnitude `a`.  Exponents of 64 and more
/// underflow to 0; exponents below `2^-32` round to `SCALE`.
pub open spec fn exp_neg(s: int, a: int) -> int {
    if s > 0 && a > 0x40_0000_0000_0000_0000int / s {
        0
    } else {
        let q = a * s;
        if q < 0x1_0000_0000 {
            SCALE as int
        } else {
            let t = q / 0x1_0000_0000;
            let v0 = 0x1_0000_0000_0000_0000 - t + t * t / 0x2_0000_0000_0000_0000;
            sq_iter(v0, 32) / 0x4_0000_0000
        }
    }
}

/// The Gaussian profile `exp(amplitude_scale * sum_i x_i^2) * SCALE` at
/// coordinate `c` of a grid with `n` points per axis.
pub open spec fn gauss_fp(c: Seq<usize>, n: nat, amplitude_scale: int) -> int {
    exp_neg(sum_sq(c, n - 1), -amplitude_scale)
}

/// Repeated squaring stays within 64 fractional bits.
proof fn lemma_sq_iter_bound(v: int, j: nat)
    requires
        0 <= v < 0x1_0000_0000_0000_0000,
    ensures
        0 <= sq_iter(v, j) < 0x1_0000_0000_0000_0000,
    decreases j,
{
    if j > 0 {
        lemma_sq_iter_bound(v, (j - 1) as nat);
        let w = sq_iter(v, (j - 1) as nat);
        assert(0 <= w * w / 0x1_0000_0000_0000_0000 < 0x1_0000_0000_0000_0000)
            by (nonlinear_arith)
            requires 0 <= w < 0x1_0000_0000_0000_0000;
    }
}

/// One squared axis term lies in `[0, 2^64]`.
proof fn lemma_axis_sq_bound(ci: int, m: int)
    requires
        m >= 1,
        0 <= ci <= m,
    ensures
        0 <= axis_sq(ci, m) <= 0x1_0000_0000_0000_0000,
{
    let delta = axis_delta(ci, m);
    assert(0 <= delta <= m);
    let t = delta * 0x1_0000_0000 / m;
    assert(delta * 0x1_0000_0000 <= m * 0x1_0000_0000) by (nonlinear_arith)
        requires delta <= m;
    lemma_div_is_ordered(delta * 0x1_0000_0000, m * 0x1_0000_0000, m);
    lemma_div_multiples_vanish(0x1_0000_0000, m);
    assert(t >= 0) by (nonlinear_arith)
        requires m >= 1, delta >= 0, t == delta * 0x1_0000_0000 / m;
    assert(t * t <= 0x1_0000_0000_0000_0000) by (nonlinear_arith)
        requires 0 <= t <= 0x1_0000_0000;
    assert(t * t >= 0) by (nonlinear_arith)
        requires t >= 0;
}

/// The summed squared radius of a valid coordinate is nonnegative and at
/// most `len * 2^64`.
proof fn lemma_sum_sq_bound(c: Seq<usize>, m: int, n: nat)
    requires
        m == n - 1,
        n >= 2,
        valid_coord(c, c.len() as nat, n),
    ensures
        0 <= sum_sq(c, m) <= c.len() * 0x1_0000_0000_0000_0000,
    decreases c.len(),
{
    if c.len() == 0 {
    } else {
        let p = c.drop_last();
        assert(valid_coord(p, p.len() as nat, n));
        lemma_sum_sq_bound(p, m, n);
        assert(c.last() < n);
        lemma_axis_sq_bound(c.last() as int, m);
        assert(p.len() * 0x1_0000_0000_0000_0000 + 0x1_0000_0000_0000_0000
            == c.len() * 0x1_0000_0000_0000_0000) by (nonlinear_arith)
            requires p.len() == c.len() - 1;
    }
}

/// The computed profile always lies in `[0, SCALE]`.
pub proof fn lemma_exp_neg_bound(s: int, a: int)
    requires
        s >= 0,
        a >= 0,
    ensures
        0 <= exp_neg(s, a) <= SCALE,
{
    if s > 0 && a > 0x40_0000_0000_0000_0000int / s {
    } else {
        assert(a * s >= 0) by (nonlinear_arith)
            requires a >= 0, s >= 0;
        let q = a * s;
        if q < 0x1_0000_0000 {
        } else {
            lemma_exp_neg_arg_bound(s, a);
            let t = q / 0x1_0000_0000;
            assert(1 <= t <= 0x40_0000_0000) by {
                assert(1 <= q / 0x1_0000_0000 <= 0x40_0000_0000) by (nonlinear_arith)
                    requires 0x1_0000_0000 <= q <= 0x40_0000_0000_0000_0000int;
            }
            assert(0 <= t * t / 0x2_0000_0000_0000_0000 < t) by (nonlinear_arith)
                requires 1 <= t <= 0x40_0000_0000;
            let v0 = 0x1_0000_0000_0000_0000 - t + t * t / 0x2_0000_0000_0000_0000;
            lemma_sq_iter_bound(v0, 32);
            assert(0 <= sq_iter(v0, 32) / 0x4_0000_0000 < 0x4000_0000) by (nonlinear_arith)
                requires 0 <= sq_iter(v0, 32) < 0x1_0000_0000_0000_0000;
        }
    }
}

/// When the underflow cutoff does not fire, the scaled exponent `a * s`
/// is at most `64 * 2^64`.
pub proof fn lemma_exp_neg_arg_bound(s: int, a: int)
    requires
        s >= 0,
        a >= 0,
        !(s > 0 && a > 0x40_0000_0000_0000_0000int / s),
    ensures
        0 <= a * s <= 0x40_0000_0000_0000_0000int,
{
    assert(a * s >= 0) by (nonlinear_arith)
        requires a >= 0, s >= 0;
    if s > 0 {
        lemma_fundamental_div_mod(0x40_0000_0000_0000_0000int, s);
        assert(a * s <= 0x40_0000_0000_0000_0000int) by (nonlinear_arith)
            requires
                s > 0,
                a >= 0,
                a <= 0x40_0000_0000_0000_0000int / s,
                0x40_0000_0000_0000_0000int
                    == s * (0x40_0000_0000_0000_0000int / s)
                        + 0x40_0000_0000_0000_0000int % s,
                0x40_0000_0000_0000_0000int % s >= 0;
    } else {
        assert(a * s == 0) by (nonlinear_arith)
            requires s == 0;
    }
}

/// Reflection through the domain center, axis by axis.
pub open spec fn reflect(c: Seq<usize>, n: nat) -> Seq<usize> {
    Seq::new(c.len(), |i: int| (n - 1 - c[i]) as usize)
}

/// An index and its reflection sit at the same distance from the center.
proof fn lemma_axis_delta_reflect(ci: int, m: int)
    requires
        0 <= ci <= m,
    ensures
        axis_delta(m - ci, m) == axis_delta(ci, m),
{
}

/// The squared radius is invariant under reflection through the center.
pub proof fn lemma_sum_sq_reflect(c: Seq<usize>, n: nat)
    requires
        n >= 1,
        n <= usize::MAX,
        valid_coord(c, c.len() as nat, n),
    ensures
        sum_sq(reflect(c, n), n - 1) == sum_sq(c, n - 1),
    decreases c.len(),
{
    let m = n - 1;
    let rc = reflect(c, n);
    if c.len() == 0 {
        assert(rc =~= Seq::<usize>::empty());
    } else {
        let p = c.drop_last();
        assert(valid_coord(p, p.len() as nat, n));
        lemma_sum_sq_reflect(p, n);
        assert(rc.drop_last() =~= reflect(p, n));
        assert(rc.last() == (n - 1 - c.last()) as usize);
        lemma_axis_delta_reflect(c.last() as int, m as int);
    }
}

/// Radial symmetry of the Gaussian profile: a coordinate and its reflection
/// through the domain center carry the same initial value.
pub proof fn lemma_gauss_fp_reflect(c: Seq<usize>, n: nat, amplitude_scale: int)
    requires
        n >= 1,
        n <= usize::MAX,
        valid_coord(c, c.len() as nat, n),
    ensures
        gauss_fp(reflect(c, n), n, amplitude_scale) == gauss_fp(c, n, amplitude_scale),
{
    lemma_sum_sq_reflect(c, n);
}

/// The profile of a valid coordinate lies in `[0, SCALE]`.
pub proof fn lemma_gauss_fp_bound(c: Seq<usize>, n: nat, amplitude_scale: int)
    requires
        n >= 2,
        valid_coord(c, c.len() as nat, n),
        amplitude_scale <= 0,
    ensures
        0 <= gauss_fp(c, n, amplitude_scale) <= SCALE,
{
    lemma_sum_sq_bound(c, n - 1, n);
    lemma_exp_neg_bound(sum_sq(c, n - 1), -amplitude_scale);
}

/// The Gaussian profile value at coordinate `c`, computed in integer
/// arithmetic exactly as `gauss_fp` states it.
pub fn gauss_value(c: &Vec<usize>, n: usize, amplitude_scale: i64) -> (r: i64)
    requires
        n >= 2,
        valid_coord(c@, c@.len() as nat, n as nat),
        amplitude_scale <= 0,
    ensures
        r == gauss_fp(c@, n as nat, amplitude_scale as int),
        0 <= r <= SCALE,
{
    proof {
        lemma_gauss_fp_bound(c@, n as nat, amplitude_scale as int);
    }
    let m: u128 = (n - 1) as u128;
    let a: u128 = (-(amplitude_scale as i128)) as u128;
    let mut s: u128 = 0;
    let mut i: usize = 0;
    let len = c.len();
    while i < len
        invariant
            i <= len,
            len == c@.len(),
            n >= 2,
            m == n - 1,
            valid_coord(c@, c@.len() as nat, n as nat),
            s == sum_sq(c@.subrange(0, i as int), m as int),
            s <= i * 0x1_0000_0000_0000_0000,
        decreases len - i,
    {
        let ci: u128 = c[i] as u128;
        let two: u128 = 2 * ci;
        let delta: u128 = if two >= m {
            two - m
        } else {
            m - two
        };
        proof {
            lemma_axis_sq_bound(ci as int, m as int);
            assert(delta * 0x1_0000_0000 <= m * 0x1_0000_0000) by (nonlinear_arith)
                requires delta <= m;
            lemma_div_is_ordered(delta as int * 0x1_0000_0000, m as int * 0x1_0000_0000, m as int);
            lemma_div_multiples_vanish(0x1_0000_0000, m as int);
        }
        let t: u128 = delta * 0x1_0000_0000u128 / m;
        proof {
            let sub1 = c@.subrange(0, (i + 1) as int);
            assert(sub1.drop_last() =~= c@.subrange(0, i as int));
            assert(sub1.last() == c@[i as int]);
            assert((i + 1) * 0x1_0000_0000_0000_0000
                == i * 0x1_0000_0000_0000_0000 + 0x1_0000_0000_0000_0000) by (nonlinear_arith);
            assert(t * t >= 0) by (nonlinear_arith);
        }
        s = s + t * t;
        i = i + 1;
    }
    proof {
        assert(c@.subrange(0, len as int) =~= c@);
    }
    if s > 0 && a > 0x40_0000_0000_0000_0000u128 / s {
        return 0;
    }
    proof {
        lemma_exp_neg_arg_bound(s as int, a as int);
    }
    let q: u128 = a * s;
    if q < 0x1_0000_0000u128 {
        return SCALE;
    }
    let t: u128 = q / 0x1_0000_0000u128;
    proof {
        assert(1 <= t <= 0x40_0000_0000) by {
            assert(1 <= (q as int) / 0x1_0000_0000 <= 0x40_0000_0000) by (nonlinear_arith)
                requires 0x1_0000_0000 <= q <= 0x40_0000_0000_0000_0000int;
        }
        assert(0 <= t * t / 0x2_0000_0000_0000_0000 < t) by (nonlinear_arith)
            requires 1 <= t <= 0x40_0000_0000;
    }
    let v0: u128 = 0x1_0000_0000_0000_0000u128 - t + t * t / 0x2_0000_0000_0000_0000u128;
    let mut v: u128 = v0;
    let mut j: usize = 0;
    proof {
        lemma_sq_iter_bound(v0 as int, 32);
    }
    while j < 32
        invariant
            j <= 32,
            0 <= v0 < 0x1_0000_0000_0000_0000,
            v == sq_iter(v0 as int, j as nat),
        decreases 32 - j,
    {
        proof {
            lemma_sq_iter_bound(v0 as int, j as nat);
            lemma_sq_iter_bound(v0 as int, (j + 1) as nat);
            assert(v * v < 0x1_0000_0000_0000_0000_0000_0000_0000_0000) by (nonlinear_arith)
                requires 0 <= v < 0x1_0000_0000_0000_0000;
        }
        v = v * v / 0x1_0000_0000_0000_0000u128;
        j = j + 1;
    }
    proof {
        lemma_sq_iter_bound(v0 as int, 32);
        assert(0 <= (v as int) / 0x4_0000_0000 < 0x4000_0000) by (nonlinear_arith)
            requires 0 <= v < 0x1_0000_0000_0000_0000;
    }
    (v / 0x4_0000_0000u128) as i64
}

} // verus!
