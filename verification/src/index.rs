//! Flat, stride-based addressing of a `D`-dimensional grid with `n` points
//! per axis.  A coordinate is a vector of `D` axis indices; its row-major
//! (lexicographic, last axis fastest) flat offset addresses a dense backing
//! array of `n^D` scalars.

use vstd::prelude::*;

verus! {

use vstd::arithmetic::div_mod::lemma_fundamental_div_mod;
use vstd::arithmetic::div_mod::lemma_fundamental_div_mod_converse;
use vstd::arithmetic::mul::lemma_mul_inequality;

/// `n^e`, with the last factor multiplied on the outside, matching the
/// row-major recursion of `index_of`.
pub open spec fn npow(n: nat, e: nat) -> nat
    decreases e,
{
    if e == 0 {
        1
    } else {
        npow(n, (e - 1) as nat) * n
    }
}

/// Row-major flat offset of coordinate `c` on a grid with `n` points per
/// axis: `sum_i c[i] * n^(D-1-i)`.
pub open spec fn index_of(c: Seq<usize>, n: nat) -> nat
    decreases c.len(),
{
    if c.len() == 0 {
        0
    } else {
        index_of(c.drop_last(), n) * n + c.last() as nat
    }
}

/// Decode of a flat offset `k < n^d` back into the coordinate of length `d`
/// whose `index_of` is `k`.
pub open spec fn coord_of(k: nat, d: nat, n: nat) -> Seq<usize>
    decreases d,
{
    if d == 0 {
        Seq::empty()
    } else {
        coord_of(k / n, (d - 1) as nat, n).push((k % n) as usize)
    }
}

/// A coordinate of the right length whose components all lie on the grid.
pub open spec fn valid_coord(c: Seq<usize>, d: nat, n: nat) -> bool {
    &&& c.len() == d
    &&& forall|i: int| 0 <= i < c.len() ==> #[trigger] c[i] < n
}

/// Every component strictly between the two boundary indices: the point is
/// eligible for a stencil update.
pub open spec fn is_interior(c: Seq<usize>, n: nat) -> bool {
    forall|i: int| 0 <= i < c.len() ==> 0 < #[trigger] c[i] < n - 1
}

/// At least one component sits on the domain boundary.
pub open spec fn is_boundary(c: Seq<usize>, n: nat) -> bool {
    exists|i: int| 0 <= i < c.len() && (#[trigger] c[i] == 0 || c[i] == n - 1)
}

pub proof fn lemma_npow_pos(n: nat, e: nat)
    requires
        n >= 1,
    ensures
        npow(n, e) >= 1,
    decreases e,
{
    if e > 0 {
        lemma_npow_pos(n, (e - 1) as nat);
        lemma_mul_inequality(1, npow(n, (e - 1) as nat) as int, n as int);
    }
}

pub proof fn lemma_npow_mono(n: nat, e1: nat, e2: nat)
    requires
        n >= 1,
        e1 <= e2,
    ensures
        npow(n, e1) <= npow(n, e2),
    decreases e2,
{
    if e1 < e2 {
        lemma_npow_mono(n, e1, (e2 - 1) as nat);
        lemma_npow_pos(n, (e2 - 1) as nat);
        lemma_mul_inequality(1, n as int, npow(n, (e2 - 1) as nat) as int);
        assert(npow(n, (e2 - 1) as nat) * 1 <= npow(n, (e2 - 1) as nat) * n)
            by (nonlinear_arith)
            requires n >= 1, npow(n, (e2 - 1) as nat) >= 0;
    }
}

/// A valid coordinate of length `d` decodes to an offset below `n^d`.
pub proof fn lemma_index_of_bound(c: Seq<usize>, d: nat, n: nat)
    requires
        valid_coord(c, d, n),
        n >= 1,
    ensures
        index_of(c, n) < npow(n, d),
    decreases d,
{
    if d > 0 {
        let p = c.drop_last();
        assert(valid_coord(p, (d - 1) as nat, n));
        lemma_index_of_bound(p, (d - 1) as nat, n);
        let q = index_of(p, n);
        let m = npow(n, (d - 1) as nat);
        assert(q * n + n <= m * n) by (nonlinear_arith)
            requires q < m, n >= 1;
        assert(index_of(c, n) == q * n + c.last());
        assert(c.last() < n);
    }
}

/// Decoding an offset `k < n^d` yields a valid coordinate that encodes back
/// to `k`.
pub proof fn lemma_coord_of_index(k: nat, d: nat, n: nat)
    requires
        n >= 1,
        n <= usize::MAX,
        k < npow(n, d),
    ensures
        valid_coord(coord_of(k, d, n), d, n),
        index_of(coord_of(k, d, n), n) == k,
    decreases d,
{
    if d == 0 {
        assert(coord_of(k, d, n) =~= Seq::<usize>::empty());
    } else {
        let q = k / n;
        let r = k % n;
        lemma_fundamental_div_mod(k as int, n as int);
        assert(r < n) by (nonlinear_arith)
            requires n >= 1, r == k % n;
        let m = npow(n, (d - 1) as nat);
        assert(q < m) by (nonlinear_arith)
            requires
                n >= 1,
                k < m * n,
                k == n * q + r,
                r >= 0;
        lemma_coord_of_index(q, (d - 1) as nat, n);
        let p = coord_of(q, (d - 1) as nat, n);
        let c = coord_of(k, d, n);
        assert(c == p.push(r as usize));
        assert(c.drop_last() =~= p);
        assert(c.last() == r as usize);
        assert(index_of(c, n) == q * n + r);
        assert(q * n == n * q) by (nonlinear_arith);
    }
}

/// Encoding is injective: decoding the offset of a valid coordinate gives
/// the coordinate back.
pub proof fn lemma_index_of_coord(c: Seq<usize>, d: nat, n: nat)
    requires
        valid_coord(c, d, n),
        n >= 1,
    ensures
        coord_of(index_of(c, n), d, n) == c,
    decreases d,
{
    if d == 0 {
        assert(coord_of(index_of(c, n), d, n) =~= c);
    } else {
        let p = c.drop_last();
        assert(valid_coord(p, (d - 1) as nat, n));
        let q = index_of(p, n);
        let k = index_of(c, n);
        assert(k == q * n + c.last());
        lemma_fundamental_div_mod_converse(k as int, n as int, q as int, c.last() as int);
        lemma_index_of_coord(p, (d - 1) as nat, n);
        assert(coord_of(k, d, n) =~= c);
    }
}

/// Executable `n^d`; the requirement that the result fits in `usize` is the
/// machine limit on the size of the backing arrays.
pub fn checked_npow(n: usize, d: usize) -> (r: usize)
    requires
        n >= 1,
        npow(n as nat, d as nat) <= usize::MAX,
    ensures
        r == npow(n as nat, d as nat),
{
    let mut acc: usize = 1;
    let mut i: usize = 0;
    while i < d
        invariant
            i <= d,
            n >= 1,
            acc == npow(n as nat, i as nat),
            npow(n as nat, d as nat) <= usize::MAX,
        decreases d - i,
    {
        proof {
            lemma_npow_mono(n as nat, (i + 1) as nat, d as nat);
        }
        acc = acc * n;
        i = i + 1;
    }
    acc
}

/// Executable decode: the coordinate of flat offset `k`.
pub fn index_to_coord(k: usize, d: usize, n: usize) -> (r: Vec<usize>)
    requires
        n >= 1,
        k < npow(n as nat, d as nat),
    ensures
        r@ == coord_of(k as nat, d as nat, n as nat),
        valid_coord(r@, d as nat, n as nat),
    decreases d,
{
    proof {
        lemma_coord_of_index(k as nat, d as nat, n as nat);
    }
    if d == 0 {
        let r: Vec<usize> = Vec::new();
        proof {
            assert(r@ =~= coord_of(k as nat, d as nat, n as nat));
        }
        r
    } else {
        proof {
            lemma_fundamental_div_mod(k as int, n as int);
            assert((k as nat) / (n as nat) < npow(n as nat, (d - 1) as nat)) by (nonlinear_arith)
                requires
                    n >= 1,
                    (k as nat) < npow(n as nat, (d - 1) as nat) * (n as nat),
                    k as nat == (n as nat) * ((k as nat) / (n as nat)) + (k as nat) % (n as nat),
                    (k as nat) % (n as nat) >= 0;
        }
        let mut r = index_to_coord(k / n, d - 1, n);
        r.push(k % n);
        r
    }
}

/// Executable encode: the flat offset of a valid coordinate `c[0..len]`.
fn coord_prefix_index(c: &Vec<usize>, len: usize, n: usize) -> (r: usize)
    requires
        len <= c@.len(),
        n >= 1,
        valid_coord(c@, c@.len() as nat, n as nat),
        npow(n as nat, c@.len() as nat) <= usize::MAX,
    ensures
        r == index_of(c@.subrange(0, len as int), n as nat),
    decreases len,
{
    proof {
        assert(valid_coord(c@.subrange(0, len as int), len as nat, n as nat));
        lemma_index_of_bound(c@.subrange(0, len as int), len as nat, n as nat);
        lemma_npow_mono(n as nat, len as nat, c@.len() as nat);
    }
    if len == 0 {
        proof {
            assert(c@.subrange(0, 0).len() == 0);
        }
        0
    } else {
        let p = coord_prefix_index(c, len - 1, n);
        proof {
            let s = c@.subrange(0, len as int);
            assert(s.drop_last() =~= c@.subrange(0, len - 1));
            assert(s.last() == c@[len - 1]);
            lemma_index_of_bound(s, len as nat, n as nat);
        }
        p * n + c[len - 1]
    }
}

/// Executable encode of a whole valid coordinate.
pub fn coord_to_index(c: &Vec<usize>, d: usize, n: usize) -> (r: usize)
    requires
        n >= 1,
        valid_coord(c@, d as nat, n as nat),
        npow(n as nat, d as nat) <= usize::MAX,
    ensures
        r == index_of(c@, n as nat),
        r < npow(n as nat, d as nat),
    decreases d,
{
    proof {
        lemma_index_of_bound(c@, d as nat, n as nat);
    }
    let r = coord_prefix_index(c, c.len(), n);
    proof {
        assert(c@.subrange(0, c@.len() as int) =~= c@);
    }
    r
}

} // verus!
