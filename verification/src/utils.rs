//! The vector primitives of the folding rounds: splitting a state in half,
//! compressing two halves with a challenge and its inverse, and the two
//! inner products (group-by-scalar and scalar-by-scalar).
use vstd::prelude::*;

verus! {

use crate::algebra::{fadd, fmul, red};
use crate::field::Scalar;
use crate::group::{indices_of, vals_of, Point};
use crate::seqs::{dot, lemma_dot_red, lemma_dot_snoc, seq_fadd, seq_scale};

/// The two halves of an even-length slice.
pub fn split<T>(slice: &[T]) -> (r: (&[T], &[T]))
    requires
        slice@.len() % 2 == 0,
    ensures
        r.0@ == slice@.take((slice@.len() / 2) as int),
        r.1@ == slice@.skip((slice@.len() / 2) as int),
{
    let len = slice.len();
    let left = vstd::slice::slice_subrange(slice, 0, len / 2);
    let right = vstd::slice::slice_subrange(slice, len / 2, len);
    proof {
        assert(left@ =~= slice@.take((slice@.len() / 2) as int));
        assert(right@ =~= slice@.skip((slice@.len() / 2) as int));
    }
    (left, right)
}

/// One folding step on scalars: `left * inverse + right * challenge`,
/// pointwise.
pub fn compress(
    left: &[Scalar],
    right: &[Scalar],
    challenge: &Scalar,
    inverse: &Scalar,
) -> (r: Vec<Scalar>)
    requires
        left@.len() == right@.len(),
    ensures
        vals_of(r@) == seq_fadd(
            seq_scale(inverse.val(), vals_of(left@)),
            seq_scale(challenge.val(), vals_of(right@)),
        ),
{
    let n = left.len();
    let mut out: Vec<Scalar> = Vec::new();
    let mut i: usize = 0;
    while i < n
        invariant
            0 <= i <= n,
            left@.len() == n,
            right@.len() == n,
            out@.len() == i,
            forall|j: int|
                0 <= j < i ==> (#[trigger] out@[j]).val() == fadd(
                    fmul(inverse.val(), left@[j].val()),
                    fmul(challenge.val(), right@[j].val()),
                ),
        decreases n - i,
    {
        let l = left[i].mul(inverse);
        let rr = right[i].mul(challenge);
        proof {
            crate::algebra::lemma_fmul_comm(left@[i as int].val(), inverse.val());
            crate::algebra::lemma_fmul_comm(right@[i as int].val(), challenge.val());
        }
        out.push(l.add(&rr));
        i = i + 1;
    }
    proof {
        assert(vals_of(out@) =~= seq_fadd(
            seq_scale(inverse.val(), vals_of(left@)),
            seq_scale(challenge.val(), vals_of(right@)),
        ));
    }
    out
}

/// One folding step on basis points: `left * inverse + right * challenge`,
/// pointwise.
pub fn compress_basis(
    left: &[Point],
    right: &[Point],
    challenge: &Scalar,
    inverse: &Scalar,
) -> (r: Vec<Point>)
    requires
        left@.len() == right@.len(),
    ensures
        indices_of(r@) == seq_fadd(
            seq_scale(inverse.val(), indices_of(left@)),
            seq_scale(challenge.val(), indices_of(right@)),
        ),
{
    let n = left.len();
    let mut out: Vec<Point> = Vec::new();
    let mut i: usize = 0;
    while i < n
        invariant
            0 <= i <= n,
            left@.len() == n,
            right@.len() == n,
            out@.len() == i,
            forall|j: int|
                0 <= j < i ==> (#[trigger] out@[j]).idx() == fadd(
                    fmul(inverse.val(), left@[j].idx()),
                    fmul(challenge.val(), right@[j].idx()),
                ),
        decreases n - i,
    {
        let l = left[i].mul(inverse);
        let rr = right[i].mul(challenge);
        proof {
            crate::algebra::lemma_fmul_comm(left@[i as int].idx(), inverse.val());
            crate::algebra::lemma_fmul_comm(right@[i as int].idx(), challenge.val());
        }
        out.push(l.add(&rr));
        i = i + 1;
    }
    proof {
        assert(indices_of(out@) =~= seq_fadd(
            seq_scale(inverse.val(), indices_of(left@)),
            seq_scale(challenge.val(), indices_of(right@)),
        ));
    }
    out
}

/// The inner product of a basis slice with a scalar slice: the sum over `i`
/// of `a[i] * b[i]`.
pub fn inner_product(a: &[Point], b: &[Scalar]) -> (r: Point)
    requires
        a@.len() == b@.len(),
    ensures
        r.idx() == dot(indices_of(a@), vals_of(b@)),
{
    let n = a.len();
    let mut acc = Point::zero();
    let mut i: usize = 0;
    while i < n
        invariant
            0 <= i <= n,
            a@.len() == n,
            b@.len() == n,
            acc.idx() == dot(indices_of(a@).take(i as int), vals_of(b@).take(i as int)),
        decreases n - i,
    {
        let term = a[i].mul(&b[i]);
        let next = acc.add(&term);
        proof {
            let ga = indices_of(a@);
            let vb = vals_of(b@);
            lemma_dot_snoc(ga.take(i as int), vb.take(i as int), ga[i as int], vb[i as int]);
            assert(ga.take(i + 1) =~= ga.take(i as int).push(ga[i as int]));
            assert(vb.take(i + 1) =~= vb.take(i as int).push(vb[i as int]));
            lemma_dot_red(ga.take(i as int), vb.take(i as int));
            crate::algebra::lemma_fadd_comm(acc.idx(), term.idx());
        }
        acc = next;
        i = i + 1;
    }
    proof {
        assert(indices_of(a@).take(n as int) =~= indices_of(a@));
        assert(vals_of(b@).take(n as int) =~= vals_of(b@));
    }
    acc
}

/// The inner product of two scalar slices: the sum over `i` of
/// `a[i] * b[i]`.
pub fn scalar_inner_product(a: &[Scalar], b: &[Scalar]) -> (r: Scalar)
    requires
        a@.len() == b@.len(),
    ensures
        r.val() == dot(vals_of(a@), vals_of(b@)),
{
    let n = a.len();
    let mut acc = Scalar::from_u64(0);
    let mut i: usize = 0;
    while i < n
        invariant
            0 <= i <= n,
            a@.len() == n,
            b@.len() == n,
            acc.val() == dot(vals_of(a@).take(i as int), vals_of(b@).take(i as int)),
        decreases n - i,
    {
        let term = a[i].mul(&b[i]);
        let next = acc.add(&term);
        proof {
            let va = vals_of(a@);
            let vb = vals_of(b@);
            lemma_dot_snoc(va.take(i as int), vb.take(i as int), va[i as int], vb[i as int]);
            assert(va.take(i + 1) =~= va.take(i as int).push(va[i as int]));
            assert(vb.take(i + 1) =~= vb.take(i as int).push(vb[i as int]));
            lemma_dot_red(va.take(i as int), vb.take(i as int));
            crate::algebra::lemma_fadd_comm(acc.val(), term.val());
        }
        acc = next;
        i = i + 1;
    }
    proof {
        assert(vals_of(a@).take(n as int) =~= vals_of(a@));
        assert(vals_of(b@).take(n as int) =~= vals_of(b@));
    }
    acc
}

/// A vector of zero scalars.
pub(crate) fn zero_vector(n: usize) -> (r: Vec<Scalar>)
    ensures
        r@.len() == n,
        vals_of(r@) == Seq::new(n as nat, |i: int| 0nat),
{
    let mut out: Vec<Scalar> = Vec::new();
    let mut i: usize = 0;
    while i < n
        invariant
            0 <= i <= n,
            out@.len() == i,
            forall|j: int| 0 <= j < i ==> (#[trigger] out@[j]).val() == 0,
        decreases n - i,
    {
        out.push(Scalar::from_u64(0));
        i = i + 1;
    }
    proof {
        assert(vals_of(out@) =~= Seq::new(n as nat, |i: int| 0nat));
    }
    out
}

/// The pointwise sum of two scalar vectors.
pub(crate) fn vec_fadd(a: &Vec<Scalar>, b: &Vec<Scalar>) -> (r: Vec<Scalar>)
    requires
        a@.len() == b@.len(),
    ensures
        r@.len() == a@.len(),
        vals_of(r@) == seq_fadd(vals_of(a@), vals_of(b@)),
{
    let n = a.len();
    let mut out: Vec<Scalar> = Vec::new();
    let mut i: usize = 0;
    while i < n
        invariant
            0 <= i <= n,
            a@.len() == n,
            b@.len() == n,
            out@.len() == i,
            forall|j: int|
                0 <= j < i ==> (#[trigger] out@[j]).val() == fadd(a@[j].val(), b@[j].val()),
        decreases n - i,
    {
        out.push(a[i].add(&b[i]));
        i = i + 1;
    }
    proof {
        assert(vals_of(out@) =~= seq_fadd(vals_of(a@), vals_of(b@)));
    }
    out
}

/// The powers `[1, z, z^2, ...]` of a scalar, up to the given length.
pub(crate) fn powers_vec(z: &Scalar, n: usize) -> (r: Vec<Scalar>)
    ensures
        vals_of(r@) == crate::seqs::powers_of(z.val(), n as nat),
{
    let mut out: Vec<Scalar> = Vec::new();
    let mut cur = Scalar::from_u64(1);
    let mut i: usize = 0;
    while i < n
        invariant
            0 <= i <= n,
            out@.len() == i,
            cur.val() == crate::algebra::fpow(z.val(), i as nat),
            forall|j: int|
                0 <= j < i ==> (#[trigger] out@[j]).val() == crate::algebra::fpow(
                    z.val(),
                    j as nat,
                ),
        decreases n - i,
    {
        let next = cur.mul(z);
        proof {
            crate::algebra::lemma_fmul_comm(cur.val(), z.val());
        }
        out.push(cur);
        cur = next;
        i = i + 1;
    }
    proof {
        assert(vals_of(out@) =~= crate::seqs::powers_of(z.val(), n as nat));
    }
    out
}

/// Evaluate a coefficient vector at a point: the inner product of the
/// coefficients with the powers of the point.
pub fn eval_poly(coeffs: &Vec<Scalar>, point: &Scalar) -> (r: Scalar)
    ensures
        r.val() == dot(
            vals_of(coeffs@),
            crate::seqs::powers_of(point.val(), coeffs@.len()),
        ),
{
    let pows = powers_vec(point, coeffs.len());
    scalar_inner_product(coeffs.as_slice(), pows.as_slice())
}

} // verus!
