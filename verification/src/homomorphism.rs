//! The homomorphic structure of commitments: commitments add, scale and
//! negate as group elements, and committing is linear in the committed
//! vector — the commitment of a pointwise sum is the sum of the
//! commitments, and likewise for scalings. Polynomial evaluation is linear
//! in the same way, which carries the law through the hiding path, where
//! verified evaluations of combined vectors combine like the vectors.
use vstd::prelude::*;

verus! {

use crate::algebra::{fadd, fmul, fneg};
use crate::field::Scalar;
use crate::group::vals_of;
use crate::prove::Commitment;
use crate::seqs::{
    dot,
    lemma_dot_add,
    lemma_dot_comm,
    lemma_dot_scale,
    powers_of,
    seq_fadd,
    seq_scale,
};

impl Commitment {
    /// The sum of two commitments.
    pub fn add(&self, other: &Commitment) -> (r: Commitment)
        ensures
            r.idx() == fadd(self.idx(), other.idx()),
    {
        Commitment { point: self.point.add(&other.point) }
    }

    /// A commitment scaled by a scalar.
    pub fn mul(&self, s: &Scalar) -> (r: Commitment)
        ensures
            r.idx() == fmul(self.idx(), s.val()),
    {
        Commitment { point: self.point.mul(s) }
    }

    /// The negation of a commitment.
    pub fn neg(&self) -> (r: Commitment)
        ensures
            r.idx() == fneg(self.idx()),
    {
        Commitment { point: self.point.neg() }
    }

    /// The difference of two commitments.
    pub fn sub(&self, other: &Commitment) -> (r: Commitment)
        ensures
            r.idx() == fadd(self.idx(), fneg(other.idx())),
    {
        self.add(&other.neg())
    }
}

/// Committing is additive: against any basis, the sum of the commitments of
/// two vectors is the commitment of their pointwise sum.
pub proof fn lemma_commit_additive(g: Seq<nat>, p1: Seq<nat>, p2: Seq<nat>)
    requires
        p1.len() == g.len(),
        p2.len() == g.len(),
    ensures
        fadd(dot(g, p1), dot(g, p2)) == dot(g, seq_fadd(p1, p2)),
{
    lemma_dot_comm(g, seq_fadd(p1, p2));
    lemma_dot_add(p1, p2, g);
    lemma_dot_comm(g, p1);
    lemma_dot_comm(g, p2);
}

/// Committing is homogeneous: against any basis, a commitment scaled by a
/// scalar is the commitment of the scaled vector.
pub proof fn lemma_commit_scaling(g: Seq<nat>, p: Seq<nat>, s: nat)
    requires
        p.len() == g.len(),
    ensures
        fmul(s, dot(g, p)) == dot(g, seq_scale(s, p)),
{
    lemma_dot_comm(g, seq_scale(s, p));
    lemma_dot_scale(s, p, g);
    lemma_dot_comm(g, p);
}

/// Evaluation is additive: at any point, the evaluations of two coefficient
/// vectors sum to the evaluation of their pointwise sum. Together with the
/// exact contracts of the hiding opening and verification, evaluations
/// accepted for combined vectors combine like the vectors themselves.
pub proof fn lemma_eval_additive(p1: Seq<nat>, p2: Seq<nat>, z: nat, n: nat)
    requires
        p1.len() == n,
        p2.len() == n,
    ensures
        fadd(
            dot(p1, powers_of(z, n)),
            dot(p2, powers_of(z, n)),
        ) == dot(seq_fadd(p1, p2), powers_of(z, n)),
{
    lemma_dot_add(p1, p2, powers_of(z, n));
}

/// Evaluation is homogeneous: at any point, the evaluation of a scaled
/// coefficient vector is the scaled evaluation.
pub proof fn lemma_eval_scaling(p: Seq<nat>, z: nat, s: nat, n: nat)
    requires
        p.len() == n,
    ensures
        fmul(s, dot(p, powers_of(z, n))) == dot(seq_scale(s, p), powers_of(z, n)),
{
    lemma_dot_scale(s, p, powers_of(z, n));
}

} // verus!
