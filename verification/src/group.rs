//! Points of the Pallas curve group, held as their canonical uncompressed
//! encodings. The Pallas group is cyclic of prime order (its cofactor is
//! one), so every point is the generator times a unique reduced scalar, its
//! index; the group operations, done by `ark_ec` behind trusted wrappers,
//! act on indices as arithmetic modulo the group order. Canonical
//! serialization is a bijection between points and their encodings, so the
//! index of an encoding and the encoding of an index are well defined.
use ark_ec::{AffineCurve, ProjectiveCurve};
use ark_ff::{Field, PrimeField, Zero};
use ark_serialize::{CanonicalDeserialize, CanonicalSerialize};
use rand::{Rng, SeedableRng};
use vstd::prelude::*;

verus! {

use crate::algebra::{fadd, fmul, fneg, red};
use crate::field::Scalar;
use crate::seqs::dot;

/// The index (discrete logarithm with respect to the standard generator) of
/// the Pallas point whose canonical uncompressed encoding is given.
pub uninterp spec fn point_index(enc: Seq<u8>) -> nat;

/// The canonical uncompressed encoding of the Pallas point with the given
/// index.
pub uninterp spec fn point_enc(index: nat) -> Seq<u8>;

/// A point of the Pallas group in canonical uncompressed form.
pub struct Point {
    pub(crate) bytes: Vec<u8>,
}

impl View for Point {
    type V = Seq<u8>;

    open(crate) spec fn view(&self) -> Seq<u8> {
        self.bytes@
    }
}

/// The indices of a sequence of points.
pub open spec fn indices_of(ps: Seq<Point>) -> Seq<nat> {
    ps.map_values(|p: Point| p.idx())
}

/// The values of a sequence of scalars.
pub open spec fn vals_of(ss: Seq<Scalar>) -> Seq<nat> {
    ss.map_values(|s: Scalar| s.val())
}

impl Point {
    /// The group-element index the point stands for.
    pub open spec fn idx(&self) -> nat {
        point_index(self@)
    }

    #[verifier::type_invariant]
    pub(crate) open spec fn wf(self) -> bool {
        self.bytes@ == point_enc(point_index(self.bytes@)) && red(point_index(self.bytes@))
    }

    /// The canonical wire encoding of the point.
    pub fn to_bytes(&self) -> (r: Vec<u8>)
        ensures
            r@ == self@,
    {
        let mut out: Vec<u8> = Vec::new();
        let n = self.bytes.len();
        let mut i: usize = 0;
        while i < n
            invariant
                0 <= i <= n,
                self.bytes@.len() == n,
                out@ == self.bytes@.take(i as int),
            decreases n - i,
        {
            out.push(self.bytes[i]);
            proof {
                assert(out@ =~= self.bytes@.take(i + 1));
            }
            i = i + 1;
        }
        proof {
            assert(out@ =~= self.bytes@);
        }
        out
    }

    /// A copy of the point.
    pub fn dup(&self) -> (r: Point)
        ensures
            r@ == self@,
            r.idx() == self.idx(),
    {
        proof {
            use_type_invariant(self);
        }
        let bytes = self.to_bytes();
        Point { bytes }
    }

    /// Equality of the group elements two points stand for. Canonical
    /// encodings are unique, so this is a byte comparison.
    pub fn equals(&self, other: &Point) -> (r: bool)
        ensures
            r == (self.idx() == other.idx()),
    {
        proof {
            use_type_invariant(self);
            use_type_invariant(other);
        }
        crate::field::bytes_eq(&self.bytes, &other.bytes)
    }

    /// Group addition.
    pub fn add(&self, other: &Point) -> (r: Point)
        ensures
            r.idx() == fadd(self.idx(), other.idx()),
    {
        pt_add(self, other)
    }

    /// Scalar multiplication.
    pub fn mul(&self, s: &Scalar) -> (r: Point)
        ensures
            r.idx() == fmul(self.idx(), s.val()),
    {
        pt_mul(self, s)
    }

    /// Group negation.
    pub fn neg(&self) -> (r: Point)
        ensures
            r.idx() == fneg(self.idx()),
    {
        pt_neg(self)
    }

    /// Group subtraction.
    pub fn sub(&self, other: &Point) -> (r: Point)
        ensures
            r.idx() == fadd(self.idx(), fneg(other.idx())),
    {
        pt_add(self, &pt_neg(other))
    }

    /// The identity of the group, of index zero.
    pub fn zero() -> (r: Point)
        ensures
            r.idx() == 0,
    {
        pt_zero()
    }
}

/// Relies on `ark_ec` point addition on the Pallas curve: adding two points
/// adds their indices modulo the group order, and serialization of the sum
/// is canonical.
#[verifier::external_body]
fn pt_add(a: &Point, b: &Point) -> (r: Point)
    ensures
        r@ == point_enc(point_index(r@)),
        point_index(r@) == fadd(point_index(a@), point_index(b@)),
{
    let pa = ark_pallas::Affine::deserialize_unchecked(&a.bytes[..]).unwrap();
    let pb = ark_pallas::Affine::deserialize_unchecked(&b.bytes[..]).unwrap();
    let sum = (pa.into_projective() + pb.into_projective()).into_affine();
    let mut bytes = Vec::new();
    sum.serialize_uncompressed(&mut bytes).unwrap();
    Point { bytes }
}

/// Relies on `ark_ec` scalar multiplication on the Pallas curve: multiplying
/// a point by a scalar multiplies its index by the scalar's value modulo the
/// group order.
#[verifier::external_body]
fn pt_mul(p: &Point, s: &Scalar) -> (r: Point)
    ensures
        r@ == point_enc(point_index(r@)),
        point_index(r@) == fmul(point_index(p@), s.val()),
{
    let pp = ark_pallas::Affine::deserialize_unchecked(&p.bytes[..]).unwrap();
    let fs = ark_pallas::Fr::deserialize(&s.bytes[..]).unwrap();
    let prod = pp.mul(fs.into_repr()).into_affine();
    let mut bytes = Vec::new();
    prod.serialize_uncompressed(&mut bytes).unwrap();
    Point { bytes }
}

/// Relies on `ark_ec` point negation on the Pallas curve: negating a point
/// negates its index modulo the group order.
#[verifier::external_body]
fn pt_neg(p: &Point) -> (r: Point)
    ensures
        r@ == point_enc(point_index(r@)),
        point_index(r@) == fneg(point_index(p@)),
{
    let pp = ark_pallas::Affine::deserialize_unchecked(&p.bytes[..]).unwrap();
    let mut bytes = Vec::new();
    (-pp).serialize_uncompressed(&mut bytes).unwrap();
    Point { bytes }
}

/// Relies on `ark_ec`'s additive identity on the Pallas curve, the point at
/// infinity, whose index is zero.
#[verifier::external_body]
fn pt_zero() -> (r: Point)
    ensures
        r@ == point_enc(point_index(r@)),
        point_index(r@) == 0,
{
    let z = ark_pallas::Affine::zero();
    let mut bytes = Vec::new();
    z.serialize_uncompressed(&mut bytes).unwrap();
    Point { bytes }
}

/// Relies on `ark_ec::msm::VariableBaseMSM`: a multi-scalar multiplication
/// returns the sum over `i` of `coeffs[i]` times `basis[i]`, whose index is
/// the inner product of the indices with the scalar values modulo the group
/// order.
#[verifier::external_body]
pub(crate) fn msm(basis: &Vec<Point>, coeffs: &Vec<Scalar>) -> (r: Point)
    requires
        basis@.len() == coeffs@.len(),
    ensures
        r@ == point_enc(point_index(r@)),
        point_index(r@) == dot(indices_of(basis@), vals_of(coeffs@)),
{
    let bases: Vec<ark_pallas::Affine> =
        basis.iter().map(|p| ark_pallas::Affine::deserialize_unchecked(&p.bytes[..]).unwrap()).collect();
    let scalars: Vec<<ark_pallas::Fr as PrimeField>::BigInt> =
        coeffs.iter().map(|s| ark_pallas::Fr::deserialize(&s.bytes[..]).unwrap().into_repr()).collect();
    let sum = ark_ec::msm::VariableBaseMSM::multi_scalar_mul(&bases, &scalars).into_affine();
    let mut bytes = Vec::new();
    sum.serialize_uncompressed(&mut bytes).unwrap();
    Point { bytes }
}

/// The canonical encodings of the points the seeded rejection sampler
/// accepts, in order: a function of the seed and the count alone.
pub uninterp spec fn seeded_points_of(seed: u64, count: nat) -> Seq<Seq<u8>>;

/// Relies on the seeded rejection sampler of the reference string: `rand`'s
/// `StdRng` seeded from the given seed draws 32-byte candidates, `ark_ff`
/// reads each as a base-field element and `ark_ec`'s `get_point_from_x`
/// keeps those that land on the curve (every curve point is in the group:
/// the Pallas cofactor is one). The loop runs until `count` points are
/// found, so it terminates with probability one, as the draws are unbiased;
/// the whole sequence of accepted points is deterministic in the seed, and
/// is named `seeded_points_of`.
#[verifier::external_body]
pub(crate) fn sample_points(seed: u64, count: usize) -> (r: Vec<Point>)
    ensures
        r@.len() == count,
        forall|i: int| 0 <= i < count ==> (#[trigger] r@[i])@ == point_enc(r@[i].idx()),
        forall|i: int| 0 <= i < count ==> red((#[trigger] r@[i]).idx()),
        forall|i: int| 0 <= i < count ==> (#[trigger] r@[i])@ == seeded_points_of(
            seed,
            count as nat,
        )[i],
{
    let mut rng = rand::rngs::StdRng::seed_from_u64(seed);
    let mut out: Vec<Point> = Vec::new();
    while out.len() < count {
        let bs: [u8; 32] = rng.gen();
        let candidate = <ark_pallas::Fq as Field>::from_random_bytes(&bs)
            .and_then(|x| ark_pallas::Affine::get_point_from_x(x, false));
        if let Some(p) = candidate {
            let mut bytes = Vec::new();
            p.serialize_uncompressed(&mut bytes).unwrap();
            out.push(Point { bytes });
        }
    }
    out
}

/// A copy of a vector of points.
pub(crate) fn clone_points(v: &Vec<Point>) -> (r: Vec<Point>)
    ensures
        r@.len() == v@.len(),
        indices_of(r@) == indices_of(v@),
        forall|i: int| 0 <= i < v@.len() ==> #[trigger] r@[i]@ == v@[i]@,
{
    let mut out: Vec<Point> = Vec::new();
    let n = v.len();
    let mut i: usize = 0;
    while i < n
        invariant
            0 <= i <= n,
            v@.len() == n,
            out@.len() == i,
            forall|j: int| 0 <= j < i ==> #[trigger] out@[j]@ == v@[j]@ && out@[j].idx() == v@[j].idx(),
        decreases n - i,
    {
        out.push(v[i].dup());
        i = i + 1;
    }
    proof {
        assert(indices_of(out@) =~= indices_of(v@));
    }
    out
}

/// A deterministic source of random field elements and candidate points,
/// seeded once and stepped by each draw.
pub struct Sampler {
    pub(crate) rng: rand::rngs::StdRng,
}

#[verifier::external_type_specification]
#[verifier::external_body]
pub struct ExStdRng(rand::rngs::StdRng);

impl Sampler {
    /// Relies on `rand`'s `StdRng::seed_from_u64`.
    #[verifier::external_body]
    pub fn from_seed(seed: u64) -> Sampler {
        Sampler { rng: rand::rngs::StdRng::seed_from_u64(seed) }
    }

    /// Relies on `ark_ff`'s `UniformRand` for `Fr`: a draw is some reduced
    /// field element, here depending on the state of the generator.
    #[verifier::external_body]
    pub fn scalar(&mut self) -> Scalar {
        let f = <ark_pallas::Fr as ark_ff::UniformRand>::rand(&mut self.rng);
        let mut bytes = Vec::new();
        f.serialize(&mut bytes).unwrap();
        Scalar { bytes }
    }

}

} // verus!
