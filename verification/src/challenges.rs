//! Fiat-Shamir challenge derivation. A transcript is an append-only byte
//! buffer of canonical encodings; finalizing hashes the buffer with
//! Blake2s-256, seeds `rand`'s standard generator with the digest, and draws
//! field elements by the `ark_ff` rejection sampler. The whole pipeline is a
//! function of the buffered bytes alone, so each draw is given a name over
//! those bytes and both sides of the protocol recompute it bit for bit.
use ark_ec::{AffineCurve, ProjectiveCurve};
use ark_ff::PrimeField;
use ark_serialize::{CanonicalDeserialize, CanonicalSerialize};
use blake2::{Blake2s256, Digest};
use rand::SeedableRng;
use vstd::prelude::*;

verus! {

use crate::field::Scalar;
use crate::group::{point_enc, point_index, Point};
use crate::prove::Commitment;

/// The first field element drawn from the generator seeded with the
/// Blake2s-256 digest of the given bytes.
pub uninterp spec fn challenge_of(data: Seq<u8>) -> nat;

/// The second field element drawn from the same generator.
pub uninterp spec fn second_challenge_of(data: Seq<u8>) -> nat;

/// An append-only Fiat-Shamir transcript, consumed once to derive
/// challenges.
pub struct ChallengeGenerator {
    pub(crate) data: Vec<u8>,
}

impl View for ChallengeGenerator {
    type V = Seq<u8>;

    open(crate) spec fn view(&self) -> Seq<u8> {
        self.data@
    }
}

impl ChallengeGenerator {
    /// An empty transcript.
    pub fn new() -> (r: ChallengeGenerator)
        ensures
            r@ == Seq::<u8>::empty(),
    {
        let r = ChallengeGenerator { data: Vec::new() };
        proof {
            assert(r@ =~= Seq::<u8>::empty());
        }
        r
    }

    /// Append the canonical encoding of a point.
    pub fn digest(&mut self, element: &Point)
        ensures
            final(self)@ == old(self)@ + element@,
    {
        let mut bytes = element.to_bytes();
        self.data.append(&mut bytes);
    }

    /// Append the canonical encoding of a scalar.
    pub fn digest_scalar(&mut self, element: &Scalar)
        ensures
            final(self)@ == old(self)@ + element@,
    {
        let mut bytes = element.to_bytes();
        self.data.append(&mut bytes);
    }

    /// Append a per-item folded basis point when deriving the amortization
    /// challenges.
    pub fn digest_for_amortization(&mut self, commitment: &Point)
        ensures
            final(self)@ == old(self)@ + commitment@,
    {
        self.digest(commitment);
    }

    /// Derive the linear-combination element and the batch evaluation point.
    pub fn amortization_elements(self) -> (r: (Scalar, Scalar))
        ensures
            r.0.val() == challenge_of(self@),
            r.1.val() == second_challenge_of(self@),
    {
        finalize_pair(&self.data)
    }

    /// Derive the group element that binds an evaluation claim to its
    /// commitment and point.
    pub fn inner_product_basis(commitment: &Commitment, point: &Scalar) -> (r: Point)
        ensures
            r.idx() == challenge_of(commitment@ + point@),
    {
        let mut generator = Self::new();
        generator.digest(&commitment.point);
        generator.digest_scalar(point);
        proof {
            assert(generator@ =~= commitment@ + point@);
        }
        finalize_point(&generator.data)
    }

    /// Derive one round's folding challenge from the round's two cross
    /// points.
    pub fn round_challenge(lj: &Point, rj: &Point) -> (r: Scalar)
        ensures
            r.val() == challenge_of(lj@ + rj@),
    {
        let mut generator = Self::new();
        generator.digest(lj);
        generator.digest(rj);
        proof {
            assert(generator@ =~= lj@ + rj@);
        }
        finalize_scalar(&generator.data)
    }
}

/// Relies on `blake2`'s Blake2s-256, `rand`'s `StdRng::from_seed` and
/// `ark_ff`'s `UniformRand` for `Fr`: the draw is a deterministic function
/// of the digested bytes, named `challenge_of`.
#[verifier::external_body]
fn finalize_scalar(data: &Vec<u8>) -> (r: Scalar)
    ensures
        r.val() == challenge_of(data@),
{
    let seed: [u8; 32] = Blake2s256::digest(data).into();
    let mut rng = rand::rngs::StdRng::from_seed(seed);
    let f = <ark_pallas::Fr as ark_ff::UniformRand>::rand(&mut rng);
    let mut bytes = Vec::new();
    f.serialize(&mut bytes).unwrap();
    Scalar { bytes }
}

/// Relies on the same pipeline as `finalize_scalar`, drawing twice: the two
/// draws are deterministic functions of the digested bytes, named
/// `challenge_of` and `second_challenge_of`.
#[verifier::external_body]
fn finalize_pair(data: &Vec<u8>) -> (r: (Scalar, Scalar))
    ensures
        r.0.val() == challenge_of(data@),
        r.1.val() == second_challenge_of(data@),
{
    let seed: [u8; 32] = Blake2s256::digest(data).into();
    let mut rng = rand::rngs::StdRng::from_seed(seed);
    let f0 = <ark_pallas::Fr as ark_ff::UniformRand>::rand(&mut rng);
    let f1 = <ark_pallas::Fr as ark_ff::UniformRand>::rand(&mut rng);
    let mut b0 = Vec::new();
    f0.serialize(&mut b0).unwrap();
    let mut b1 = Vec::new();
    f1.serialize(&mut b1).unwrap();
    (Scalar { bytes: b0 }, Scalar { bytes: b1 })
}

/// Relies on the same pipeline as `finalize_scalar`, then on `ark_ec`
/// scalar multiplication of the standard generator: the result is the point
/// whose index is the drawn scalar, named `challenge_of`.
#[verifier::external_body]
fn finalize_point(data: &Vec<u8>) -> (r: Point)
    ensures
        r@ == point_enc(point_index(r@)),
        point_index(r@) == challenge_of(data@),
{
    let seed: [u8; 32] = Blake2s256::digest(data).into();
    let mut rng = rand::rngs::StdRng::from_seed(seed);
    let f = <ark_pallas::Fr as ark_ff::UniformRand>::rand(&mut rng);
    let p = ark_pallas::Affine::prime_subgroup_generator().mul(f.into_repr()).into_affine();
    let mut bytes = Vec::new();
    p.serialize_uncompressed(&mut bytes).unwrap();
    Point { bytes }
}

} // verus!
