//! An inner-product-argument polynomial commitment scheme over the Pallas
//! curve: a vector of scalars is committed to with one group element, and a
//! succinct proof shows that the committed polynomial takes a claimed value
//! at a chosen point. The curve and field arithmetic, the hash, and the
//! randomness come from outside libraries behind trusted wrappers; the
//! protocol itself — commitment, recursive-halving opening, verification,
//! batching, and the additive FFT for the Lagrange basis — is verified
//! against a model of the group as the integers modulo its prime order.
use vstd::prelude::*;

pub mod algebra;
pub mod amortization;
pub mod challenges;
pub mod fft;
pub mod field;
pub mod folding;
pub mod group;
pub mod homomorphism;
pub mod prove;
pub mod seqs;
pub mod utils;
pub mod verify;

verus! {

use crate::algebra::red;
use crate::field::Scalar;
use crate::group::{indices_of, sample_points, vals_of, Point};
use crate::prove::{Commitment, UnsafeHidingCommitment};
use crate::seqs::{all_red, dot};
use vstd::arithmetic::power2::pow2;

/// What can go wrong in the scheme's own logic: a vector whose length does
/// not match the configured size, or a Fiat-Shamir challenge that cannot be
/// inverted. The expected negative outcome of verification is not an error
/// but a `None`.
#[derive(Debug)]
pub enum SchemeError {
    MismatchedLength,
    DegenerateChallenge,
}

/// How to produce the reference string: deterministically from a seed, or
/// from an explicit list of points plus a designated blinding element.
pub enum Init {
    Seed(u64),
    Elements(Vec<Point>, Point),
}

/// A vector to commit to, tagged as coefficients or as evaluations on the
/// scheme's domain.
pub enum CoeffsOrEvals {
    Coeffs(Vec<Scalar>),
    Evals(Vec<Scalar>),
}

impl From<Vec<Scalar>> for CoeffsOrEvals {
    /// A bare vector of scalars is read as coefficients.
    fn from(coeffs: Vec<Scalar>) -> (r: CoeffsOrEvals)
        ensures
            r == CoeffsOrEvals::Coeffs(coeffs),
    {
        CoeffsOrEvals::Coeffs(coeffs)
    }
}

impl vstd::std_specs::convert::FromSpecImpl<Vec<Scalar>> for CoeffsOrEvals {
    open spec fn obeys_from_spec() -> bool {
        true
    }

    open spec fn from_spec(coeffs: Vec<Scalar>) -> CoeffsOrEvals {
        CoeffsOrEvals::Coeffs(coeffs)
    }
}

/// Length of the vector inside either tag.
pub open spec fn poly_len_spec(poly: CoeffsOrEvals) -> nat {
    match poly {
        CoeffsOrEvals::Coeffs(coeffs) => coeffs@.len(),
        CoeffsOrEvals::Evals(evals) => evals@.len(),
    }
}

/// A compile-time boolean, to hang capability markers on.
pub struct Assert<const COND: bool> {}

/// Marker for `Assert<true>`.
pub trait IsTrue {}

/// Marker for `Assert<false>`.
pub trait IsFalse {}

impl IsTrue for Assert<true> {}

impl IsFalse for Assert<false> {}

/// The commitment scheme: a fixed power-of-two basis, a blinding basis
/// element, and optionally a second basis in Lagrange form for committing
/// directly to evaluation vectors.
pub struct IpaScheme {
    pub(crate) basis: Vec<Point>,
    pub(crate) evaluation_basis: Option<Vec<Point>>,
    pub(crate) blinding_basis: Point,
    pub(crate) max_degree: usize,
    pub(crate) max_size: u8,
}

impl IpaScheme {
    #[verifier::type_invariant]
    pub open(crate) spec fn wf(self) -> bool {
        &&& self.max_size <= 30
        &&& self.max_degree == pow2(self.max_size as nat)
        &&& self.basis@.len() == self.max_degree
        &&& all_red(indices_of(self.basis@))
        &&& match self.evaluation_basis {
            Some(eb) => eb@.len() == self.max_degree && all_red(indices_of(eb@)),
            None => true,
        }
    }

    /// The number of rounds of the opening protocol.
    pub open(crate) spec fn size_spec(self) -> nat {
        self.max_size as nat
    }

    /// The configured vector length, `2^max_size`.
    pub open(crate) spec fn degree_spec(self) -> nat {
        self.max_degree as nat
    }

    /// The indices of the commitment basis.
    pub open(crate) spec fn basis_spec(self) -> Seq<nat> {
        indices_of(self.basis@)
    }

    /// The index of the blinding basis element.
    pub open(crate) spec fn blinding_spec(self) -> nat {
        self.blinding_basis.idx()
    }

    /// The indices of the evaluation basis, where one was built.
    pub open(crate) spec fn eval_basis_spec(self) -> Option<Seq<nat>> {
        match self.evaluation_basis {
            Some(eb) => Some(indices_of(eb@)),
            None => None,
        }
    }

    /// The configured vector length.
    pub fn max_degree(&self) -> (r: usize)
        ensures
            r == self.degree_spec(),
    {
        self.max_degree
    }

    /// Produce the reference string and build the scheme. With a seed, the
    /// basis is sampled deterministically by rejection; with explicit
    /// elements, the first `2^max_size` supplied points become the basis.
    /// The scheme commits directly to evaluation vectors when asked to.
    pub fn init(init: Init, max_size: u8, commit_to_evals: bool) -> (r: IpaScheme)
        requires
            max_size <= 30,
            match init {
                Init::Elements(elems, _) => elems@.len() >= pow2(max_size as nat),
                Init::Seed(_) => true,
            },
        ensures
            r.size_spec() == max_size,
            r.degree_spec() == pow2(max_size as nat),
            !commit_to_evals ==> r.eval_basis_spec() is None,
            commit_to_evals ==> (r.eval_basis_spec() matches Some(eb) && eb.len()
                == r.degree_spec() && forall|i: int|
                0 <= i < eb.len() ==> eb[i] == crate::algebra::fmul(
                    crate::algebra::finv(r.degree_spec()),
                    dot(
                        r.basis_spec(),
                        crate::seqs::powers_of(
                            crate::algebra::fpow(
                                crate::fft::omega_of(r.degree_spec()),
                                #[trigger] crate::fft::rev_exp(r.degree_spec(), i),
                            ),
                            r.degree_spec(),
                        ),
                    ),
                )),
            match init {
                Init::Elements(elems, blinding) => {
                    &&& r.basis_spec() == indices_of(elems@.take(pow2(max_size as nat) as int))
                    &&& r.blinding_spec() == blinding.idx()
                },
                Init::Seed(seed) => {
                    let encs = crate::group::seeded_points_of(
                        seed,
                        pow2(max_size as nat) + 1,
                    );
                    &&& r.basis_spec() == Seq::new(
                        pow2(max_size as nat),
                        |i: int| crate::group::point_index(encs[i + 1]),
                    )
                    &&& r.blinding_spec() == crate::group::point_index(encs[0])
                },
            },
    {
        proof {
            vstd::arithmetic::power2::lemma2_to64();
            if max_size < 30 {
                vstd::arithmetic::power2::lemma_pow2_strictly_increases(max_size as nat, 30);
            }
        }
        let max_degree = pow2_usize(max_size);
        let (basis, blinding_basis) = to_elements(init, max_degree);
        let scheme = IpaScheme {
            basis,
            evaluation_basis: None,
            blinding_basis,
            max_degree,
            max_size,
        };
        if commit_to_evals {
            let eval_basis = scheme.lagrange_basis_points();
            let built = IpaScheme {
                basis: scheme.basis,
                evaluation_basis: Some(eval_basis),
                blinding_basis: scheme.blinding_basis,
                max_degree: scheme.max_degree,
                max_size: scheme.max_size,
            };
            proof {
                assert(built.eval_basis_spec() matches Some(eb) && eb == indices_of(
                    eval_basis@,
                ));
            }
            built
        } else {
            scheme
        }
    }

    /// The powers of `z` up to the scheme's size: `[1, z, z^2, ...]`.
    pub(crate) fn b(&self, z: &Scalar) -> (r: Vec<Scalar>)
        ensures
            vals_of(r@) == crate::seqs::powers_of(z.val(), self.degree_spec()),
    {
        crate::utils::powers_vec(z, self.max_degree)
    }

    /// The reference string, as one commitment per basis element.
    pub fn string(&self) -> (r: Vec<Commitment>)
        ensures
            r@.len() == self.degree_spec(),
            forall|i: int| 0 <= i < r@.len() ==> (#[trigger] r@[i]).idx() == self.basis_spec()[i],
    {
        proof {
            use_type_invariant(self);
        }
        let mut out: Vec<Commitment> = Vec::new();
        let n = self.basis.len();
        let mut i: usize = 0;
        while i < n
            invariant
                0 <= i <= n,
                self.basis@.len() == n,
                out@.len() == i,
                forall|j: int|
                    0 <= j < i ==> (#[trigger] out@[j]).idx() == indices_of(self.basis@)[j],
            decreases n - i,
        {
            out.push(Commitment { point: self.basis[i].dup() });
            i = i + 1;
        }
        out
    }

    /// The index a commitment to the given vector has: the inner product of
    /// the proper basis with the vector, an evaluation vector without a
    /// Lagrange basis going through interpolation first.
    pub open(crate) spec fn commit_spec(self, poly: CoeffsOrEvals) -> nat {
        match poly {
            CoeffsOrEvals::Coeffs(coeffs) => dot(self.basis_spec(), vals_of(coeffs@)),
            CoeffsOrEvals::Evals(evals) => match self.evaluation_basis {
                Some(eval_basis) => dot(indices_of(eval_basis@), vals_of(evals@)),
                None => dot(self.basis_spec(), crate::fft::interp_coeffs(vals_of(evals@))),
            },
        }
    }

    /// Commit to a vector: the inner product of the basis with the vector.
    /// A coefficient vector uses the coefficient basis; an evaluation vector
    /// uses the Lagrange basis when one was built at setup, and is first
    /// interpolated to coefficients when none was. Fails exactly when the
    /// vector's length is not the configured size.
    pub fn commit(&self, poly: &CoeffsOrEvals) -> (r: Result<Commitment, SchemeError>)
        ensures
            r is Ok <==> poly_len_spec(*poly) == self.degree_spec(),
            r matches Ok(c) ==> c.idx() == self.commit_spec(*poly),
            r matches Err(e) ==> e is MismatchedLength,
    {
        proof {
            use_type_invariant(self);
        }
        match poly {
            CoeffsOrEvals::Coeffs(coeffs) => {
                if coeffs.len() != self.max_degree {
                    return Err(SchemeError::MismatchedLength);
                }
                Ok(Commitment { point: crate::group::msm(&self.basis, coeffs) })
            },
            CoeffsOrEvals::Evals(evals) => {
                if evals.len() != self.max_degree {
                    return Err(SchemeError::MismatchedLength);
                }
                match &self.evaluation_basis {
                    Some(eval_basis) => Ok(
                        Commitment { point: crate::group::msm(eval_basis, evals) },
                    ),
                    None => {
                        let coeffs = crate::fft::interpolate(evals, self.max_size);
                        Ok(Commitment { point: crate::group::msm(&self.basis, &coeffs) })
                    },
                }
            },
        }
    }

    /// Commit with hiding: the binding commitment plus the blinding basis
    /// times a freshly sampled blinding scalar, which the result retains for
    /// the prover. Fails exactly when the vector's length is not the
    /// configured size.
    pub fn commit_hiding(&self, poly: &CoeffsOrEvals, rng: &mut crate::group::Sampler) -> (r:
        Result<UnsafeHidingCommitment, SchemeError>)
        ensures
            r is Ok <==> poly_len_spec(*poly) == self.degree_spec(),
            r matches Ok(c) ==> c.idx() == crate::algebra::fadd(
                self.commit_spec(*poly),
                crate::algebra::fmul(self.blinding_spec(), c.blinding_val()),
            ),
            r matches Err(e) ==> e is MismatchedLength,
    {
        let binding = self.commit(poly)?;
        let blinding = rng.scalar();
        let point = binding.point.add(&self.blinding_basis.mul(&blinding));
        Ok(UnsafeHidingCommitment { point, blinding })
    }
}

/// `2^e` as a machine integer, for small `e`.
pub(crate) fn pow2_usize(e: u8) -> (r: usize)
    requires
        e <= 30,
    ensures
        r == pow2(e as nat),
{
    proof {
        vstd::arithmetic::power2::lemma2_to64();
    }
    let mut d: usize = 1;
    let mut i: u8 = 0;
    while i < e
        invariant
            0 <= i <= e,
            e <= 30,
            d == pow2(i as nat),
        decreases e - i,
    {
        proof {
            vstd::arithmetic::power2::lemma_pow2_strictly_increases(i as nat, 30);
            vstd::arithmetic::power2::lemma_pow2_unfold((i + 1) as nat);
            vstd::arithmetic::power2::lemma2_to64();
        }
        d = d * 2;
        i = i + 1;
    }
    d
}

/// Turn the initialization mode into the basis and the blinding element.
fn to_elements(init: Init, size: usize) -> (r: (Vec<Point>, Point))
    requires
        size < usize::MAX,
        match init {
            Init::Elements(elems, _) => elems@.len() >= size,
            Init::Seed(_) => true,
        },
    ensures
        r.0@.len() == size,
        all_red(indices_of(r.0@)),
        match init {
            Init::Elements(elems, blinding) => {
                &&& indices_of(r.0@) == indices_of(elems@.take(size as int))
                &&& r.1.idx() == blinding.idx()
            },
            Init::Seed(seed) => {
                let encs = crate::group::seeded_points_of(seed, (size + 1) as nat);
                &&& indices_of(r.0@) == Seq::new(
                    size as nat,
                    |i: int| crate::group::point_index(encs[i + 1]),
                )
                &&& r.1.idx() == crate::group::point_index(encs[0])
            },
        },
{
    match init {
        Init::Seed(seed) => {
            let mut points = sample_points(seed, size + 1);
            let blinding = points.remove(0);
            proof {
                let encs = crate::group::seeded_points_of(seed, (size + 1) as nat);
                assert forall|i: int| 0 <= i < size implies red(
                    #[trigger] indices_of(points@)[i],
                ) by {
                    assert(points@[i].idx() == indices_of(points@)[i]);
                }
                assert(indices_of(points@) =~= Seq::new(
                    size as nat,
                    |i: int| crate::group::point_index(encs[i + 1]),
                ));
            }
            (points, blinding)
        },
        Init::Elements(elems, blinding) => {
            let mut out: Vec<Point> = Vec::new();
            let mut i: usize = 0;
            while i < size
                invariant
                    0 <= i <= size,
                    elems@.len() >= size,
                    out@.len() == i,
                    forall|j: int|
                        0 <= j < i ==> (#[trigger] out@[j]).idx() == elems@[j].idx() && red(
                            out@[j].idx(),
                        ),
                decreases size - i,
            {
                let p = &elems[i];
                proof {
                    use_type_invariant(p);
                }
                out.push(p.dup());
                i = i + 1;
            }
            proof {
                assert(indices_of(out@) =~= indices_of(elems@.take(size as int)));
                assert forall|i: int| 0 <= i < size implies red(
                    #[trigger] indices_of(out@)[i],
                ) by {
                    assert(indices_of(out@)[i] == out@[i].idx());
                }
            }
            (out, blinding)
        },
    }
}

} // verus!
