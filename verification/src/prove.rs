//! Proof objects, commitments and the opening (prover) side of the
//! protocol: the recursive halving is run as a loop over a power-of-two
//! state, producing one `(L, R)` pair per round and a terminal scalar.
use vstd::prelude::*;

verus! {

use crate::algebra::{fadd, finv, fmul, red};
use crate::challenges::{challenge_of, ChallengeGenerator};
use crate::field::Scalar;
use crate::folding::{fold_all, fold_with, l_index, r_index, vcomb};
use crate::group::{indices_of, point_enc, point_index, vals_of, Point};
use crate::seqs::{dot, powers_of, seq_fadd, seq_scale};
use crate::verify::{accepts_binding, chals_ok, p_acc, round_chal, round_chals, zip_pairs};
use crate::{IpaScheme, SchemeError};
use vstd::arithmetic::power2::pow2;

/// A binding commitment: a single group element.
pub struct Commitment {
    pub(crate) point: Point,
}

impl View for Commitment {
    type V = Seq<u8>;

    open(crate) spec fn view(&self) -> Seq<u8> {
        self.point@
    }
}

impl Commitment {
    /// The group-element index the commitment stands for.
    pub open spec fn idx(&self) -> nat {
        crate::group::point_index(self@)
    }

    /// The canonical wire encoding of the commitment.
    pub fn to_bytes(&self) -> (r: Vec<u8>)
        ensures
            r@ == self@,
    {
        self.point.to_bytes()
    }

    /// A copy of the commitment.
    pub fn dup(&self) -> (r: Commitment)
        ensures
            r@ == self@,
            r.idx() == self.idx(),
    {
        Commitment { point: self.point.dup() }
    }

    /// Equality of the committed group elements.
    pub fn equals(&self, other: &Commitment) -> (r: bool)
        ensures
            r == (self.idx() == other.idx()),
    {
        self.point.equals(&other.point)
    }

    /// The committed group element itself.
    pub fn point_value(&self) -> (r: Point)
        ensures
            r@ == self@,
            r.idx() == self.idx(),
    {
        self.point.dup()
    }
}

/// The blinding scalar of a hiding commitment: a prover-local opening key,
/// never to be shared with a verifier.
pub struct Blinding {
    pub(crate) scalar: Scalar,
}

impl Blinding {
    /// The blinding value.
    pub open(crate) spec fn val(&self) -> nat {
        self.scalar.val()
    }

    /// A copy of the blinding key.
    pub fn dup(&self) -> (r: Blinding)
        ensures
            r.val() == self.val(),
    {
        Blinding { scalar: self.scalar.dup() }
    }
}

/// A hiding commitment together with its blinding scalar. Only the
/// commitment half may be shared: the blinding scalar breaks hiding if it
/// ever leaves the prover.
pub struct UnsafeHidingCommitment {
    pub(crate) point: Point,
    pub(crate) blinding: Scalar,
}

impl UnsafeHidingCommitment {
    /// The group-element index of the public half.
    pub open(crate) spec fn idx(&self) -> nat {
        self.point.idx()
    }

    /// The blinding value.
    pub open(crate) spec fn blinding_val(&self) -> nat {
        self.blinding.val()
    }

    /// The canonical encoding of the public half.
    pub open(crate) spec fn enc(&self) -> Seq<u8> {
        self.point@
    }

    /// The public half, safe to share.
    pub fn commitment(&self) -> (r: Commitment)
        ensures
            r@ == self.enc(),
            r.idx() == self.idx(),
    {
        Commitment { point: self.point.dup() }
    }

    /// The prover-local blinding key.
    pub fn blinding(&self) -> (r: Blinding)
        ensures
            r.val() == self.blinding_val(),
    {
        Blinding { scalar: self.blinding.dup() }
    }
}

/// An opening proof for a binding commitment: the evaluation point, the
/// claimed evaluation, one `(L, R)` pair per round, and the terminal scalar.
pub struct Opening {
    pub(crate) point: Scalar,
    pub(crate) eval: Scalar,
    pub(crate) rounds: Vec<(Point, Point)>,
    pub(crate) a: Scalar,
}

impl Opening {
    /// The value of the evaluation point the proof speaks of.
    pub open(crate) spec fn point_val(&self) -> nat {
        self.point.val()
    }

    /// The value of the claimed evaluation.
    pub open(crate) spec fn eval_val(&self) -> nat {
        self.eval.val()
    }

    /// The value of the terminal folded scalar.
    pub open(crate) spec fn a_val(&self) -> nat {
        self.a.val()
    }

    /// The number of rounds the proof carries.
    pub open(crate) spec fn rounds_len(&self) -> nat {
        self.rounds@.len()
    }

    /// The round pairs the proof carries.
    pub open(crate) spec fn rounds_seq(&self) -> Seq<(Point, Point)> {
        self.rounds@
    }

    /// The claimed evaluation.
    pub fn eval(&self) -> (r: Scalar)
        ensures
            r.val() == self.eval_val(),
    {
        self.eval.dup()
    }
}

/// An opening proof for a hiding commitment: as `Opening`, plus the
/// accumulated blinding scalar.
pub struct HidingOpening {
    pub(crate) point: Scalar,
    pub(crate) eval: Scalar,
    pub(crate) rounds: Vec<(Point, Point)>,
    pub(crate) a: Scalar,
    pub(crate) blinding_factor: Scalar,
}

impl HidingOpening {
    /// The value of the terminal folded scalar.
    pub open(crate) spec fn a_val(&self) -> nat {
        self.a.val()
    }

    /// The round pairs the proof carries.
    pub open(crate) spec fn rounds_seq(&self) -> Seq<(Point, Point)> {
        self.rounds@
    }

    /// The number of rounds the proof carries.
    pub open(crate) spec fn rounds_len(&self) -> nat {
        self.rounds@.len()
    }

    /// The value of the evaluation point the proof speaks of.
    pub open(crate) spec fn point_val(&self) -> nat {
        self.point.val()
    }

    /// The value of the claimed evaluation.
    pub open(crate) spec fn eval_val(&self) -> nat {
        self.eval.val()
    }

    /// The claimed evaluation.
    pub fn eval(&self) -> (r: Scalar)
        ensures
            r.val() == self.eval_val(),
    {
        self.eval.dup()
    }
}

/// The folding challenge the prover derives from the current state: the
/// Fiat-Shamir challenge of the canonical encodings of the two cross points.
pub open(crate) spec fn chain_challenge(g: Seq<nat>, a: Seq<nat>, b: Seq<nat>, u: nat) -> nat {
    challenge_of(point_enc(l_index(g, a, b, u)) + point_enc(r_index(g, a, b, u)))
}

/// Whether the deterministic challenge chain of a binding opening run ever
/// derives a zero challenge, which would stop the run.
pub open(crate) spec fn chain_has_zero(g: Seq<nat>, a: Seq<nat>, b: Seq<nat>, u: nat) -> bool
    decreases g.len(),
{
    if g.len() < 2 {
        false
    } else {
        let x = chain_challenge(g, a, b, u);
        ||| x == 0
        ||| chain_has_zero(
            fold_with(g, finv(x), x),
            fold_with(a, x, finv(x)),
            fold_with(b, finv(x), x),
            u,
        )
    }
}

/// The deterministic list of challenges, with their inverses, that a binding
/// opening run derives from its starting state, round by round.
pub open(crate) spec fn chain_chals(g: Seq<nat>, a: Seq<nat>, b: Seq<nat>, u: nat) -> Seq<
    (nat, nat),
>
    decreases g.len(),
{
    if g.len() < 2 {
        Seq::empty()
    } else {
        let x = chain_challenge(g, a, b, u);
        seq![(x, finv(x))] + chain_chals(
            fold_with(g, finv(x), x),
            fold_with(a, x, finv(x)),
            fold_with(b, finv(x), x),
            u,
        )
    }
}

impl IpaScheme {
    /// Open a binding commitment at a point: run the recursive halving over
    /// the coefficient vector, the basis and the powers of the point,
    /// producing one `(L, R)` pair per round and the terminal scalar. For a
    /// commitment to the vector and an honestly evaluated claim the result
    /// satisfies the verifier's acceptance equation; for any other claimed
    /// evaluation it satisfies it exactly when the binding challenge times
    /// the claim's deviation vanishes. Fails exactly when the vector's
    /// length is not the configured size or the deterministic challenge
    /// chain hits zero.
    pub fn open(
        &self,
        commitment: &Commitment,
        coeffs: &Vec<Scalar>,
        point: &Scalar,
        eval: &Scalar,
    ) -> (r: Result<Opening, SchemeError>)
        ensures
            r is Ok <==> (coeffs@.len() == self.degree_spec() && !chain_has_zero(
                self.basis_spec(),
                vals_of(coeffs@),
                powers_of(point.val(), self.degree_spec()),
                challenge_of(commitment@ + point@),
            )),
            r matches Ok(o) ==> {
                &&& o.point_val() == point.val()
                &&& o.eval_val() == eval.val()
                &&& o.rounds_len() == self.size_spec()
                &&& round_chals(o.rounds_seq()) == chain_chals(
                    self.basis_spec(),
                    vals_of(coeffs@),
                    powers_of(point.val(), self.degree_spec()),
                    challenge_of(commitment@ + point@),
                )
                &&& o.a_val() == crate::folding::fold_all_swap(
                    vals_of(coeffs@),
                    round_chals(o.rounds_seq()),
                )[0]
                &&& (commitment.idx() == dot(self.basis_spec(), vals_of(coeffs@))
                    && eval.val() == dot(
                    vals_of(coeffs@),
                    powers_of(point.val(), self.degree_spec()),
                )) ==> accepts_binding(self.basis_spec(), commitment@, o)
                &&& commitment.idx() == dot(self.basis_spec(), vals_of(coeffs@)) ==> (
                accepts_binding(self.basis_spec(), commitment@, o) <==> fmul(
                    challenge_of(commitment@ + point@),
                    fadd(
                        eval.val(),
                        crate::algebra::fneg(
                            dot(vals_of(coeffs@), powers_of(point.val(), self.degree_spec())),
                        ),
                    ),
                ) == 0)
            },
            r matches Err(e) ==> (if coeffs@.len() != self.degree_spec() {
                e is MismatchedLength
            } else {
                e is DegenerateChallenge
            }),
    {
        match self.open_internal(commitment, coeffs, point, eval) {
            Ok((opening, _, _, _)) => Ok(opening),
            Err(e) => Err(e),
        }
    }

    /// The opening run itself, also handing back the final folded basis
    /// element and the derived challenges with their inverses, which the
    /// batch layer digests and expands.
    pub(crate) fn open_internal(
        &self,
        commitment: &Commitment,
        coeffs: &Vec<Scalar>,
        point: &Scalar,
        eval: &Scalar,
    ) -> (r: Result<(Opening, Point, Vec<Scalar>, Vec<Scalar>), SchemeError>)
        ensures
            r is Ok <==> (coeffs@.len() == self.degree_spec() && !chain_has_zero(
                self.basis_spec(),
                vals_of(coeffs@),
                powers_of(point.val(), self.degree_spec()),
                challenge_of(commitment@ + point@),
            )),
            r matches Ok((o, fb, xs, xinvs)) ==> {
                &&& o.point_val() == point.val()
                &&& o.eval_val() == eval.val()
                &&& o.rounds_len() == self.size_spec()
                &&& fb@ == point_enc(fb.idx())
                &&& fb.idx() == dot(
                    self.basis_spec(),
                    crate::folding::tensor(round_chals(o.rounds@)),
                )
                &&& xs@.len() == o.rounds@.len()
                &&& xinvs@.len() == o.rounds@.len()
                &&& crate::verify::zip_pairs(vals_of(xs@), vals_of(xinvs@)) == round_chals(
                    o.rounds@,
                )
                &&& chals_ok(o.rounds@)
                &&& round_chals(o.rounds@) == chain_chals(
                    self.basis_spec(),
                    vals_of(coeffs@),
                    powers_of(point.val(), self.degree_spec()),
                    challenge_of(commitment@ + point@),
                )
                &&& o.a_val() == crate::folding::fold_all_swap(
                    vals_of(coeffs@),
                    round_chals(o.rounds@),
                )[0]
                &&& (commitment.idx() == dot(self.basis_spec(), vals_of(coeffs@))
                    && eval.val() == dot(
                    vals_of(coeffs@),
                    powers_of(point.val(), self.degree_spec()),
                )) ==> accepts_binding(self.basis_spec(), commitment@, o)
                &&& commitment.idx() == dot(self.basis_spec(), vals_of(coeffs@)) ==> (
                accepts_binding(self.basis_spec(), commitment@, o) <==> fmul(
                    challenge_of(commitment@ + point@),
                    fadd(
                        eval.val(),
                        crate::algebra::fneg(
                            dot(vals_of(coeffs@), powers_of(point.val(), self.degree_spec())),
                        ),
                    ),
                ) == 0)
            },
            r matches Err(e) ==> (if coeffs@.len() != self.degree_spec() {
                e is MismatchedLength
            } else {
                e is DegenerateChallenge
            }),
    {
        proof {
            use_type_invariant(self);
        }
        if coeffs.len() != self.max_degree {
            return Err(SchemeError::MismatchedLength);
        }
        let u = ChallengeGenerator::inner_product_basis(commitment, point);
        let mut g = crate::group::clone_points(&self.basis);
        let mut av = crate::field::clone_scalars(coeffs);
        let mut bv = self.b(point);
        let mut rounds: Vec<(Point, Point)> = Vec::new();
        let mut xs: Vec<Scalar> = Vec::new();
        let mut xinvs: Vec<Scalar> = Vec::new();
        let zero = Scalar::from_u64(0);
        let k = self.max_size;
        let ghost g0 = indices_of(self.basis@);
        let ghost a0 = vals_of(coeffs@);
        let ghost b0 = powers_of(point.val(), self.degree_spec());
        let ghost uv = challenge_of(commitment@ + point@);
        proof {
            assert(vals_of(bv@).len() == bv@.len());
            assert(vals_of(av@).len() == av@.len());
            assert(indices_of(g@).len() == g@.len());
            assert(powers_of(point.val(), self.degree_spec()).len() == self.degree_spec());
            assert(round_chals(rounds@).len() == 0);
            assert(chain_chals(g0, a0, b0, uv) =~= round_chals(rounds@) + chain_chals(
                g0,
                a0,
                b0,
                uv,
            ));
        }
        while g.len() > 1
            invariant
                g@.len() == av@.len(),
                g@.len() == bv@.len(),
                rounds@.len() <= k,
                k == self.size_spec(),
                g@.len() == pow2((k - rounds@.len()) as nat),
                zero.val() == 0,
                u.idx() == uv,
                coeffs@.len() == self.degree_spec(),
                g0 == indices_of(self.basis@),
                a0 == vals_of(coeffs@),
                b0 == powers_of(point.val(), self.degree_spec()),
                uv == challenge_of(commitment@ + point@),
                indices_of(g@) == fold_all(g0, round_chals(rounds@)),
                vals_of(av@) == crate::folding::fold_all_swap(a0, round_chals(rounds@)),
                vals_of(bv@) == fold_all(b0, round_chals(rounds@)),
                vcomb(indices_of(g@), vals_of(av@), vals_of(bv@), uv) == p_acc(
                    vcomb(g0, a0, b0, uv),
                    rounds@,
                ),
                chain_has_zero(g0, a0, b0, uv) == chain_has_zero(
                    indices_of(g@),
                    vals_of(av@),
                    vals_of(bv@),
                    uv,
                ),
                chain_chals(g0, a0, b0, uv) == round_chals(rounds@) + chain_chals(
                    indices_of(g@),
                    vals_of(av@),
                    vals_of(bv@),
                    uv,
                ),
                chals_ok(rounds@),
                xs@.len() == rounds@.len(),
                xinvs@.len() == rounds@.len(),
                forall|i: int|
                    0 <= i < rounds@.len() ==> (#[trigger] xs@[i]).val() == round_chals(
                        rounds@,
                    )[i].0,
                forall|i: int|
                    0 <= i < rounds@.len() ==> (#[trigger] xinvs@[i]).val() == round_chals(
                        rounds@,
                    )[i].1,
            decreases g@.len(),
        {
            let m2 = g.len();
            let m = m2 / 2;
            proof {
                assert(rounds@.len() < k) by {
                    if rounds@.len() == k {
                        vstd::arithmetic::power::lemma_pow0(2);
                    }
                }
                assert(m2 >= 2 && m2 % 2 == 0) by {
                    vstd::arithmetic::power2::lemma_pow2_unfold((k - rounds@.len()) as nat);
                    vstd::arithmetic::power2::lemma_pow2_pos(((k - rounds@.len()) - 1) as nat);
                }
            }
            let (g_l, g_r) = crate::utils::split(g.as_slice());
            let (a_l, a_r) = crate::utils::split(av.as_slice());
            let (b_l, b_r) = crate::utils::split(bv.as_slice());
            proof {
                assert(indices_of(g@.take(m as int)) =~= indices_of(g@).take(m as int));
                assert(indices_of(g@.skip(m as int)) =~= indices_of(g@).skip(m as int));
                assert(vals_of(av@.take(m as int)) =~= vals_of(av@).take(m as int));
                assert(vals_of(av@.skip(m as int)) =~= vals_of(av@).skip(m as int));
                assert(vals_of(bv@.take(m as int)) =~= vals_of(bv@).take(m as int));
                assert(vals_of(bv@.skip(m as int)) =~= vals_of(bv@).skip(m as int));
            }
            let lj = crate::utils::inner_product(g_r, a_l).add(
                &u.mul(&crate::utils::scalar_inner_product(a_l, b_r)),
            );
            let rj = crate::utils::inner_product(g_l, a_r).add(
                &u.mul(&crate::utils::scalar_inner_product(a_r, b_l)),
            );
            let ghost gs = indices_of(g@);
            let ghost avs = vals_of(av@);
            let ghost bvs = vals_of(bv@);
            proof {
                use_type_invariant(&lj);
                use_type_invariant(&rj);
                assert(lj.idx() == l_index(gs, avs, bvs, uv));
                assert(rj.idx() == r_index(gs, avs, bvs, uv));
            }
            let x = ChallengeGenerator::round_challenge(&lj, &rj);
            proof {
                assert(x.val() == chain_challenge(gs, avs, bvs, uv));
            }
            if x.equals(&zero) {
                proof {
                    assert(chain_has_zero(gs, avs, bvs, uv));
                }
                return Err(SchemeError::DegenerateChallenge);
            }
            let xi = x.inverse();
            proof {
                use_type_invariant(&xi);
                crate::algebra::lemma_finv_unique(x.val(), xi.val());
            }
            let na = crate::utils::compress(a_r, a_l, &x, &xi);
            let nb = crate::utils::compress(b_l, b_r, &x, &xi);
            let ng = crate::utils::compress_basis(g_l, g_r, &x, &xi);
            proof {
                crate::seqs::lemma_seq_fadd_comm(
                    seq_scale(xi.val(), avs.skip(m as int)),
                    seq_scale(x.val(), avs.take(m as int)),
                );
                assert(vals_of(na@) == fold_with(avs, x.val(), xi.val()));
                assert(vals_of(nb@) == fold_with(bvs, xi.val(), x.val()));
                assert(indices_of(ng@) == fold_with(gs, xi.val(), x.val()));
            }
            let ghost old_rounds = rounds@;
            rounds.push((lj, rj));
            xs.push(x.dup());
            xinvs.push(xi.dup());
            proof {
                let rd = (lj, rj);
                let pr = (x.val(), xi.val());
                assert(round_chal(rd) == x.val());
                assert(round_chals(rounds@) =~= round_chals(old_rounds).push(pr));
                assert(forall|i: int|
                    0 <= i < old_rounds.len() ==> round_chals(rounds@)[i] == round_chals(
                        old_rounds,
                    )[i]);
                crate::folding::lemma_fold_all_snoc(g0, round_chals(old_rounds), pr);
                crate::folding::lemma_fold_all_swap_snoc(a0, round_chals(old_rounds), pr);
                crate::folding::lemma_fold_all_snoc(b0, round_chals(old_rounds), pr);
                crate::folding::lemma_round_invariant(gs, avs, bvs, uv, x.val(), xi.val());
                crate::verify::lemma_p_acc_snoc(vcomb(g0, a0, b0, uv), old_rounds, rd);
                assert(forall|i: int|
                    0 <= i < old_rounds.len() ==> round_chals(rounds@)[i]
                        == round_chals(old_rounds)[i]);
                assert(chals_ok(rounds@));
                // the chain steps in lockstep with the executable fold
                assert(chain_has_zero(gs, avs, bvs, uv) == chain_has_zero(
                    indices_of(ng@),
                    vals_of(na@),
                    vals_of(nb@),
                    uv,
                ));
                assert(chain_chals(gs, avs, bvs, uv) == seq![pr] + chain_chals(
                    indices_of(ng@),
                    vals_of(na@),
                    vals_of(nb@),
                    uv,
                ));
                assert(round_chals(rounds@) + chain_chals(
                    indices_of(ng@),
                    vals_of(na@),
                    vals_of(nb@),
                    uv,
                ) =~= round_chals(old_rounds) + chain_chals(gs, avs, bvs, uv));
                assert(ng@.len() == m) by {
                    assert(indices_of(ng@).len() == fold_with(gs, xi.val(), x.val()).len());
                }
                assert(m == pow2((k - rounds@.len()) as nat)) by {
                    vstd::arithmetic::power2::lemma_pow2_unfold((k - old_rounds.len()) as nat);
                }
            }
            g = ng;
            av = na;
            bv = nb;
        }
        proof {
            vstd::arithmetic::power::lemma_pow0(2);
            assert(rounds@.len() == k) by {
                if rounds@.len() < k {
                    vstd::arithmetic::power2::lemma_pow2_strictly_increases(
                        0,
                        (k - rounds@.len()) as nat,
                    );
                }
            }
            assert(g@.len() == 1 && av@.len() == 1 && bv@.len() == 1);
            assert(!chain_has_zero(g0, a0, b0, uv));
        }
        let terminal = av[0].dup();
        let opening = Opening {
            point: point.dup(),
            eval: eval.dup(),
            rounds,
            a: terminal,
        };
        proof {
            let ch = round_chals(opening.rounds@);
            crate::folding::lemma_tensor_len(ch);
            crate::seqs::lemma_powers_red(point.val(), self.degree_spec());
            crate::folding::lemma_fold_all_tensor(g0, ch);
            crate::folding::lemma_fold_all_tensor(b0, ch);
            // the tracked combination at length one is the acceptance equation
            let gf = indices_of(g@);
            let af = vals_of(av@);
            let bf = vals_of(bv@);
            assert(gf.len() == 1 && af.len() == 1 && bf.len() == 1);
            assert(gf.skip(1).len() == 0 && af.skip(1).len() == 0 && bf.skip(1).len() == 0);
            assert(dot(gf.skip(1), af.skip(1)) == 0);
            assert(dot(af.skip(1), bf.skip(1)) == 0);
            assert(dot(gf, af) == fadd(fmul(gf[0], af[0]), 0));
            assert(dot(af, bf) == fadd(fmul(af[0], bf[0]), 0));
            crate::algebra::lemma_fmul_red(gf[0], af[0]);
            crate::algebra::lemma_fmul_red(af[0], bf[0]);
            crate::algebra::lemma_fadd_zero(fmul(gf[0], af[0]));
            crate::algebra::lemma_fadd_zero(fmul(af[0], bf[0]));
            assert(gf[0] == dot(g0, crate::folding::tensor(ch)));
            assert(bf[0] == crate::folding::chal_product(ch, point.val())) by {
                crate::folding::lemma_tensor_powers(ch, point.val());
            }
            assert(af[0] == opening.a_val());
            assert(zip_pairs(vals_of(xs@), vals_of(xinvs@)) =~= round_chals(opening.rounds@));
            assert(chain_chals(gf, af, bf, uv).len() == 0);
            assert(chain_chals(g0, a0, b0, uv) =~= round_chals(opening.rounds@));
            // the verdict for an arbitrary claim, given an honest commitment
            if commitment.idx() == dot(g0, a0) {
                use_type_invariant(eval);
                let e = eval.val();
                let t = dot(a0, b0);
                let pe = fadd(point_index(commitment@), fmul(uv, e));
                let pt = fadd(point_index(commitment@), fmul(uv, t));
                assert(vcomb(g0, a0, b0, uv) == pt);
                crate::algebra::lemma_fadd_red(point_index(commitment@), fmul(uv, e));
                crate::algebra::lemma_fadd_red(point_index(commitment@), fmul(uv, t));
                crate::verify::lemma_p_acc_inj(pe, pt, opening.rounds@);
                crate::seqs::lemma_dot_red(a0, b0);
                crate::algebra::lemma_fmul_red(uv, e);
                crate::algebra::lemma_fmul_red(uv, t);
                crate::algebra::lemma_fadd_cancel(point_index(commitment@), fmul(uv, e), fmul(uv, t));
                crate::algebra::lemma_mul_diff_zero(uv, e, t);
                assert(accepts_binding(self.basis_spec(), commitment@, opening) <==> fmul(
                    uv,
                    fadd(e, crate::algebra::fneg(t)),
                ) == 0);
            }
        }
        let fb = g[0].dup();
        proof {
            use_type_invariant(&fb);
        }
        Ok((opening, fb, xs, xinvs))
    }
}

impl IpaScheme {
    /// Open a hiding commitment at a point: the same recursive halving, with
    /// two fresh blinding scalars mixed into each round's cross points and
    /// folded into the blinding accumulator that the proof carries. For a
    /// hiding commitment to the vector under the given blinding key, the
    /// result satisfies the hiding acceptance equation exactly when the
    /// binding challenge times the claim's deviation vanishes — so always
    /// for an honestly evaluated claim — whatever blinding scalars were
    /// sampled. Fails when the
    /// vector's length is not the configured size, or, exceptionally, when a
    /// derived challenge cannot be inverted.
    pub fn open_hiding(
        &self,
        commitment: &Commitment,
        blinding: &Blinding,
        coeffs: &Vec<Scalar>,
        point: &Scalar,
        eval: &Scalar,
        rng: &mut crate::group::Sampler,
    ) -> (r: Result<HidingOpening, SchemeError>)
        ensures
            coeffs@.len() != self.degree_spec() ==> (r matches Err(e) && e is MismatchedLength),
            r matches Err(e) ==> (if coeffs@.len() != self.degree_spec() {
                e is MismatchedLength
            } else {
                e is DegenerateChallenge
            }),
            r matches Ok(o) ==> {
                &&& o.point_val() == point.val()
                &&& o.eval_val() == eval.val()
                &&& o.rounds_len() == self.size_spec()
                &&& o.a_val() == crate::folding::fold_all_swap(
                    vals_of(coeffs@),
                    round_chals(o.rounds_seq()),
                )[0]
                &&& (commitment.idx() == fadd(
                    dot(self.basis_spec(), vals_of(coeffs@)),
                    fmul(self.blinding_spec(), blinding.val()),
                ) && eval.val() == dot(
                    vals_of(coeffs@),
                    powers_of(point.val(), self.degree_spec()),
                )) ==> crate::verify::accepts_hiding(
                    self.basis_spec(),
                    self.blinding_spec(),
                    commitment@,
                    o,
                )
                &&& commitment.idx() == fadd(
                    dot(self.basis_spec(), vals_of(coeffs@)),
                    fmul(self.blinding_spec(), blinding.val()),
                ) ==> (crate::verify::accepts_hiding(
                    self.basis_spec(),
                    self.blinding_spec(),
                    commitment@,
                    o,
                ) <==> fmul(
                    challenge_of(commitment@ + point@),
                    fadd(
                        eval.val(),
                        crate::algebra::fneg(
                            dot(vals_of(coeffs@), powers_of(point.val(), self.degree_spec())),
                        ),
                    ),
                ) == 0)
            },
    {
        proof {
            use_type_invariant(self);
            use_type_invariant(&self.blinding_basis);
        }
        if coeffs.len() != self.max_degree {
            return Err(SchemeError::MismatchedLength);
        }
        let u = ChallengeGenerator::inner_product_basis(commitment, point);
        let mut g = crate::group::clone_points(&self.basis);
        let mut av = crate::field::clone_scalars(coeffs);
        let mut bv = self.b(point);
        let mut blind = blinding.scalar.dup();
        let mut rounds: Vec<(Point, Point)> = Vec::new();
        let zero = Scalar::from_u64(0);
        let k = self.max_size;
        let ghost g0 = indices_of(self.basis@);
        let ghost a0 = vals_of(coeffs@);
        let ghost b0 = powers_of(point.val(), self.degree_spec());
        let ghost uv = challenge_of(commitment@ + point@);
        let ghost bbv = self.blinding_spec();
        let ghost p0 = fadd(vcomb(g0, a0, b0, uv), fmul(bbv, blinding.val()));
        proof {
            assert(vals_of(bv@).len() == bv@.len());
            assert(vals_of(av@).len() == av@.len());
            assert(indices_of(g@).len() == g@.len());
            assert(powers_of(point.val(), self.degree_spec()).len() == self.degree_spec());
            assert(round_chals(rounds@).len() == 0);
            assert(chain_chals(g0, a0, b0, uv) =~= round_chals(rounds@) + chain_chals(
                g0,
                a0,
                b0,
                uv,
            ));
        }
        while g.len() > 1
            invariant
                g@.len() == av@.len(),
                g@.len() == bv@.len(),
                rounds@.len() <= k,
                k == self.size_spec(),
                g@.len() == pow2((k - rounds@.len()) as nat),
                zero.val() == 0,
                u.idx() == uv,
                coeffs@.len() == self.degree_spec(),
                g0 == indices_of(self.basis@),
                a0 == vals_of(coeffs@),
                b0 == powers_of(point.val(), self.degree_spec()),
                uv == challenge_of(commitment@ + point@),
                bbv == self.blinding_spec(),
                p0 == fadd(vcomb(g0, a0, b0, uv), fmul(bbv, blinding.val())),
                indices_of(g@) == fold_all(g0, round_chals(rounds@)),
                vals_of(av@) == crate::folding::fold_all_swap(a0, round_chals(rounds@)),
                vals_of(bv@) == fold_all(b0, round_chals(rounds@)),
                fadd(
                    vcomb(indices_of(g@), vals_of(av@), vals_of(bv@), uv),
                    fmul(bbv, blind.val()),
                ) == p_acc(p0, rounds@),
                chals_ok(rounds@),
            decreases g@.len(),
        {
            let m2 = g.len();
            let m = m2 / 2;
            proof {
                assert(rounds@.len() < k) by {
                    if rounds@.len() == k {
                        vstd::arithmetic::power::lemma_pow0(2);
                    }
                }
                assert(m2 >= 2 && m2 % 2 == 0) by {
                    vstd::arithmetic::power2::lemma_pow2_unfold((k - rounds@.len()) as nat);
                    vstd::arithmetic::power2::lemma_pow2_pos(((k - rounds@.len()) - 1) as nat);
                }
                use_type_invariant(&self.blinding_basis);
            }
            let rl = rng.scalar();
            let rr = rng.scalar();
            let (g_l, g_r) = crate::utils::split(g.as_slice());
            let (a_l, a_r) = crate::utils::split(av.as_slice());
            let (b_l, b_r) = crate::utils::split(bv.as_slice());
            proof {
                assert(indices_of(g@.take(m as int)) =~= indices_of(g@).take(m as int));
                assert(indices_of(g@.skip(m as int)) =~= indices_of(g@).skip(m as int));
                assert(vals_of(av@.take(m as int)) =~= vals_of(av@).take(m as int));
                assert(vals_of(av@.skip(m as int)) =~= vals_of(av@).skip(m as int));
                assert(vals_of(bv@.take(m as int)) =~= vals_of(bv@).take(m as int));
                assert(vals_of(bv@.skip(m as int)) =~= vals_of(bv@).skip(m as int));
            }
            let lj = crate::utils::inner_product(g_r, a_l).add(
                &u.mul(&crate::utils::scalar_inner_product(a_l, b_r)),
            ).add(&self.blinding_basis.mul(&rl));
            let rj = crate::utils::inner_product(g_l, a_r).add(
                &u.mul(&crate::utils::scalar_inner_product(a_r, b_l)),
            ).add(&self.blinding_basis.mul(&rr));
            let ghost gs = indices_of(g@);
            let ghost avs = vals_of(av@);
            let ghost bvs = vals_of(bv@);
            proof {
                use_type_invariant(&lj);
                use_type_invariant(&rj);
                assert(lj.idx() == fadd(l_index(gs, avs, bvs, uv), fmul(bbv, rl.val())));
                assert(rj.idx() == fadd(r_index(gs, avs, bvs, uv), fmul(bbv, rr.val())));
            }
            let x = ChallengeGenerator::round_challenge(&lj, &rj);
            if x.equals(&zero) {
                return Err(SchemeError::DegenerateChallenge);
            }
            let xi = x.inverse();
            proof {
                use_type_invariant(&xi);
                crate::algebra::lemma_finv_unique(x.val(), xi.val());
            }
            let xsq = x.mul(&x);
            let xisq = xi.mul(&xi);
            let nblind = xsq.mul(&rl).add(&blind.add(&xisq.mul(&rr)));
            let na = crate::utils::compress(a_r, a_l, &x, &xi);
            let nb = crate::utils::compress(b_l, b_r, &x, &xi);
            let ng = crate::utils::compress_basis(g_l, g_r, &x, &xi);
            proof {
                crate::seqs::lemma_seq_fadd_comm(
                    seq_scale(xi.val(), avs.skip(m as int)),
                    seq_scale(x.val(), avs.take(m as int)),
                );
                assert(vals_of(na@) == fold_with(avs, x.val(), xi.val()));
                assert(vals_of(nb@) == fold_with(bvs, xi.val(), x.val()));
                assert(indices_of(ng@) == fold_with(gs, xi.val(), x.val()));
            }
            let ghost old_rounds = rounds@;
            let ghost old_blind = blind.val();
            rounds.push((lj, rj));
            blind = nblind;
            proof {
                let rd = (lj, rj);
                let pr = (x.val(), xi.val());
                assert(round_chal(rd) == x.val());
                assert(round_chals(rounds@) =~= round_chals(old_rounds).push(pr));
                crate::folding::lemma_fold_all_snoc(g0, round_chals(old_rounds), pr);
                crate::folding::lemma_fold_all_swap_snoc(a0, round_chals(old_rounds), pr);
                crate::folding::lemma_fold_all_snoc(b0, round_chals(old_rounds), pr);
                crate::folding::lemma_round_invariant_hiding(
                    gs,
                    avs,
                    bvs,
                    uv,
                    x.val(),
                    xi.val(),
                    bbv,
                    rl.val(),
                    rr.val(),
                    old_blind,
                );
                crate::verify::lemma_p_acc_snoc(p0, old_rounds, rd);
                assert(forall|i: int|
                    0 <= i < old_rounds.len() ==> round_chals(rounds@)[i]
                        == round_chals(old_rounds)[i]);
                assert(chals_ok(rounds@));
                assert(ng@.len() == m) by {
                    assert(indices_of(ng@).len() == fold_with(gs, xi.val(), x.val()).len());
                }
                assert(m == pow2((k - rounds@.len()) as nat)) by {
                    vstd::arithmetic::power2::lemma_pow2_unfold((k - old_rounds.len()) as nat);
                }
            }
            g = ng;
            av = na;
            bv = nb;
        }
        proof {
            vstd::arithmetic::power::lemma_pow0(2);
            assert(rounds@.len() == k) by {
                if rounds@.len() < k {
                    vstd::arithmetic::power2::lemma_pow2_strictly_increases(
                        0,
                        (k - rounds@.len()) as nat,
                    );
                }
            }
            assert(g@.len() == 1 && av@.len() == 1 && bv@.len() == 1);
        }
        let terminal = av[0].dup();
        let opening = HidingOpening {
            point: point.dup(),
            eval: eval.dup(),
            rounds,
            a: terminal,
            blinding_factor: blind,
        };
        proof {
            let ch = round_chals(opening.rounds@);
            crate::folding::lemma_tensor_len(ch);
            crate::seqs::lemma_powers_red(point.val(), self.degree_spec());
            crate::folding::lemma_fold_all_tensor(g0, ch);
            crate::folding::lemma_fold_all_tensor(b0, ch);
            let gf = indices_of(g@);
            let af = vals_of(av@);
            let bf = vals_of(bv@);
            assert(gf.len() == 1 && af.len() == 1 && bf.len() == 1);
            assert(gf.skip(1).len() == 0 && af.skip(1).len() == 0 && bf.skip(1).len() == 0);
            assert(dot(gf.skip(1), af.skip(1)) == 0);
            assert(dot(af.skip(1), bf.skip(1)) == 0);
            assert(dot(gf, af) == fadd(fmul(gf[0], af[0]), 0));
            assert(dot(af, bf) == fadd(fmul(af[0], bf[0]), 0));
            crate::algebra::lemma_fmul_red(gf[0], af[0]);
            crate::algebra::lemma_fmul_red(af[0], bf[0]);
            crate::algebra::lemma_fadd_zero(fmul(gf[0], af[0]));
            crate::algebra::lemma_fadd_zero(fmul(af[0], bf[0]));
            assert(gf[0] == dot(g0, crate::folding::tensor(ch)));
            assert(bf[0] == crate::folding::chal_product(ch, point.val())) by {
                crate::folding::lemma_tensor_powers(ch, point.val());
            }
            assert(af[0] == opening.a_val());
            // the verdict for an arbitrary claim, given an honest commitment
            if commitment.idx() == fadd(dot(g0, a0), fmul(bbv, blinding.val())) {
                use_type_invariant(eval);
                let e = eval.val();
                let t = dot(a0, b0);
                let pe = fadd(point_index(commitment@), fmul(uv, e));
                let pt = fadd(point_index(commitment@), fmul(uv, t));
                crate::algebra::lemma_fadd_flat3(dot(g0, a0), fmul(uv, t), fmul(bbv, blinding.val()));
                crate::algebra::lemma_fadd_flat3(dot(g0, a0), fmul(bbv, blinding.val()), fmul(uv, t));
                assert(pt == p0);
                crate::algebra::lemma_fadd_red(point_index(commitment@), fmul(uv, e));
                crate::algebra::lemma_fadd_red(point_index(commitment@), fmul(uv, t));
                crate::verify::lemma_p_acc_inj(pe, pt, opening.rounds@);
                crate::seqs::lemma_dot_red(a0, b0);
                crate::algebra::lemma_fmul_red(uv, e);
                crate::algebra::lemma_fmul_red(uv, t);
                crate::algebra::lemma_fadd_cancel(point_index(commitment@), fmul(uv, e), fmul(uv, t));
                crate::algebra::lemma_mul_diff_zero(uv, e, t);
                assert(crate::verify::accepts_hiding(
                    self.basis_spec(),
                    self.blinding_spec(),
                    commitment@,
                    opening,
                ) <==> fmul(uv, fadd(e, crate::algebra::fneg(t))) == 0);
            }
        }
        Ok(opening)
    }
}

} // verus!
