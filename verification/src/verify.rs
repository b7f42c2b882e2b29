//! The verifier: recompute the Fiat-Shamir challenges from the proof's
//! round points, accumulate the claimed relation into one group element, and
//! check it against a single multi-scalar multiplication over the `s`
//! vector. `accepts_binding` and `accepts_hiding` say exactly which proofs
//! pass: `verify` and `verify_hiding` return the claimed evaluation if and
//! only if they hold.
use vstd::prelude::*;

verus! {

use crate::algebra::{fadd, finv, fmul, fpow, red};
use crate::challenges::{challenge_of, ChallengeGenerator};
use crate::field::Scalar;
use crate::folding::{chal_product, tensor};
use crate::group::{indices_of, point_index, vals_of, Point};
use crate::prove::{Commitment, HidingOpening, Opening};
use crate::seqs::dot;
use crate::IpaScheme;
use vstd::arithmetic::power2::pow2;

/// The challenge of each round, with its inverse, as both sides derive it
/// from the round's two cross points.
pub open(crate) spec fn round_chal(rd: (Point, Point)) -> nat {
    challenge_of(rd.0@ + rd.1@)
}

/// The challenges of all rounds, paired with their inverses.
pub open(crate) spec fn round_chals(rounds: Seq<(Point, Point)>) -> Seq<(nat, nat)> {
    Seq::new(rounds.len(), |i: int| (round_chal(rounds[i]), finv(round_chal(rounds[i]))))
}

/// No round challenge is zero, so each has an inverse.
pub open(crate) spec fn chals_ok(rounds: Seq<(Point, Point)>) -> bool {
    forall|i: int| 0 <= i < rounds.len() ==> #[trigger] round_chals(rounds)[i].0 != 0
}

/// The verifier's accumulated point: starting from the claimed relation, each
/// round adds `challenge^2 * L + inverse^2 * R`.
pub open(crate) spec fn p_acc(p0: nat, rounds: Seq<(Point, Point)>) -> nat
    decreases rounds.len(),
{
    if rounds.len() == 0 {
        p0
    } else {
        let x = challenge_of(rounds[0].0@ + rounds[0].1@);
        let xi = finv(x);
        p_acc(
            fadd(
                p0,
                fadd(
                    fmul(fmul(x, x), point_index(rounds[0].0@)),
                    fmul(fmul(xi, xi), point_index(rounds[0].1@)),
                ),
            ),
            rounds.skip(1),
        )
    }
}

/// The single group equation a binding opening must satisfy against a basis:
/// the accumulated point equals `<basis, s> * a + u * (a * b(point))`, with
/// every challenge invertible and the proof sized to the basis.
pub open(crate) spec fn accepts_binding(basis: Seq<nat>, c_enc: Seq<u8>, o: Opening) -> bool {
    let u = challenge_of(c_enc + o.point@);
    let ch = round_chals(o.rounds@);
    &&& pow2(o.rounds@.len()) == basis.len()
    &&& chals_ok(o.rounds@)
    &&& p_acc(fadd(point_index(c_enc), fmul(u, o.eval_val())), o.rounds@) == fadd(
        fmul(dot(basis, tensor(ch)), o.a_val()),
        fmul(u, fmul(o.a_val(), chal_product(ch, o.point_val()))),
    )
}

/// The hiding variant of the equation: the right-hand side additionally
/// carries the blinding basis times the accumulated blinding scalar.
pub open(crate) spec fn accepts_hiding(
    basis: Seq<nat>,
    blinding_basis: nat,
    c_enc: Seq<u8>,
    o: HidingOpening,
) -> bool {
    let u = challenge_of(c_enc + o.point@);
    let ch = round_chals(o.rounds@);
    &&& pow2(o.rounds@.len()) == basis.len()
    &&& chals_ok(o.rounds@)
    &&& p_acc(fadd(point_index(c_enc), fmul(u, o.eval_val())), o.rounds@) == fadd(
        fadd(
            fmul(dot(basis, tensor(ch)), o.a_val()),
            fmul(u, fmul(o.a_val(), chal_product(ch, o.point_val()))),
        ),
        fmul(blinding_basis, o.blinding_factor.val()),
    )
}

/// The sum of the round terms the accumulator adds.
pub open(crate) spec fn p_terms(rounds: Seq<(Point, Point)>) -> nat
    decreases rounds.len(),
{
    if rounds.len() == 0 {
        0
    } else {
        let x = challenge_of(rounds[0].0@ + rounds[0].1@);
        let xi = finv(x);
        fadd(
            fmul(fmul(x, x), point_index(rounds[0].0@)),
            fmul(fmul(xi, xi), point_index(rounds[0].1@)),
        ) + p_terms(rounds.skip(1))
    }
}

/// The accumulator is the starting point plus the round terms, reduced.
pub proof fn lemma_p_acc_flat(p0: nat, rounds: Seq<(Point, Point)>)
    requires
        red(p0),
    ensures
        p_acc(p0, rounds) == (p0 + p_terms(rounds)) % crate::algebra::group_order(),
    decreases rounds.len(),
{
    if rounds.len() == 0 {
        crate::algebra::lemma_small_red(p0);
    } else {
        let x = challenge_of(rounds[0].0@ + rounds[0].1@);
        let xi = finv(x);
        let t0 = fadd(
            fmul(fmul(x, x), point_index(rounds[0].0@)),
            fmul(fmul(xi, xi), point_index(rounds[0].1@)),
        );
        crate::algebra::lemma_fadd_red(p0, t0);
        lemma_p_acc_flat(fadd(p0, t0), rounds.skip(1));
        crate::algebra::lemma_fadd_mod((p0 + t0) as nat, p_terms(rounds.skip(1)));
    }
}

/// The accumulator is injective in its reduced starting point: two runs over
/// the same rounds agree exactly when they started equal.
pub proof fn lemma_p_acc_inj(p0: nat, q0: nat, rounds: Seq<(Point, Point)>)
    requires
        red(p0),
        red(q0),
    ensures
        (p_acc(p0, rounds) == p_acc(q0, rounds)) <==> (p0 == q0),
{
    let q = crate::algebra::group_order() as int;
    lemma_p_acc_flat(p0, rounds);
    lemma_p_acc_flat(q0, rounds);
    let ts = p_terms(rounds);
    vstd::arithmetic::div_mod::lemma_mod_equivalence(
        (p0 + ts) as int,
        (q0 + ts) as int,
        q,
    );
    vstd::arithmetic::div_mod::lemma_mod_equivalence(p0 as int, q0 as int, q);
    crate::algebra::lemma_small_red(p0);
    crate::algebra::lemma_small_red(q0);
}

/// Extending the accumulator by one round adds that round's term.
pub proof fn lemma_p_acc_snoc(p0: nat, rounds: Seq<(Point, Point)>, rd: (Point, Point))
    ensures
        p_acc(p0, rounds.push(rd)) == fadd(
            p_acc(p0, rounds),
            fadd(
                fmul(
                    fmul(challenge_of(rd.0@ + rd.1@), challenge_of(rd.0@ + rd.1@)),
                    point_index(rd.0@),
                ),
                fmul(
                    fmul(finv(challenge_of(rd.0@ + rd.1@)), finv(challenge_of(rd.0@ + rd.1@))),
                    point_index(rd.1@),
                ),
            ),
        ),
    decreases rounds.len(),
{
    let x = challenge_of(rd.0@ + rd.1@);
    let term = fadd(
        fmul(fmul(x, x), point_index(rd.0@)),
        fmul(fmul(finv(x), finv(x)), point_index(rd.1@)),
    );
    if rounds.len() == 0 {
        assert(rounds.push(rd)[0] == rd);
        assert(rounds.push(rd).skip(1).len() == 0);
        assert(p_acc(p0, rounds.push(rd)) == p_acc(fadd(p0, term), rounds.push(rd).skip(1)));
    } else {
        assert(rounds.push(rd)[0] == rounds[0]);
        assert(rounds.push(rd).skip(1) =~= rounds.skip(1).push(rd));
        let x0 = challenge_of(rounds[0].0@ + rounds[0].1@);
        let xi0 = finv(x0);
        let stepped = fadd(
            p0,
            fadd(
                fmul(fmul(x0, x0), point_index(rounds[0].0@)),
                fmul(fmul(xi0, xi0), point_index(rounds[0].1@)),
            ),
        );
        assert(p_acc(p0, rounds.push(rd)) == p_acc(stepped, rounds.skip(1).push(rd)));
        lemma_p_acc_snoc(stepped, rounds.skip(1), rd);
        assert(p_acc(p0, rounds) == p_acc(stepped, rounds.skip(1)));
    }
}

/// Pair two value sequences position by position.
pub open(crate) spec fn zip_pairs(a: Seq<nat>, b: Seq<nat>) -> Seq<(nat, nat)> {
    Seq::new(a.len(), |i: int| (a[i], b[i]))
}

/// Pointwise scaling of a scalar vector.
pub(crate) fn scaled(c: &Scalar, v: &Vec<Scalar>) -> (r: Vec<Scalar>)
    ensures
        vals_of(r@) == crate::seqs::seq_scale(c.val(), vals_of(v@)),
{
    let n = v.len();
    let mut out: Vec<Scalar> = Vec::new();
    let mut i: usize = 0;
    while i < n
        invariant
            0 <= i <= n,
            v@.len() == n,
            out@.len() == i,
            forall|j: int|
                0 <= j < i ==> (#[trigger] out@[j]).val() == fmul(c.val(), v@[j].val()),
        decreases n - i,
    {
        out.push(c.mul(&v[i]));
        i = i + 1;
    }
    proof {
        assert(vals_of(out@) =~= crate::seqs::seq_scale(c.val(), vals_of(v@)));
    }
    out
}

/// Expand a challenge list into the length-`2^k` `s` vector, highest round
/// bit first: the tensor product of the `(inverse, challenge)` pairs.
pub(crate) fn s_vector(xs: &Vec<Scalar>, xinvs: &Vec<Scalar>) -> (r: Vec<Scalar>)
    requires
        xs@.len() == xinvs@.len(),
        xs@.len() <= 30,
    ensures
        r@.len() == pow2(xs@.len()),
        vals_of(r@) == tensor(zip_pairs(vals_of(xs@), vals_of(xinvs@))),
{
    let k = xs.len();
    let pairs = Ghost(zip_pairs(vals_of(xs@), vals_of(xinvs@)));
    let mut cur: Vec<Scalar> = Vec::new();
    cur.push(Scalar::from_u64(1));
    proof {
        assert(pairs@.skip(k as int).len() == 0);
        assert(vals_of(cur@) =~= tensor(pairs@.skip(k as int)));
        vstd::arithmetic::power2::lemma2_to64();
    }
    let mut j: usize = k;
    while j > 0
        invariant
            0 <= j <= k,
            k <= 30,
            xs@.len() == k,
            xinvs@.len() == k,
            pairs@ == zip_pairs(vals_of(xs@), vals_of(xinvs@)),
            cur@.len() == pow2((k - j) as nat),
            vals_of(cur@) == tensor(pairs@.skip(j as int)),
        decreases j,
    {
        proof {
            crate::folding::lemma_tensor_len(pairs@.skip(j - 1));
            vstd::arithmetic::power2::lemma_pow2_unfold((k - (j - 1)) as nat);
            vstd::arithmetic::power2::lemma2_to64();
            if k - j < 30 {
                vstd::arithmetic::power2::lemma_pow2_strictly_increases((k - j) as nat, 30);
            }
        }
        let lo = scaled(&xinvs[j - 1], &cur);
        let hi = scaled(&xs[j - 1], &cur);
        let mut next = lo;
        let mut hi = hi;
        let ghost lov = vals_of(next@);
        let ghost hiv = vals_of(hi@);
        next.append(&mut hi);
        proof {
            let tail = pairs@.skip(j - 1);
            assert(tail[0] == pairs@[j - 1]);
            assert(tail.skip(1) =~= pairs@.skip(j as int));
            assert(vals_of(next@) =~= lov + hiv);
            assert(vals_of(next@) =~= tensor(tail));
        }
        cur = next;
        j = j - 1;
    }
    proof {
        assert(pairs@.skip(0) =~= pairs@);
    }
    cur
}

/// Evaluate the product form of the folded power vector: over the rounds,
/// the product of `inverse_j + challenge_j * z^(2^(k-1-j))`.
pub(crate) fn eval_b_product(xs: &Vec<Scalar>, xinvs: &Vec<Scalar>, z: &Scalar) -> (r: Scalar)
    requires
        xs@.len() == xinvs@.len(),
        xs@.len() <= 30,
    ensures
        r.val() == chal_product(zip_pairs(vals_of(xs@), vals_of(xinvs@)), z.val()),
{
    let k = xs.len();
    let pairs = Ghost(zip_pairs(vals_of(xs@), vals_of(xinvs@)));
    // zpows[t] == z^(2^t)
    let mut zpows: Vec<Scalar> = Vec::new();
    if k > 0 {
        proof {
            use_type_invariant(z);
            vstd::arithmetic::power2::lemma2_to64();
            crate::algebra::lemma_fmul_one(z.val());
            vstd::arithmetic::power::lemma_pow0(2);
            assert(fpow(z.val(), 0) == 1);
            assert(fpow(z.val(), 1) == fmul(z.val(), fpow(z.val(), 0)));
        }
        zpows.push(z.dup());
        let mut t: usize = 1;
        while t < k
            invariant
                1 <= t <= k,
                zpows@.len() == t,
                forall|s: int|
                    0 <= s < t ==> (#[trigger] zpows@[s]).val() == fpow(z.val(), pow2(s as nat)),
            decreases k - t,
        {
            let prev = &zpows[t - 1];
            let next = prev.mul(prev);
            proof {
                vstd::arithmetic::power2::lemma_pow2_unfold(t as nat);
                crate::algebra::lemma_fpow_add(
                    z.val(),
                    pow2((t - 1) as nat),
                    pow2((t - 1) as nat),
                );
            }
            zpows.push(next);
            t = t + 1;
        }
    }
    let mut acc = Scalar::from_u64(1);
    proof {
        assert(pairs@.skip(k as int).len() == 0);
    }
    let mut j: usize = k;
    while j > 0
        invariant
            0 <= j <= k,
            xs@.len() == k,
            xinvs@.len() == k,
            zpows@.len() == if k > 0 { k as int } else { 0 },
            forall|s: int|
                0 <= s < zpows@.len() ==> (#[trigger] zpows@[s]).val() == fpow(
                    z.val(),
                    pow2(s as nat),
                ),
            pairs@ == zip_pairs(vals_of(xs@), vals_of(xinvs@)),
            acc.val() == chal_product(pairs@.skip(j as int), z.val()),
        decreases j,
    {
        let factor = xinvs[j - 1].add(&xs[j - 1].mul(&zpows[k - j]));
        let next = factor.mul(&acc);
        proof {
            let tail = pairs@.skip(j - 1);
            assert(tail[0] == pairs@[j - 1]);
            assert(tail.skip(1) =~= pairs@.skip(j as int));
            assert(tail.len() - 1 == k - j);
        }
        acc = next;
        j = j - 1;
    }
    proof {
        assert(pairs@.skip(0) =~= pairs@);
    }
    acc
}

/// Replay the rounds of a proof against the claimed relation: recompute
/// each round's challenge from its cross points and accumulate the claimed
/// relation, handing back the accumulated point and the challenges with
/// their inverses. Nothing is returned exactly when some challenge is zero.
pub(crate) fn process_rounds(
    commitment: &Commitment,
    point: &Scalar,
    eval: &Scalar,
    rounds: &Vec<(Point, Point)>,
) -> (r: Option<(Point, Vec<Scalar>, Vec<Scalar>)>)
    ensures
        r is Some <==> chals_ok(rounds@),
        r matches Some((pfin, xs, xinvs)) ==> {
            &&& pfin.idx() == p_acc(
                fadd(
                    point_index(commitment@),
                    fmul(challenge_of(commitment@ + point@), eval.val()),
                ),
                rounds@,
            )
            &&& xs@.len() == rounds@.len()
            &&& xinvs@.len() == rounds@.len()
            &&& zip_pairs(vals_of(xs@), vals_of(xinvs@)) == round_chals(rounds@)
        },
{
    let k = rounds.len();
    let u = ChallengeGenerator::inner_product_basis(commitment, point);
    let mut p = commitment.point.add(&u.mul(eval));
    let zero = Scalar::from_u64(0);
    let mut xs: Vec<Scalar> = Vec::new();
    let mut xinvs: Vec<Scalar> = Vec::new();
    let ghost p0 = fadd(
        point_index(commitment@),
        fmul(challenge_of(commitment@ + point@), eval.val()),
    );
    let mut j: usize = 0;
    while j < k
        invariant
            0 <= j <= k,
            rounds@.len() == k,
            xs@.len() == j,
            xinvs@.len() == j,
            u.idx() == challenge_of(commitment@ + point@),
            zero.val() == 0,
            p.idx() == p_acc(p0, rounds@.take(j as int)),
            p0 == fadd(
                point_index(commitment@),
                fmul(challenge_of(commitment@ + point@), eval.val()),
            ),
            forall|i: int|
                0 <= i < j ==> (#[trigger] xs@[i]).val() == round_chals(rounds@)[i].0,
            forall|i: int|
                0 <= i < j ==> (#[trigger] xinvs@[i]).val() == round_chals(rounds@)[i].1,
            forall|i: int| 0 <= i < j ==> round_chals(rounds@)[i].0 != 0,
        decreases k - j,
    {
        let pair = &rounds[j];
        let x = ChallengeGenerator::round_challenge(&pair.0, &pair.1);
        proof {
            assert(*pair == rounds@[j as int]);
            assert(round_chals(rounds@)[j as int].0 == round_chal(rounds@[j as int]));
            assert(round_chals(rounds@)[j as int].1 == finv(round_chal(rounds@[j as int])));
        }
        if x.equals(&zero) {
            proof {
                assert(round_chals(rounds@)[j as int].0 == 0);
                assert(!chals_ok(rounds@));
            }
            return None;
        }
        let xi = x.inverse();
        proof {
            use_type_invariant(&xi);
            crate::algebra::lemma_finv_unique(x.val(), xi.val());
        }
        let xsq = x.mul(&x);
        let xisq = xi.mul(&xi);
        let lterm = pair.0.mul(&xsq);
        let rterm = pair.1.mul(&xisq);
        let pnext = p.add(&lterm).add(&rterm);
        proof {
            lemma_p_acc_snoc(p0, rounds@.take(j as int), rounds@[j as int]);
            assert(rounds@.take(j + 1) =~= rounds@.take(j as int).push(rounds@[j as int]));
            crate::algebra::lemma_fmul_comm(pair.0.idx(), xsq.val());
            crate::algebra::lemma_fmul_comm(pair.1.idx(), xisq.val());
            crate::algebra::lemma_fadd_assoc(p.idx(), lterm.idx(), rterm.idx());
        }
        xs.push(x);
        xinvs.push(xi);
        p = pnext;
        j = j + 1;
    }
    proof {
        assert(rounds@.take(k as int) =~= rounds@);
        assert(chals_ok(rounds@));
        assert(zip_pairs(vals_of(xs@), vals_of(xinvs@)) =~= round_chals(rounds@));
    }
    Some((p, xs, xinvs))
}

impl IpaScheme {
    /// Replay the rounds of a proof and check them against the scheme: the
    /// accumulated point and the right-hand side of the final equation over
    /// the scheme's own basis. Nothing is returned exactly when the proof
    /// does not have one round per halving or derives a zero challenge.
    pub(crate) fn general_verify(
        &self,
        commitment: &Commitment,
        point: &Scalar,
        eval: &Scalar,
        a: &Scalar,
        rounds: &Vec<(Point, Point)>,
    ) -> (r: Option<(Point, Point)>)
        ensures
            r is Some <==> (rounds@.len() == self.size_spec() && chals_ok(rounds@)),
            r matches Some((pfin, check)) ==> {
                let u = challenge_of(commitment@ + point@);
                let ch = round_chals(rounds@);
                &&& pfin.idx() == p_acc(
                    fadd(point_index(commitment@), fmul(u, eval.val())),
                    rounds@,
                )
                &&& check.idx() == fadd(
                    fmul(dot(self.basis_spec(), tensor(ch)), a.val()),
                    fmul(u, fmul(a.val(), chal_product(ch, point.val()))),
                )
            },
    {
        proof {
            use_type_invariant(self);
        }
        if rounds.len() != self.max_size as usize {
            return None;
        }
        let processed = process_rounds(commitment, point, eval, rounds);
        match processed {
            None => None,
            Some((p, xs, xinvs)) => {
                let u = ChallengeGenerator::inner_product_basis(commitment, point);
                let s = s_vector(&xs, &xinvs);
                let b_fin = eval_b_product(&xs, &xinvs, point);
                proof {
                    crate::folding::lemma_tensor_len(round_chals(rounds@));
                }
                let s_base = crate::group::msm(&self.basis, &s);
                let check = s_base.mul(a).add(&u.mul(&a.mul(&b_fin)));
                Some((p, check))
            },
        }
    }

    /// Verify a binding opening: the claimed evaluation exactly when the
    /// proof satisfies the acceptance equation, nothing otherwise.
    pub fn verify(&self, commitment: &Commitment, opening: Opening) -> (r: Option<Scalar>)
        ensures
            r is Some <==> accepts_binding(self.basis_spec(), commitment@, opening),
            r matches Some(e) ==> e.val() == opening.eval_val(),
    {
        proof {
            use_type_invariant(self);
        }
        let checked = self.general_verify(
            commitment,
            &opening.point,
            &opening.eval,
            &opening.a,
            &opening.rounds,
        );
        match checked {
            Some((pfin, check)) => {
                proof {
                    lemma_rounds_len_match(self.size_spec(), self.degree_spec(), opening.rounds@.len());
                }
                if pfin.equals(&check) {
                    Some(opening.eval.dup())
                } else {
                    None
                }
            },
            None => {
                proof {
                    if opening.rounds@.len() != self.size_spec() {
                        lemma_rounds_len_mismatch(
                            self.size_spec(),
                            self.degree_spec(),
                            opening.rounds@.len(),
                        );
                    }
                }
                None
            },
        }
    }

    /// Verify a hiding opening: as `verify`, with the blinding term joined
    /// to the right-hand side of the equation.
    pub fn verify_hiding(&self, commitment: &Commitment, opening: HidingOpening) -> (r: Option<
        Scalar,
    >)
        ensures
            r is Some <==> accepts_hiding(
                self.basis_spec(),
                self.blinding_spec(),
                commitment@,
                opening,
            ),
            r matches Some(e) ==> e.val() == opening.eval_val(),
    {
        proof {
            use_type_invariant(self);
        }
        let checked = self.general_verify(
            commitment,
            &opening.point,
            &opening.eval,
            &opening.a,
            &opening.rounds,
        );
        match checked {
            Some((pfin, check)) => {
                proof {
                    lemma_rounds_len_match(self.size_spec(), self.degree_spec(), opening.rounds@.len());
                }
                let blinded = check.add(&self.blinding_basis.mul(&opening.blinding_factor));
                proof {
                    crate::algebra::lemma_fmul_comm(
                        self.blinding_spec(),
                        opening.blinding_factor.val(),
                    );
                }
                if pfin.equals(&blinded) {
                    Some(opening.eval.dup())
                } else {
                    None
                }
            },
            None => {
                proof {
                    if opening.rounds@.len() != self.size_spec() {
                        lemma_rounds_len_mismatch(
                            self.size_spec(),
                            self.degree_spec(),
                            opening.rounds@.len(),
                        );
                    }
                }
                None
            },
        }
    }
}

/// A proof with one round per halving matches the basis length.
proof fn lemma_rounds_len_match(k: nat, n: nat, rlen: nat)
    requires
        n == pow2(k),
        rlen == k,
    ensures
        pow2(rlen) == n,
{
}

/// A proof with the wrong number of rounds cannot match the basis length.
proof fn lemma_rounds_len_mismatch(k: nat, n: nat, rlen: nat)
    requires
        n == pow2(k),
        rlen != k,
    ensures
        pow2(rlen) != n,
{
    if rlen < k {
        vstd::arithmetic::power2::lemma_pow2_strictly_increases(rlen, k);
    } else {
        vstd::arithmetic::power2::lemma_pow2_strictly_increases(k, rlen);
    }
}

} // verus!
