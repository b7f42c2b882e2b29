//! The batch layer: many openings are combined into one aggregate check.
//! The prover keeps each run's final folded basis element, digests them to
//! derive an evaluation point and a combination element, combines the tensor
//! expansions into one aggregate polynomial and opens it once; the verifier
//! checks each item's equation against its carried basis element and the
//! aggregate opening against the combined commitment.
use vstd::prelude::*;

verus! {

use crate::algebra::{fadd, fmul, fneg, fpow, red};
use crate::challenges::{challenge_of, second_challenge_of, ChallengeGenerator};
use crate::field::Scalar;
use crate::folding::{chal_product, tensor};
use crate::group::{indices_of, point_enc, point_index, vals_of, Point};
use crate::prove::{chain_chals, chain_has_zero, Commitment, Opening};
use crate::seqs::{dot, powers_of, seq_fadd, seq_scale};
use crate::verify::{
    accepts_binding,
    chals_ok,
    p_acc,
    process_rounds,
    round_chals,
    s_vector,
    zip_pairs,
};
use crate::{IpaScheme, SchemeError};
use vstd::arithmetic::power2::pow2;

/// The artifact of a batch opening: each item's proof with its final folded
/// basis element, and one aggregate opening over their random combination.
pub struct MultiOpening {
    pub(crate) openings: Vec<(Opening, Point)>,
    pub(crate) batch_opening: Opening,
}

impl MultiOpening {
    /// The per-item proofs with their final basis elements.
    pub open(crate) spec fn items(&self) -> Seq<(Opening, Point)> {
        self.openings@
    }

    /// The aggregate opening over the random combination.
    pub open(crate) spec fn aggregate(&self) -> Opening {
        self.batch_opening
    }
}

/// The transcript of the amortization challenges: the canonical encodings of
/// the per-item final basis elements, in order.
pub open(crate) spec fn fb_bytes(openings: Seq<(Opening, Point)>) -> Seq<u8>
    decreases openings.len(),
{
    if openings.len() == 0 {
        Seq::empty()
    } else {
        openings[0].1@ + fb_bytes(openings.skip(1))
    }
}

/// Digesting one more element appends its encoding.
pub proof fn lemma_fb_bytes_snoc(openings: Seq<(Opening, Point)>, pr: (Opening, Point))
    ensures
        fb_bytes(openings.push(pr)) == fb_bytes(openings) + pr.1@,
    decreases openings.len(),
{
    if openings.len() == 0 {
        assert(openings.push(pr)[0] == pr);
        assert(openings.push(pr).skip(1).len() == 0);
        assert(fb_bytes(openings.push(pr).skip(1)) == Seq::<u8>::empty());
        assert(fb_bytes(openings.push(pr)) == pr.1@ + Seq::<u8>::empty());
        assert(fb_bytes(openings.push(pr)) =~= fb_bytes(openings) + pr.1@);
    } else {
        assert(openings.push(pr)[0] == openings[0]);
        assert(openings.push(pr).skip(1) =~= openings.skip(1).push(pr));
        lemma_fb_bytes_snoc(openings.skip(1), pr);
        assert(fb_bytes(openings.push(pr)) =~= fb_bytes(openings) + pr.1@);
    }
}

/// The indices of the per-item final basis elements.
pub open(crate) spec fn fb_indices(openings: Seq<(Opening, Point)>) -> Seq<nat> {
    Seq::new(openings.len(), |i: int| openings[i].1.idx())
}

/// Each item's challenge product evaluated at the batch evaluation point.
pub open(crate) spec fn amort_evals(openings: Seq<(Opening, Point)>, z: nat) -> Seq<nat> {
    Seq::new(openings.len(), |i: int| chal_product(round_chals(openings[i].0.rounds@), z))
}

/// One item of a batch passes: the proof is sized to `k` rounds, all its
/// challenges are invertible, and its accumulated point equals the equation
/// against the final basis element the artifact carries.
#[verifier::opaque]
pub open(crate) spec fn item_accepts(k: nat, c: Commitment, item: (Opening, Point)) -> bool {
    let o = item.0;
    let u = challenge_of(c@ + o.point@);
    let ch = round_chals(o.rounds@);
    &&& o.rounds@.len() == k
    &&& chals_ok(o.rounds@)
    &&& p_acc(fadd(point_index(c@), fmul(u, o.eval_val())), o.rounds@) == fadd(
        fmul(item.1.idx(), o.a_val()),
        fmul(u, fmul(o.a_val(), chal_product(ch, o.point_val()))),
    )
}

/// A batch passes: every item passes individually, the aggregate opening
/// verifies against the random combination of the final basis elements, and
/// its claimed evaluation is the matching combination of the items'
/// challenge products at the batch evaluation point.
#[verifier::opaque]
pub open(crate) spec fn batch_accepts(
    basis: Seq<nat>,
    k: nat,
    cs: Seq<Commitment>,
    mo: MultiOpening,
) -> bool {
    let data = fb_bytes(mo.openings@);
    let z = challenge_of(data);
    let rho = second_challenge_of(data);
    let n = mo.openings@.len();
    &&& cs.len() == n
    &&& forall|i: int| 0 <= i < n ==> item_accepts(k, cs[i], #[trigger] mo.openings@[i])
    &&& accepts_binding(
        basis,
        point_enc(dot(fb_indices(mo.openings@), powers_of(rho, n))),
        mo.batch_opening,
    )
    &&& mo.batch_opening.eval_val() == dot(amort_evals(mo.openings@, z), powers_of(rho, n))
}

/// One accumulation step of the random linear combination: adding the next
/// element scaled by the current power of the combination element extends
/// both running inner products by one position.
proof fn lemma_accumulate_step(fbs: Seq<nat>, aes: Seq<nat>, rv: nat, i: int)
    requires
        0 <= i < fbs.len(),
        i < aes.len(),
    ensures
        fadd(
            dot(fbs.take(i), powers_of(rv, i as nat)),
            fmul(fbs[i], fpow(rv, i as nat)),
        ) == dot(fbs.take(i + 1), powers_of(rv, (i + 1) as nat)),
        fadd(
            dot(aes.take(i), powers_of(rv, i as nat)),
            fmul(aes[i], fpow(rv, i as nat)),
        ) == dot(aes.take(i + 1), powers_of(rv, (i + 1) as nat)),
        fmul(fpow(rv, i as nat), rv) == fpow(rv, (i + 1) as nat),
{
    crate::seqs::lemma_dot_snoc(fbs.take(i), powers_of(rv, i as nat), fbs[i], fpow(rv, i as nat));
    crate::seqs::lemma_dot_snoc(aes.take(i), powers_of(rv, i as nat), aes[i], fpow(rv, i as nat));
    assert(fbs.take(i + 1) =~= fbs.take(i).push(fbs[i]));
    assert(aes.take(i + 1) =~= aes.take(i).push(aes[i]));
    assert(powers_of(rv, (i + 1) as nat) =~= powers_of(rv, i as nat).push(fpow(rv, i as nat)));
    crate::algebra::lemma_fmul_comm(fpow(rv, i as nat), rv);
    assert(fpow(rv, (i + 1) as nat) == fmul(rv, fpow(rv, i as nat)));
}

impl IpaScheme {
    /// Verify a batch: the items' claimed evaluations exactly when every
    /// per-item equation holds, the aggregate opening verifies against the
    /// combined final basis elements, and its evaluation matches the
    /// recombined per-item values; nothing otherwise.
    #[verifier::rlimit(100)]
    #[verifier::spinoff_prover]
    pub fn batch_verify(&self, commitments: &Vec<Commitment>, multi_open: MultiOpening) -> (r:
        Option<Vec<Scalar>>)
        ensures
            r is Some <==> batch_accepts(
                self.basis_spec(),
                self.size_spec(),
                commitments@,
                multi_open,
            ),
            r matches Some(es) ==> {
                &&& es@.len() == commitments@.len()
                &&& forall|i: int|
                    0 <= i < es@.len() ==> (#[trigger] es@[i]).val()
                        == multi_open.items()[i].0.eval_val()
            },
    {
        proof {
            use_type_invariant(self);
        }
        let n = commitments.len();
        if multi_open.openings.len() != n {
            proof {
                reveal(batch_accepts);
            }
            return None;
        }
        let mut generator = ChallengeGenerator::new();
        let mut i: usize = 0;
        while i < n
            invariant
                0 <= i <= n,
                multi_open.openings@.len() == n,
                generator@ == fb_bytes(multi_open.openings@.take(i as int)),
            decreases n - i,
        {
            generator.digest_for_amortization(&multi_open.openings[i].1);
            proof {
                lemma_fb_bytes_snoc(multi_open.openings@.take(i as int), multi_open.openings@[i as int]);
                assert(multi_open.openings@.take(i + 1) =~= multi_open.openings@.take(i as int).push(
                    multi_open.openings@[i as int],
                ));
            }
            i = i + 1;
        }
        proof {
            assert(multi_open.openings@.take(n as int) =~= multi_open.openings@);
        }
        let (z, rho) = generator.amortization_elements();
        let ghost zv = challenge_of(fb_bytes(multi_open.openings@));
        let ghost rv = second_challenge_of(fb_bytes(multi_open.openings@));
        let k = self.max_size as usize;
        let mut evals: Vec<Scalar> = Vec::new();
        let mut agg = Point::zero();
        let mut evalsum = Scalar::from_u64(0);
        let mut comb = Scalar::from_u64(1);
        let mut i: usize = 0;
        while i < n
            invariant
                0 <= i <= n,
                multi_open.openings@.len() == n,
                commitments@.len() == n,
                k == self.size_spec(),
                k <= 30,
                z.val() == zv,
                rho.val() == rv,
                evals@.len() == i,
                forall|j: int|
                    0 <= j < i ==> (#[trigger] evals@[j]).val() == multi_open.openings@[j].0.eval_val(),
                forall|j: int|
                    0 <= j < i ==> item_accepts(
                        self.size_spec(),
                        commitments@[j],
                        #[trigger] multi_open.openings@[j],
                    ),
                agg.idx() == dot(fb_indices(multi_open.openings@).take(i as int), powers_of(rv, i as nat)),
                evalsum.val() == dot(
                    amort_evals(multi_open.openings@, zv).take(i as int),
                    powers_of(rv, i as nat),
                ),
                comb.val() == fpow(rv, i as nat),
            decreases n - i,
        {
            let item = &multi_open.openings[i];
            if item.0.rounds.len() != k {
                proof {
                    assert(!item_accepts(
                        self.size_spec(),
                        commitments@[i as int],
                        multi_open.openings@[i as int],
                    )) by {
                        reveal(item_accepts);
                    }
                    assert(!batch_accepts(
                        self.basis_spec(),
                        self.size_spec(),
                        commitments@,
                        multi_open,
                    )) by {
                        reveal(batch_accepts);
                        if batch_accepts(
                            self.basis_spec(),
                            self.size_spec(),
                            commitments@,
                            multi_open,
                        ) {
                            assert(item_accepts(
                                self.size_spec(),
                                commitments@[i as int],
                                multi_open.openings@[i as int],
                            ));
                        }
                    }
                }
                return None;
            }
            let c_i = &commitments[i];
            let processed = process_rounds(c_i, &item.0.point, &item.0.eval, &item.0.rounds);
            match processed {
                None => {
                    proof {
                        assert(!item_accepts(
                            self.size_spec(),
                            commitments@[i as int],
                            multi_open.openings@[i as int],
                        )) by {
                            reveal(item_accepts);
                        }
                    assert(!batch_accepts(
                        self.basis_spec(),
                        self.size_spec(),
                        commitments@,
                        multi_open,
                    )) by {
                        reveal(batch_accepts);
                        if batch_accepts(
                            self.basis_spec(),
                            self.size_spec(),
                            commitments@,
                            multi_open,
                        ) {
                            assert(item_accepts(
                                self.size_spec(),
                                commitments@[i as int],
                                multi_open.openings@[i as int],
                            ));
                        }
                    }
                    }
                    return None;
                },
                Some((pfin, xs, xinvs)) => {
                    let u = ChallengeGenerator::inner_product_basis(c_i, &item.0.point);
                    let b_i = crate::verify::eval_b_product(&xs, &xinvs, &item.0.point);
                    let ae_i = crate::verify::eval_b_product(&xs, &xinvs, &z);
                    let rhs = item.1.mul(&item.0.a).add(&u.mul(&item.0.a.mul(&b_i)));
                    if !pfin.equals(&rhs) {
                        proof {
                            assert(!item_accepts(
                                self.size_spec(),
                                commitments@[i as int],
                                multi_open.openings@[i as int],
                            )) by {
                                reveal(item_accepts);
                            }
                    assert(!batch_accepts(
                        self.basis_spec(),
                        self.size_spec(),
                        commitments@,
                        multi_open,
                    )) by {
                        reveal(batch_accepts);
                        if batch_accepts(
                            self.basis_spec(),
                            self.size_spec(),
                            commitments@,
                            multi_open,
                        ) {
                            assert(item_accepts(
                                self.size_spec(),
                                commitments@[i as int],
                                multi_open.openings@[i as int],
                            ));
                        }
                    }
                        }
                        return None;
                    }
                    proof {
                        reveal(item_accepts);
                        assert(item_accepts(
                            self.size_spec(),
                            commitments@[i as int],
                            multi_open.openings@[i as int],
                        ));
                    }
                    evals.push(item.0.eval.dup());
                    let term = item.1.mul(&comb);
                    let enext = evalsum.add(&ae_i.mul(&comb));
                    let anext = agg.add(&term);
                    let cnext = comb.mul(&rho);
                    proof {
                        let fbs = fb_indices(multi_open.openings@);
                        let aes = amort_evals(multi_open.openings@, zv);
                        lemma_accumulate_step(fbs, aes, rv, i as int);
                        assert(fbs[i as int] == item.1.idx());
                        assert(aes[i as int] == chal_product(
                            round_chals(item.0.rounds@),
                            zv,
                        ));
                    }
                    agg = anext;
                    evalsum = enext;
                    comb = cnext;
                    i = i + 1;
                },
            }
        }
        proof {
            assert(fb_indices(multi_open.openings@).take(n as int) =~= fb_indices(multi_open.openings@));
            assert(amort_evals(multi_open.openings@, zv).take(n as int) =~= amort_evals(multi_open.openings@, zv));
            use_type_invariant(&agg);
        }
        let agg_commitment = Commitment { point: agg };
        proof {
            assert(agg_commitment@ == point_enc(
                dot(fb_indices(multi_open.openings@), powers_of(rv, n as nat)),
            ));
        }
        let verified = self.verify(&agg_commitment, multi_open.batch_opening);
        match verified {
            None => {
                proof {
                    reveal(batch_accepts);
                }
                None
            },
            Some(e) => {
                if e.equals(&evalsum) {
                    proof {
                        reveal(batch_accepts);
                    }
                    Some(evals)
                } else {
                    proof {
                        reveal(batch_accepts);
                    }
                    None
                }
            },
        }
    }
}

/// The deterministic challenge list of one item's opening run, derived from
/// the item's own commitment, vector and point.
pub open(crate) spec fn item_chals(
    basis: Seq<nat>,
    n: nat,
    item: (Commitment, Vec<Scalar>, Scalar, Scalar),
) -> Seq<(nat, nat)> {
    chain_chals(
        basis,
        vals_of(item.1@),
        powers_of(item.2.val(), n),
        challenge_of(item.0@ + item.2@),
    )
}

/// The item's opening run never derives a zero challenge.
pub open(crate) spec fn item_chain_clean(
    basis: Seq<nat>,
    n: nat,
    item: (Commitment, Vec<Scalar>, Scalar, Scalar),
) -> bool {
    !chain_has_zero(
        basis,
        vals_of(item.1@),
        powers_of(item.2.val(), n),
        challenge_of(item.0@ + item.2@),
    )
}

/// The index of the final folded basis element an item's run produces.
pub open(crate) spec fn derived_fb(
    basis: Seq<nat>,
    n: nat,
    item: (Commitment, Vec<Scalar>, Scalar, Scalar),
) -> nat {
    dot(basis, tensor(item_chals(basis, n, item)))
}

/// The amortization transcript the runs produce: the canonical encodings of
/// the derived final basis elements, in order.
pub open(crate) spec fn derived_fb_bytes(
    basis: Seq<nat>,
    n: nat,
    opens: Seq<(Commitment, Vec<Scalar>, Scalar, Scalar)>,
) -> Seq<u8>
    decreases opens.len(),
{
    if opens.len() == 0 {
        Seq::empty()
    } else {
        point_enc(derived_fb(basis, n, opens[0])) + derived_fb_bytes(basis, n, opens.skip(1))
    }
}

/// The derived final basis elements of all items.
pub open(crate) spec fn derived_fbs(
    basis: Seq<nat>,
    n: nat,
    opens: Seq<(Commitment, Vec<Scalar>, Scalar, Scalar)>,
) -> Seq<nat> {
    Seq::new(opens.len(), |i: int| derived_fb(basis, n, opens[i]))
}

/// The first `i` items' contributions to the aggregate polynomial: the sum
/// of their tensor expansions, each scaled by its power of the combination
/// element.
pub open(crate) spec fn spoly_prefix(
    basis: Seq<nat>,
    n: nat,
    opens: Seq<(Commitment, Vec<Scalar>, Scalar, Scalar)>,
    rho: nat,
    i: int,
) -> Seq<nat>
    decreases i,
{
    if i <= 0 {
        Seq::new(n, |j: int| 0nat)
    } else {
        seq_fadd(
            spoly_prefix(basis, n, opens, rho, i - 1),
            seq_scale(fpow(rho, (i - 1) as nat), tensor(item_chals(basis, n, opens[i - 1]))),
        )
    }
}

/// The batch evaluation point: the first challenge drawn from the derived
/// transcript.
pub open(crate) spec fn batch_z(
    basis: Seq<nat>,
    n: nat,
    opens: Seq<(Commitment, Vec<Scalar>, Scalar, Scalar)>,
) -> nat {
    challenge_of(derived_fb_bytes(basis, n, opens))
}

/// The combination element: the second challenge drawn from the derived
/// transcript.
pub open(crate) spec fn batch_rho(
    basis: Seq<nat>,
    n: nat,
    opens: Seq<(Commitment, Vec<Scalar>, Scalar, Scalar)>,
) -> nat {
    second_challenge_of(derived_fb_bytes(basis, n, opens))
}

/// The aggregate polynomial the batch prover opens: the sum of the items'
/// tensor expansions, each scaled by its power of the combination element.
pub open(crate) spec fn batch_spoly(
    basis: Seq<nat>,
    n: nat,
    opens: Seq<(Commitment, Vec<Scalar>, Scalar, Scalar)>,
) -> Seq<nat> {
    spoly_prefix(basis, n, opens, batch_rho(basis, n, opens), opens.len() as int)
}

/// The binding challenge of the aggregate opening run: derived from the
/// combined commitment's encoding and the batch evaluation point's bytes.
pub open(crate) spec fn batch_agg_u(
    basis: Seq<nat>,
    n: nat,
    opens: Seq<(Commitment, Vec<Scalar>, Scalar, Scalar)>,
) -> nat {
    challenge_of(
        point_enc(
            dot(derived_fbs(basis, n, opens), powers_of(batch_rho(basis, n, opens), opens.len())),
        ) + crate::algebra::le_bytes(batch_z(basis, n, opens), 32),
    )
}

/// When the batch prover succeeds: every item's vector has the configured
/// length, no item's challenge chain derives a zero, and neither does the
/// aggregate opening run over the derived combination.
#[verifier::opaque]
pub open(crate) spec fn batch_open_ok(
    basis: Seq<nat>,
    n: nat,
    opens: Seq<(Commitment, Vec<Scalar>, Scalar, Scalar)>,
) -> bool {
    &&& forall|i: int| 0 <= i < opens.len() ==> (#[trigger] opens[i]).1@.len() == n
    &&& forall|i: int| 0 <= i < opens.len() ==> item_chain_clean(basis, n, #[trigger] opens[i])
    &&& !chain_has_zero(
        basis,
        batch_spoly(basis, n, opens),
        powers_of(batch_z(basis, n, opens), n),
        batch_agg_u(basis, n, opens),
    )
}

/// The digested transcript equals the derived one when each carried element
/// is the canonical encoding of its derived index.
proof fn lemma_fb_bytes_bridge(
    items: Seq<(Opening, Point)>,
    basis: Seq<nat>,
    n: nat,
    opens: Seq<(Commitment, Vec<Scalar>, Scalar, Scalar)>,
)
    requires
        items.len() == opens.len(),
        forall|i: int|
            0 <= i < items.len() ==> (#[trigger] items[i]).1@ == point_enc(
                derived_fb(basis, n, opens[i]),
            ),
    ensures
        fb_bytes(items) == derived_fb_bytes(basis, n, opens),
    decreases items.len(),
{
    if items.len() == 0 {
        assert(fb_bytes(items) =~= derived_fb_bytes(basis, n, opens));
    } else {
        assert(forall|i: int|
            0 <= i < items.skip(1).len() ==> (#[trigger] items.skip(1)[i]).1@ == point_enc(
                derived_fb(basis, n, opens.skip(1)[i]),
            ));
        lemma_fb_bytes_bridge(items.skip(1), basis, n, opens.skip(1));
        assert(items[0].1@ == point_enc(derived_fb(basis, n, opens[0])));
        assert(fb_bytes(items) =~= derived_fb_bytes(basis, n, opens));
    }
}

/// Expand a challenge list into the aggregate polynomial's contribution:
/// the tensor expansion scaled by the item's combination power.
pub(crate) fn challenges_to_poly(
    xs: &Vec<Scalar>,
    xinvs: &Vec<Scalar>,
    combination: &Scalar,
) -> (r: Vec<Scalar>)
    requires
        xs@.len() == xinvs@.len(),
        xs@.len() <= 30,
    ensures
        r@.len() == pow2(xs@.len()),
        vals_of(r@) == seq_scale(
            combination.val(),
            tensor(zip_pairs(vals_of(xs@), vals_of(xinvs@))),
        ),
{
    let t = s_vector(xs, xinvs);
    let out = crate::verify::scaled(combination, &t);
    proof {
        assert(vals_of(out@).len() == out@.len());
        assert(seq_scale(
            combination.val(),
            tensor(zip_pairs(vals_of(xs@), vals_of(xinvs@))),
        ).len() == pow2(xs@.len())) by {
            crate::folding::lemma_tensor_len(zip_pairs(vals_of(xs@), vals_of(xinvs@)));
        }
    }
    out
}

/// The vector of each item to open is committed to by the matching
/// commitment and evaluated honestly at the item's point.
pub open(crate) spec fn item_honest(
    basis: Seq<nat>,
    n: nat,
    item: (Commitment, Vec<Scalar>, Scalar, Scalar),
) -> bool {
    &&& item.1@.len() == n
    &&& item.0.idx() == dot(basis, vals_of(item.1@))
    &&& item.3.val() == dot(vals_of(item.1@), powers_of(item.2.val(), n))
}

/// The commitments of a list of items to open.
pub open(crate) spec fn batch_commitments(
    opens: Seq<(Commitment, Vec<Scalar>, Scalar, Scalar)>,
) -> Seq<Commitment> {
    Seq::new(opens.len(), |i: int| opens[i].0)
}

/// One aggregation step of the batch prover: mixing in one item's scaled
/// tensor expansion moves the aggregate commitment and the aggregate
/// polynomial's evaluation by that item's scaled contribution.
proof fn lemma_batch_step(basis: Seq<nat>, sp: Seq<nat>, ch: Seq<(nat, nat)>, zv: nat, cv: nat)
    requires
        basis.len() == sp.len(),
        sp.len() == pow2(ch.len()),
    ensures
        dot(basis, seq_fadd(sp, seq_scale(cv, tensor(ch)))) == fadd(
            dot(basis, sp),
            fmul(dot(basis, tensor(ch)), cv),
        ),
        dot(
            seq_fadd(sp, seq_scale(cv, tensor(ch))),
            powers_of(zv, sp.len()),
        ) == fadd(dot(sp, powers_of(zv, sp.len())), fmul(chal_product(ch, zv), cv)),
        seq_fadd(sp, seq_scale(cv, tensor(ch))).len() == sp.len(),
{
    crate::folding::lemma_tensor_len(ch);
    let t = tensor(ch);
    let powz = powers_of(zv, sp.len());
    crate::seqs::lemma_dot_add_right(basis, sp, seq_scale(cv, t));
    crate::seqs::lemma_dot_scale_right(cv, basis, t);
    crate::algebra::lemma_fmul_comm(cv, dot(basis, t));
    crate::seqs::lemma_dot_add(sp, seq_scale(cv, t), powz);
    crate::seqs::lemma_dot_scale(cv, t, powz);
    crate::seqs::lemma_dot_comm(t, powz);
    crate::folding::lemma_tensor_powers(ch, zv);
    crate::algebra::lemma_fmul_comm(cv, chal_product(ch, zv));
}

impl IpaScheme {
    /// Open many `(commitment, vector, point, evaluation)` items at once:
    /// run each item's opening to its final folded basis element, digest
    /// those elements to derive the batch evaluation point and the
    /// combination element, combine the items' tensor expansions into one
    /// aggregate polynomial, and open it once. Succeeds exactly when every
    /// item's vector has the configured length and no run, per item or
    /// aggregate, derives a zero challenge; the artifact then carries each
    /// run's proof — its point, evaluation, challenge chain and terminal
    /// scalar — with its final basis element, the tensor-fold of that run's
    /// challenges over the basis, and the aggregate opening is pinned to the
    /// derived combination: it opens the combined commitment at the derived
    /// point, claiming the aggregate polynomial's value there. When every
    /// item is honest — its
    /// commitment commits to its vector and its claimed evaluation is the
    /// vector's value at its point — the artifact passes batch
    /// verification.
    #[verifier::rlimit(100)]
    #[verifier::spinoff_prover]
    pub fn batch_open(&self, opens: &Vec<(Commitment, Vec<Scalar>, Scalar, Scalar)>) -> (r:
        Result<MultiOpening, SchemeError>)
        ensures
            r is Ok <==> batch_open_ok(self.basis_spec(), self.degree_spec(), opens@),
            r matches Err(e) ==> (e is MismatchedLength || e is DegenerateChallenge),
            r matches Err(e) && e is MismatchedLength ==> exists|i: int|
                0 <= i < opens@.len() && (#[trigger] opens@[i]).1@.len() != self.degree_spec(),
            r matches Ok(mo) ==> {
                &&& mo.items().len() == opens@.len()
                &&& forall|i: int|
                    0 <= i < opens@.len() ==> (#[trigger] mo.items()[i]).0.point_val()
                        == opens@[i].2.val() && mo.items()[i].0.eval_val() == opens@[i].3.val()
                &&& forall|i: int|
                    0 <= i < opens@.len() ==> (#[trigger] mo.items()[i]).0.rounds_seq().len()
                        == self.size_spec()
                &&& forall|i: int|
                    0 <= i < opens@.len() ==> (#[trigger] mo.items()[i]).1.idx() == dot(
                        self.basis_spec(),
                        tensor(round_chals(mo.items()[i].0.rounds_seq())),
                    )
                &&& forall|i: int|
                    0 <= i < opens@.len() ==> (#[trigger] mo.items()[i]).1@ == point_enc(
                        mo.items()[i].1.idx(),
                    )
                &&& forall|i: int|
                    0 <= i < opens@.len() ==> (#[trigger] mo.items()[i]).0.a_val()
                        == crate::folding::fold_all_swap(
                        vals_of(opens@[i].1@),
                        round_chals(mo.items()[i].0.rounds_seq()),
                    )[0]
                &&& mo.aggregate().point_val() == batch_z(
                    self.basis_spec(),
                    self.degree_spec(),
                    opens@,
                )
                &&& mo.aggregate().rounds_seq().len() == self.size_spec()
                &&& mo.aggregate().eval_val() == dot(
                    batch_spoly(self.basis_spec(), self.degree_spec(), opens@),
                    powers_of(
                        batch_z(self.basis_spec(), self.degree_spec(), opens@),
                        self.degree_spec(),
                    ),
                )
                &&& round_chals(mo.aggregate().rounds_seq()) == chain_chals(
                    self.basis_spec(),
                    batch_spoly(self.basis_spec(), self.degree_spec(), opens@),
                    powers_of(
                        batch_z(self.basis_spec(), self.degree_spec(), opens@),
                        self.degree_spec(),
                    ),
                    batch_agg_u(self.basis_spec(), self.degree_spec(), opens@),
                )
                &&& mo.aggregate().a_val() == crate::folding::fold_all_swap(
                    batch_spoly(self.basis_spec(), self.degree_spec(), opens@),
                    round_chals(mo.aggregate().rounds_seq()),
                )[0]
                &&& forall|i: int|
                    0 <= i < opens@.len() ==> ((#[trigger] opens@[i]).0.idx() == dot(
                        self.basis_spec(),
                        vals_of(opens@[i].1@),
                    ) ==> (item_accepts(self.size_spec(), opens@[i].0, mo.items()[i]) <==> fmul(
                        challenge_of(opens@[i].0@ + opens@[i].2@),
                        fadd(
                            opens@[i].3.val(),
                            crate::algebra::fneg(
                                dot(
                                    vals_of(opens@[i].1@),
                                    powers_of(opens@[i].2.val(), self.degree_spec()),
                                ),
                            ),
                        ),
                    ) == 0))
                &&& (forall|i: int|
                    0 <= i < opens@.len() ==> item_honest(
                        self.basis_spec(),
                        self.degree_spec(),
                        #[trigger] opens@[i],
                    )) ==> batch_accepts(
                    self.basis_spec(),
                    self.size_spec(),
                    batch_commitments(opens@),
                    mo,
                )
            },
    {
        proof {
            use_type_invariant(self);
        }
        let n_items = opens.len();
        let k = self.max_size as usize;
        let mut items: Vec<(Opening, Point)> = Vec::new();
        let mut xs_all: Vec<Vec<Scalar>> = Vec::new();
        let mut xinvs_all: Vec<Vec<Scalar>> = Vec::new();
        let mut generator = ChallengeGenerator::new();
        let mut i: usize = 0;
        while i < n_items
            invariant
                0 <= i <= n_items,
                opens@.len() == n_items,
                k == self.size_spec(),
                k <= 30,
                items@.len() == i,
                xs_all@.len() == i,
                xinvs_all@.len() == i,
                generator@ == fb_bytes(items@),
                forall|j: int|
                    0 <= j < i ==> (#[trigger] items@[j]).1.idx() == dot(
                        self.basis_spec(),
                        tensor(round_chals(items@[j].0.rounds@)),
                    ),
                forall|j: int|
                    0 <= j < i ==> (#[trigger] items@[j]).1@ == point_enc(items@[j].1.idx()),
                forall|j: int|
                    0 <= j < i ==> (#[trigger] items@[j]).0.rounds@.len() == self.size_spec()
                        && chals_ok(items@[j].0.rounds@),
                forall|j: int|
                    0 <= j < i ==> (#[trigger] items@[j]).0.point_val() == opens@[j].2.val()
                        && items@[j].0.eval_val() == opens@[j].3.val(),
                forall|j: int|
                    0 <= j < i ==> (#[trigger] items@[j]).0.a_val()
                        == crate::folding::fold_all_swap(
                        vals_of(opens@[j].1@),
                        round_chals(items@[j].0.rounds@),
                    )[0],
                forall|j: int|
                    0 <= j < i ==> (item_honest(
                        self.basis_spec(),
                        self.degree_spec(),
                        #[trigger] opens@[j],
                    ) ==> item_accepts(self.size_spec(), opens@[j].0, items@[j])),
                forall|j: int|
                    0 <= j < i ==> (#[trigger] xs_all@[j])@.len() == self.size_spec()
                        && xinvs_all@[j]@.len() == self.size_spec() && zip_pairs(
                        vals_of(xs_all@[j]@),
                        vals_of(xinvs_all@[j]@),
                    ) == round_chals(items@[j].0.rounds@),
                forall|j: int|
                    0 <= j < i ==> round_chals((#[trigger] items@[j]).0.rounds@) == item_chals(
                        self.basis_spec(),
                        self.degree_spec(),
                        opens@[j],
                    ),
                forall|j: int|
                    0 <= j < i ==> item_chain_clean(
                        self.basis_spec(),
                        self.degree_spec(),
                        #[trigger] opens@[j],
                    ),
                forall|j: int| 0 <= j < i ==> (#[trigger] opens@[j]).1@.len() == self.degree_spec(),
                forall|j: int|
                    0 <= j < i ==> ((#[trigger] opens@[j]).0.idx() == dot(
                        self.basis_spec(),
                        vals_of(opens@[j].1@),
                    ) ==> (item_accepts(self.size_spec(), opens@[j].0, items@[j]) <==> fmul(
                        challenge_of(opens@[j].0@ + opens@[j].2@),
                        fadd(
                            opens@[j].3.val(),
                            crate::algebra::fneg(
                                dot(
                                    vals_of(opens@[j].1@),
                                    powers_of(opens@[j].2.val(), self.degree_spec()),
                                ),
                            ),
                        ),
                    ) == 0)),
            decreases n_items - i,
        {
            let it = &opens[i];
            proof {
                assert(*it == opens@[i as int]);
            }
            let opened = self.open_internal(&it.0, &it.1, &it.2, &it.3);
            match opened {
                Err(e) => {
                    proof {
                        assert(!batch_open_ok(
                            self.basis_spec(),
                            self.degree_spec(),
                            opens@,
                        )) by {
                            reveal(batch_open_ok);
                            if batch_open_ok(self.basis_spec(), self.degree_spec(), opens@) {
                                assert(opens@[i as int].1@.len() == self.degree_spec());
                                assert(item_chain_clean(
                                    self.basis_spec(),
                                    self.degree_spec(),
                                    opens@[i as int],
                                ));
                            }
                        }
                    }
                    return Err(e);
                },
                Ok((o_i, fb_i, xs_i, xinvs_i)) => {
                    generator.digest_for_amortization(&fb_i);
                    let ghost old_items = items@;
                    proof {
                        use_type_invariant(&fb_i);
                        use_type_invariant(self);
                        if opens@[i as int].0.idx() == dot(
                            self.basis_spec(),
                            vals_of(opens@[i as int].1@),
                        ) {
                            // the carried element stands for the tensor-fold, so the
                            // item equation is the binding acceptance equation
                            assert(item_accepts(self.size_spec(), opens@[i as int].0, (o_i, fb_i))
                                <==> crate::verify::accepts_binding(
                                self.basis_spec(),
                                opens@[i as int].0@,
                                o_i,
                            )) by {
                                reveal(item_accepts);
                            }
                        }
                        if item_honest(self.basis_spec(), self.degree_spec(), opens@[i as int]) {
                            assert(item_accepts(
                                self.size_spec(),
                                opens@[i as int].0,
                                (o_i, fb_i),
                            )) by {
                                reveal(item_accepts);
                            }
                        }
                    }
                    items.push((o_i, fb_i));
                    xs_all.push(xs_i);
                    xinvs_all.push(xinvs_i);
                    proof {
                        lemma_fb_bytes_snoc(old_items, items@[i as int]);
                        assert(items@ =~= old_items.push(items@[i as int]));
                    }
                    i = i + 1;
                },
            }
        }
        let (z, rho) = generator.amortization_elements();
        let ghost zv = challenge_of(fb_bytes(items@));
        let ghost rv = second_challenge_of(fb_bytes(items@));
        let n = self.max_degree;
        let mut spoly = crate::utils::zero_vector(n);
        let mut agg = Point::zero();
        let mut comb = Scalar::from_u64(1);
        proof {
            assert forall|j: int| 0 <= j < n_items implies (#[trigger] items@[j]).1@
                == point_enc(derived_fb(self.basis_spec(), self.degree_spec(), opens@[j])) by {
                assert(items@[j].1.idx() == derived_fb(
                    self.basis_spec(),
                    self.degree_spec(),
                    opens@[j],
                ));
            }
            lemma_fb_bytes_bridge(items@, self.basis_spec(), self.degree_spec(), opens@);
            assert(zv == challenge_of(
                derived_fb_bytes(self.basis_spec(), self.degree_spec(), opens@),
            ));
            crate::seqs::lemma_dot_zero(self.basis_spec(), vals_of(spoly@));
            crate::seqs::lemma_dot_zero(powers_of(zv, n as nat), vals_of(spoly@));
            crate::seqs::lemma_dot_comm(vals_of(spoly@), powers_of(zv, n as nat));
            assert(vals_of(spoly@) =~= spoly_prefix(
                self.basis_spec(),
                self.degree_spec(),
                opens@,
                rv,
                0,
            ));
        }
        let mut i: usize = 0;
        while i < n_items
            invariant
                0 <= i <= n_items,
                opens@.len() == n_items,
                items@.len() == n_items,
                xs_all@.len() == n_items,
                xinvs_all@.len() == n_items,
                k == self.size_spec(),
                k <= 30,
                n == self.degree_spec(),
                n == pow2(self.size_spec()),
                self.basis_spec().len() == n,
                z.val() == zv,
                rho.val() == rv,
                zv == challenge_of(fb_bytes(items@)),
                rv == second_challenge_of(fb_bytes(items@)),
                spoly@.len() == n,
                agg.idx() == dot(fb_indices(items@).take(i as int), powers_of(rv, i as nat)),
                agg.idx() == dot(self.basis_spec(), vals_of(spoly@)),
                vals_of(spoly@) == spoly_prefix(
                    self.basis_spec(),
                    self.degree_spec(),
                    opens@,
                    rv,
                    i as int,
                ),
                zv == challenge_of(derived_fb_bytes(self.basis_spec(), self.degree_spec(), opens@)),
                rv == second_challenge_of(
                    derived_fb_bytes(self.basis_spec(), self.degree_spec(), opens@),
                ),
                dot(vals_of(spoly@), powers_of(zv, n as nat)) == dot(
                    amort_evals(items@, zv).take(i as int),
                    powers_of(rv, i as nat),
                ),
                comb.val() == fpow(rv, i as nat),
                forall|j: int|
                    0 <= j < n_items ==> (#[trigger] items@[j]).1.idx() == dot(
                        self.basis_spec(),
                        tensor(round_chals(items@[j].0.rounds@)),
                    ),
                forall|j: int|
                    0 <= j < n_items ==> (#[trigger] items@[j]).0.rounds@.len()
                        == self.size_spec(),
                forall|j: int|
                    0 <= j < n_items ==> (#[trigger] xs_all@[j])@.len() == self.size_spec()
                        && xinvs_all@[j]@.len() == self.size_spec() && zip_pairs(
                        vals_of(xs_all@[j]@),
                        vals_of(xinvs_all@[j]@),
                    ) == round_chals(items@[j].0.rounds@),
                forall|j: int|
                    0 <= j < n_items ==> round_chals((#[trigger] items@[j]).0.rounds@)
                        == item_chals(self.basis_spec(), self.degree_spec(), opens@[j]),
                forall|j: int|
                    0 <= j < n_items ==> item_chain_clean(
                        self.basis_spec(),
                        self.degree_spec(),
                        #[trigger] opens@[j],
                    ),
                forall|j: int|
                    0 <= j < n_items ==> (#[trigger] opens@[j]).1@.len() == self.degree_spec(),
                forall|j: int|
                    0 <= j < n_items ==> (#[trigger] items@[j]).1@ == point_enc(
                        items@[j].1.idx(),
                    ),
                forall|j: int|
                    0 <= j < n_items ==> (#[trigger] items@[j]).0.a_val()
                        == crate::folding::fold_all_swap(
                        vals_of(opens@[j].1@),
                        round_chals(items@[j].0.rounds@),
                    )[0],
                forall|j: int|
                    0 <= j < n_items ==> ((#[trigger] opens@[j]).0.idx() == dot(
                        self.basis_spec(),
                        vals_of(opens@[j].1@),
                    ) ==> (item_accepts(self.size_spec(), opens@[j].0, items@[j]) <==> fmul(
                        challenge_of(opens@[j].0@ + opens@[j].2@),
                        fadd(
                            opens@[j].3.val(),
                            crate::algebra::fneg(
                                dot(
                                    vals_of(opens@[j].1@),
                                    powers_of(opens@[j].2.val(), self.degree_spec()),
                                ),
                            ),
                        ),
                    ) == 0)),
            decreases n_items - i,
        {
            let contribution = challenges_to_poly(&xs_all[i], &xinvs_all[i], &comb);
            let ghost ch_i = round_chals(items@[i as int].0.rounds@);
            let nspoly = crate::utils::vec_fadd(&spoly, &contribution);
            let term = items[i].1.mul(&comb);
            let nagg = agg.add(&term);
            let ncomb = comb.mul(&rho);
            proof {
                let fbs = fb_indices(items@);
                let aes = amort_evals(items@, zv);
                lemma_accumulate_step(fbs, aes, rv, i as int);
                assert(fbs[i as int] == items@[i as int].1.idx());
                assert(aes[i as int] == chal_product(ch_i, zv));
                lemma_batch_step(
                    self.basis_spec(),
                    vals_of(spoly@),
                    ch_i,
                    zv,
                    comb.val(),
                );
                crate::algebra::lemma_fmul_comm(comb.val(), rho.val());
                assert(ch_i == item_chals(self.basis_spec(), self.degree_spec(), opens@[i as int]));
                assert(vals_of(nspoly@) == spoly_prefix(
                    self.basis_spec(),
                    self.degree_spec(),
                    opens@,
                    rv,
                    i + 1,
                ));
            }
            spoly = nspoly;
            agg = nagg;
            comb = ncomb;
            i = i + 1;
        }
        let evalz = crate::utils::eval_poly(&spoly, &z);
        proof {
            use_type_invariant(&agg);
            use_type_invariant(&z);
            assert(fb_indices(items@).take(n_items as int) =~= fb_indices(items@));
            assert(amort_evals(items@, zv).take(n_items as int) =~= amort_evals(items@, zv));
        }
        let agg_commitment = Commitment { point: agg };
        proof {
            // the run the aggregate opening makes is exactly the derived one
            assert(fb_indices(items@) =~= derived_fbs(self.basis_spec(), self.degree_spec(), opens@));
            assert(agg_commitment@ == point_enc(
                dot(
                    derived_fbs(self.basis_spec(), self.degree_spec(), opens@),
                    powers_of(rv, n_items as nat),
                ),
            ));
            crate::algebra::lemma_le_bytes_of(z@);
            assert(z@ == crate::algebra::le_bytes(zv, 32));
        }
        let opened = self.open(&agg_commitment, &spoly, &z, &evalz);
        match opened {
            Err(_) => {
                proof {
                    assert(!batch_open_ok(self.basis_spec(), self.degree_spec(), opens@)) by {
                        reveal(batch_open_ok);
                    }
                }
                Err(SchemeError::DegenerateChallenge)
            },
            Ok(batch_opening) => {
                proof {
                    // the aggregate run's inputs are exactly the derived ones
                    assert(z.val() == batch_z(self.basis_spec(), self.degree_spec(), opens@));
                    assert(rho.val() == batch_rho(self.basis_spec(), self.degree_spec(), opens@));
                    assert(vals_of(spoly@) == batch_spoly(
                        self.basis_spec(),
                        self.degree_spec(),
                        opens@,
                    ));
                    assert(challenge_of(agg_commitment@ + z@) == batch_agg_u(
                        self.basis_spec(),
                        self.degree_spec(),
                        opens@,
                    ));
                }
                let mo = MultiOpening { openings: items, batch_opening };
                proof {
                    assert(batch_open_ok(self.basis_spec(), self.degree_spec(), opens@)) by {
                        reveal(batch_open_ok);
                    }
                    if forall|j: int|
                        0 <= j < opens@.len() ==> item_honest(
                            self.basis_spec(),
                            self.degree_spec(),
                            #[trigger] opens@[j],
                        ) {
                        assert(batch_accepts(
                            self.basis_spec(),
                            self.size_spec(),
                            batch_commitments(opens@),
                            mo,
                        )) by {
                            reveal(batch_accepts);
                            assert(forall|j: int|
                                0 <= j < opens@.len() ==> item_accepts(
                                    self.size_spec(),
                                    batch_commitments(opens@)[j],
                                    #[trigger] mo.openings@[j],
                                ));
                        }
                    }
                }
                Ok(mo)
            },
        }
    }
}

} // verus!
