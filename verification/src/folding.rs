//! The recursive-halving algebra shared by the prover and the verifier: one
//! folding round, the tensor expansion of a challenge list into the `s`
//! vector, the product form of the folded power vector, and the invariant
//! that ties the accumulated verification point to the folded state.
use vstd::prelude::*;

verus! {

use crate::algebra::{
    fadd,
    fmul,
    fpow,
    lemma_fadd_red,
    lemma_fadd_zero,
    lemma_fmul_assoc,
    lemma_fmul_comm,
    lemma_fmul_distrib,
    lemma_fmul_one,
    lemma_fmul_red,
    red,
};
use crate::seqs::{
    all_red,
    dot,
    lemma_dot_add,
    lemma_dot_add_right,
    lemma_dot_comm,
    lemma_dot_concat,
    lemma_dot_red,
    lemma_dot_scale,
    lemma_dot_scale_right,
    lemma_dot_split,
    lemma_fadd_exchange,
    lemma_powers_red,
    lemma_powers_split,
    lemma_seq_fadd_red,
    lemma_seq_scale_red,
    powers_of,
    seq_fadd,
    seq_scale,
};
use vstd::arithmetic::power2::pow2;

/// One folding round: the lower half scaled by `cl` plus the upper half
/// scaled by `ch`. The basis and the power vector fold with
/// `(cl, ch) == (inverse, challenge)`; the coefficient vector folds with the
/// two swapped.
pub open spec fn fold_with(v: Seq<nat>, cl: nat, ch: nat) -> Seq<nat> {
    let m = (v.len() / 2) as int;
    seq_fadd(seq_scale(cl, v.take(m)), seq_scale(ch, v.skip(m)))
}

/// Fold a vector through a whole list of `(challenge, inverse)` rounds, the
/// way the basis and the power vector are folded.
pub open spec fn fold_all(v: Seq<nat>, ch: Seq<(nat, nat)>) -> Seq<nat>
    decreases ch.len(),
{
    if ch.len() == 0 {
        v
    } else {
        fold_all(fold_with(v, ch[0].1, ch[0].0), ch.skip(1))
    }
}

/// Fold a vector through a whole list of rounds the way the coefficient
/// vector is folded: with the challenge on the lower half.
pub open spec fn fold_all_swap(v: Seq<nat>, ch: Seq<(nat, nat)>) -> Seq<nat>
    decreases ch.len(),
{
    if ch.len() == 0 {
        v
    } else {
        fold_all_swap(fold_with(v, ch[0].0, ch[0].1), ch.skip(1))
    }
}

/// The `s` vector: entry `i` is the product over the rounds of the challenge
/// where bit `j` of `i` (highest round bit first) is set and of the inverse
/// where it is clear.
pub open spec fn tensor(ch: Seq<(nat, nat)>) -> Seq<nat>
    decreases ch.len(),
{
    if ch.len() == 0 {
        seq![1nat]
    } else {
        seq_scale(ch[0].1, tensor(ch.skip(1))) + seq_scale(ch[0].0, tensor(ch.skip(1)))
    }
}

/// The product form of `dot(powers_of(z, n), tensor(ch))`: one factor
/// `inverse_j + challenge_j * z^(n / 2^(j+1))` per round.
pub open spec fn chal_product(ch: Seq<(nat, nat)>, z: nat) -> nat
    decreases ch.len(),
{
    if ch.len() == 0 {
        1
    } else {
        fmul(
            fadd(ch[0].1, fmul(ch[0].0, fpow(z, pow2((ch.len() - 1) as nat)))),
            chal_product(ch.skip(1), z),
        )
    }
}

pub proof fn lemma_tensor_len(ch: Seq<(nat, nat)>)
    ensures
        tensor(ch).len() == pow2(ch.len()),
    decreases ch.len(),
{
    if ch.len() == 0 {
        assert(pow2(0) == 1) by {
            vstd::arithmetic::power::lemma_pow0(2);
        }
    } else {
        vstd::arithmetic::power2::lemma_pow2_unfold(ch.len() as nat);
        lemma_tensor_len(ch.skip(1));
    }
}

pub proof fn lemma_fold_with_red(v: Seq<nat>, cl: nat, ch: nat)
    ensures
        all_red(fold_with(v, cl, ch)),
        fold_with(v, cl, ch).len() == v.len() / 2,
{
    let m = (v.len() / 2) as int;
    lemma_seq_fadd_red(seq_scale(cl, v.take(m)), seq_scale(ch, v.skip(m)));
}

/// Folding a vector through all rounds gives its inner product with the
/// tensor expansion of the challenges.
pub proof fn lemma_fold_all_tensor(v: Seq<nat>, ch: Seq<(nat, nat)>)
    requires
        v.len() == pow2(ch.len()),
        all_red(v),
    ensures
        fold_all(v, ch).len() == 1,
        fold_all(v, ch)[0] == dot(v, tensor(ch)),
    decreases ch.len(),
{
    lemma_tensor_len(ch);
    if ch.len() == 0 {
        assert(pow2(0) == 1) by {
            vstd::arithmetic::power::lemma_pow0(2);
        }
        assert(v.skip(1).len() == 0);
        assert(seq![1nat][0] == 1);
        assert(dot(v.skip(1), seq![1nat].skip(1)) == 0);
        assert(dot(v, seq![1nat]) == fadd(fmul(v[0], 1), 0));
        lemma_fmul_one(v[0]);
        lemma_fadd_zero(v[0]);
    } else {
        let x = ch[0].0;
        let xi = ch[0].1;
        let m = (v.len() / 2) as int;
        let t = tensor(ch.skip(1));
        assert(v.len() == 2 * pow2((ch.len() - 1) as nat)) by {
            vstd::arithmetic::power2::lemma_pow2_unfold(ch.len() as nat);
        }
        lemma_tensor_len(ch.skip(1));
        assert(t.len() == m);
        let v2 = fold_with(v, xi, x);
        lemma_fold_with_red(v, xi, x);
        lemma_fold_all_tensor(v2, ch.skip(1));
        // dot(v2, t) == fadd(fmul(xi, dot(lo, t)), fmul(x, dot(hi, t)))
        let lo = v.take(m);
        let hi = v.skip(m);
        lemma_dot_add(seq_scale(xi, lo), seq_scale(x, hi), t);
        lemma_dot_scale(xi, lo, t);
        lemma_dot_scale(x, hi, t);
        // dot(v, tensor(ch)) splits the same way
        assert(v =~= lo + hi);
        lemma_dot_concat(lo, seq_scale(xi, t), hi, seq_scale(x, t));
        lemma_dot_scale_right(xi, lo, t);
        lemma_dot_scale_right(x, hi, t);
    }
}

/// The inner product of a power vector with the tensor expansion factors into
/// the round-by-round product the verifier computes.
pub proof fn lemma_tensor_powers(ch: Seq<(nat, nat)>, z: nat)
    ensures
        dot(powers_of(z, pow2(ch.len())), tensor(ch)) == chal_product(ch, z),
        red(chal_product(ch, z)),
    decreases ch.len(),
{
    if ch.len() == 0 {
        assert(pow2(0) == 1) by {
            vstd::arithmetic::power::lemma_pow0(2);
        }
        let p = powers_of(z, 1);
        assert(p[0] == fpow(z, 0));
        assert(p.skip(1).len() == 0);
        assert(seq![1nat][0] == 1);
        assert(dot(p.skip(1), seq![1nat].skip(1)) == 0);
        assert(dot(p, seq![1nat]) == fadd(fmul(1, 1), 0));
        lemma_fmul_one(1);
        lemma_fadd_zero(1);
    } else {
        let x = ch[0].0;
        let xi = ch[0].1;
        let k1 = (ch.len() - 1) as nat;
        let m = pow2(k1);
        let t = tensor(ch.skip(1));
        let pm = powers_of(z, m);
        let zm = fpow(z, m);
        assert(pow2(ch.len() as nat) == 2 * m) by {
            vstd::arithmetic::power2::lemma_pow2_unfold(ch.len() as nat);
        }
        lemma_tensor_len(ch.skip(1));
        lemma_tensor_powers(ch.skip(1), z);
        let dd = dot(pm, t);
        lemma_powers_split(z, m);
        lemma_dot_concat(pm, seq_scale(xi, t), seq_scale(zm, pm), seq_scale(x, t));
        lemma_dot_scale_right(xi, pm, t);
        // dot(seq_scale(zm, pm), seq_scale(x, t)) == fmul(zm, fmul(x, dd))
        lemma_dot_scale(zm, pm, seq_scale(x, t));
        lemma_dot_scale_right(x, pm, t);
        // goal: fadd(fmul(xi, dd), fmul(zm, fmul(x, dd))) == fmul(fadd(xi, fmul(x, zm)), dd)
        lemma_fmul_comm(fadd(xi, fmul(x, zm)), dd);
        lemma_fmul_distrib(dd, xi, fmul(x, zm));
        lemma_fmul_comm(dd, xi);
        lemma_fmul_comm(dd, fmul(x, zm));
        // fmul(fmul(x, zm), dd) == fmul(zm, fmul(x, dd))
        lemma_fmul_assoc(x, zm, dd);
        lemma_fmul_assoc(zm, x, dd);
        lemma_fmul_comm(x, zm);
        lemma_fmul_red(x, zm);
        lemma_fadd_red(xi, fmul(x, zm));
    }
}

/// Folding through one more round folds the already-folded state once more.
pub proof fn lemma_fold_all_snoc(v: Seq<nat>, ch: Seq<(nat, nat)>, p: (nat, nat))
    ensures
        fold_all(v, ch.push(p)) == fold_with(fold_all(v, ch), p.1, p.0),
    decreases ch.len(),
{
    if ch.len() == 0 {
        assert(ch.push(p)[0] == p);
        assert(ch.push(p).skip(1).len() == 0);
        assert(fold_all(v, ch.push(p)) == fold_all(fold_with(v, p.1, p.0), ch.push(p).skip(1)));
    } else {
        assert(ch.push(p)[0] == ch[0]);
        assert(ch.push(p).skip(1) =~= ch.skip(1).push(p));
        lemma_fold_all_snoc(fold_with(v, ch[0].1, ch[0].0), ch.skip(1), p);
    }
}

/// Folding through one more round folds the already-folded state once more,
/// coefficient-vector style.
pub proof fn lemma_fold_all_swap_snoc(v: Seq<nat>, ch: Seq<(nat, nat)>, p: (nat, nat))
    ensures
        fold_all_swap(v, ch.push(p)) == fold_with(fold_all_swap(v, ch), p.0, p.1),
    decreases ch.len(),
{
    if ch.len() == 0 {
        assert(ch.push(p)[0] == p);
        assert(ch.push(p).skip(1).len() == 0);
        assert(fold_all_swap(v, ch.push(p)) == fold_all_swap(
            fold_with(v, p.0, p.1),
            ch.push(p).skip(1),
        ));
    } else {
        assert(ch.push(p)[0] == ch[0]);
        assert(ch.push(p).skip(1) =~= ch.skip(1).push(p));
        lemma_fold_all_swap_snoc(fold_with(v, ch[0].0, ch[0].1), ch.skip(1), p);
    }
}

/// The group-equation value the verifier tracks: `<g, a> + u * <a, b>`.
pub open spec fn vcomb(g: Seq<nat>, a: Seq<nat>, b: Seq<nat>, u: nat) -> nat {
    fadd(dot(g, a), fmul(u, dot(a, b)))
}

/// Index of the round's left cross point: `<g_hi, a_lo> + u * <a_lo, b_hi>`.
pub open spec fn l_index(g: Seq<nat>, a: Seq<nat>, b: Seq<nat>, u: nat) -> nat {
    let m = (g.len() / 2) as int;
    fadd(dot(g.skip(m), a.take(m)), fmul(u, dot(a.take(m), b.skip(m))))
}

/// Index of the round's right cross point: `<g_lo, a_hi> + u * <a_hi, b_lo>`.
pub open spec fn r_index(g: Seq<nat>, a: Seq<nat>, b: Seq<nat>, u: nat) -> nat {
    let m = (g.len() / 2) as int;
    fadd(dot(g.take(m), a.skip(m)), fmul(u, dot(a.skip(m), b.take(m))))
}

/// One folding round moves the tracked value by exactly the challenge-squared
/// combination of the two cross points, which is what the verifier adds.
pub proof fn lemma_round_invariant(
    g: Seq<nat>,
    a: Seq<nat>,
    b: Seq<nat>,
    u: nat,
    x: nat,
    xi: nat,
)
    requires
        g.len() == a.len(),
        g.len() == b.len(),
        g.len() % 2 == 0,
        g.len() >= 2,
        fmul(x, xi) == 1,
    ensures
        vcomb(fold_with(g, xi, x), fold_with(a, x, xi), fold_with(b, xi, x), u) == fadd(
            vcomb(g, a, b, u),
            fadd(
                fmul(fmul(x, x), l_index(g, a, b, u)),
                fmul(fmul(xi, xi), r_index(g, a, b, u)),
            ),
        ),
{
    let q = crate::algebra::group_order();
    let m = (g.len() / 2) as int;
    let gl = g.take(m);
    let gh = g.skip(m);
    let al = a.take(m);
    let ah = a.skip(m);
    let bl = b.take(m);
    let bh = b.skip(m);
    let g2 = fold_with(g, xi, x);
    let a2 = fold_with(a, x, xi);
    let b2 = fold_with(b, xi, x);
    let x2 = fmul(x, x);
    let xi2 = fmul(xi, xi);

    let glal = dot(gl, al);
    let glah = dot(gl, ah);
    let ghal = dot(gh, al);
    let ghah = dot(gh, ah);
    let albl = dot(al, bl);
    let albh = dot(al, bh);
    let ahbl = dot(ah, bl);
    let ahbh = dot(ah, bh);

    lemma_dot_red(gl, al);
    lemma_dot_red(gl, ah);
    lemma_dot_red(gh, al);
    lemma_dot_red(gh, ah);
    lemma_dot_red(al, bl);
    lemma_dot_red(al, bh);
    lemma_dot_red(ah, bl);
    lemma_dot_red(ah, bh);

    // Expand dot(g2, a2) into the four cross inner products.
    assert(dot(g2, a2) == fadd(fadd(glal, fmul(xi2, glah)), fadd(fmul(x2, ghal), ghah))) by {
        lemma_dot_add(seq_scale(xi, gl), seq_scale(x, gh), a2);
        lemma_dot_scale(xi, gl, a2);
        lemma_dot_scale(x, gh, a2);
        lemma_dot_add_right(gl, seq_scale(x, al), seq_scale(xi, ah));
        lemma_dot_scale_right(x, gl, al);
        lemma_dot_scale_right(xi, gl, ah);
        lemma_dot_add_right(gh, seq_scale(x, al), seq_scale(xi, ah));
        lemma_dot_scale_right(x, gh, al);
        lemma_dot_scale_right(xi, gh, ah);
        assert(dot(g2, a2) == fadd(
            fmul(xi, fadd(fmul(x, glal), fmul(xi, glah))),
            fmul(x, fadd(fmul(x, ghal), fmul(xi, ghah))),
        ));
        lemma_fmul_distrib(xi, fmul(x, glal), fmul(xi, glah));
        lemma_fmul_distrib(x, fmul(x, ghal), fmul(xi, ghah));
        crate::algebra::lemma_fmul_cancel(xi, x, glal);
        crate::algebra::lemma_fmul_cancel(x, xi, ghah);
        crate::algebra::lemma_fmul_assoc(xi, xi, glah);
        crate::algebra::lemma_fmul_assoc(x, x, ghal);
    }

    // Expand dot(a2, b2) the same way.
    assert(dot(a2, b2) == fadd(fadd(albl, fmul(x2, albh)), fadd(fmul(xi2, ahbl), ahbh))) by {
        lemma_dot_add(seq_scale(x, al), seq_scale(xi, ah), b2);
        lemma_dot_scale(x, al, b2);
        lemma_dot_scale(xi, ah, b2);
        lemma_dot_add_right(al, seq_scale(xi, bl), seq_scale(x, bh));
        lemma_dot_scale_right(xi, al, bl);
        lemma_dot_scale_right(x, al, bh);
        lemma_dot_add_right(ah, seq_scale(xi, bl), seq_scale(x, bh));
        lemma_dot_scale_right(xi, ah, bl);
        lemma_dot_scale_right(x, ah, bh);
        assert(dot(a2, b2) == fadd(
            fmul(x, fadd(fmul(xi, albl), fmul(x, albh))),
            fmul(xi, fadd(fmul(xi, ahbl), fmul(x, ahbh))),
        ));
        lemma_fmul_distrib(x, fmul(xi, albl), fmul(x, albh));
        lemma_fmul_distrib(xi, fmul(xi, ahbl), fmul(x, ahbh));
        crate::algebra::lemma_fmul_cancel(x, xi, albl);
        crate::algebra::lemma_fmul_cancel(xi, x, ahbh);
        crate::algebra::lemma_fmul_assoc(x, x, albh);
        crate::algebra::lemma_fmul_assoc(xi, xi, ahbl);
    }

    // Flatten the left-hand side to one reduced eight-term sum.
    let t_l = fmul(xi2, glah);
    let t_h = fmul(x2, ghal);
    let s_l = fmul(x2, albh);
    let s_h = fmul(xi2, ahbl);
    crate::algebra::lemma_fadd_flat4(glal, t_l, t_h, ghah);
    crate::algebra::lemma_fadd_flat4(fmul(u, albl), fmul(u, s_l), fmul(u, s_h), fmul(u, ahbh));
    assert(fmul(u, dot(a2, b2)) == fadd(
        fadd(fmul(u, albl), fmul(u, s_l)),
        fadd(fmul(u, s_h), fmul(u, ahbh)),
    )) by {
        lemma_fmul_distrib(u, fadd(albl, s_l), fadd(s_h, ahbh));
        lemma_fmul_distrib(u, albl, s_l);
        lemma_fmul_distrib(u, s_h, ahbh);
    }
    let lterms = (glal + t_l + t_h + ghah) as nat;
    let rterms = (fmul(u, albl) + fmul(u, s_l) + fmul(u, s_h) + fmul(u, ahbh)) as nat;
    assert(vcomb(g2, a2, b2, u) == fadd(lterms % q, rterms % q));
    crate::algebra::lemma_fadd_mod(lterms, rterms % q);
    crate::algebra::lemma_fadd_mod(lterms, rterms);
    assert(vcomb(g2, a2, b2, u) == (lterms + rterms) % q);

    // Flatten the right-hand side to the same sum.
    assert(dot(g, a) == fadd(glal, ghah)) by {
        lemma_dot_split(g, a, m);
    }
    assert(dot(a, b) == fadd(albl, ahbh)) by {
        lemma_dot_split(a, b, m);
    }
    assert(fmul(u, dot(a, b)) == fadd(fmul(u, albl), fmul(u, ahbh))) by {
        lemma_fmul_distrib(u, albl, ahbh);
    }
    assert(fmul(x2, l_index(g, a, b, u)) == fadd(t_h, fmul(u, s_l))) by {
        lemma_fmul_distrib(x2, ghal, fmul(u, albh));
        crate::algebra::lemma_fmul_swap(u, x2, albh);
    }
    assert(fmul(xi2, r_index(g, a, b, u)) == fadd(t_l, fmul(u, s_h))) by {
        lemma_fmul_distrib(xi2, glah, fmul(u, ahbl));
        crate::algebra::lemma_fmul_swap(u, xi2, ahbl);
    }
    let v1 = (glal + ghah + (fmul(u, albl) + fmul(u, ahbh))) as nat;
    crate::algebra::lemma_fadd_flat4(glal, ghah, fmul(u, albl), fmul(u, ahbh));
    crate::algebra::lemma_fadd_flat4(t_h, fmul(u, s_l), t_l, fmul(u, s_h));
    let v2 = (t_h + fmul(u, s_l) + t_l + fmul(u, s_h)) as nat;
    crate::algebra::lemma_fadd_mod(v1, v2 % q);
    crate::algebra::lemma_fadd_mod(v1, v2);
    assert(fadd(
        vcomb(g, a, b, u),
        fadd(fmul(x2, l_index(g, a, b, u)), fmul(xi2, r_index(g, a, b, u))),
    ) == (v1 + v2) % q);
    assert(lterms + rterms == v1 + v2);
}

/// The hiding variant of the round invariant: with the blinding terms mixed
/// into the cross points and the blinding accumulator folded with the
/// squared challenges, the tracked value moves by the challenge-squared
/// combination of the blinded cross points.
pub proof fn lemma_round_invariant_hiding(
    g: Seq<nat>,
    a: Seq<nat>,
    b: Seq<nat>,
    u: nat,
    x: nat,
    xi: nat,
    bb: nat,
    rl: nat,
    rr: nat,
    blind: nat,
)
    requires
        g.len() == a.len(),
        g.len() == b.len(),
        g.len() % 2 == 0,
        g.len() >= 2,
        fmul(x, xi) == 1,
    ensures
        fadd(
            vcomb(fold_with(g, xi, x), fold_with(a, x, xi), fold_with(b, xi, x), u),
            fmul(bb, fadd(fmul(fmul(x, x), rl), fadd(blind, fmul(fmul(xi, xi), rr)))),
        ) == fadd(
            fadd(vcomb(g, a, b, u), fmul(bb, blind)),
            fadd(
                fmul(fmul(x, x), fadd(l_index(g, a, b, u), fmul(bb, rl))),
                fmul(fmul(xi, xi), fadd(r_index(g, a, b, u), fmul(bb, rr))),
            ),
        ),
{
    let q = crate::algebra::group_order();
    let x2 = fmul(x, x);
    let xi2 = fmul(xi, xi);
    let vv = vcomb(g, a, b, u);
    let ll = l_index(g, a, b, u);
    let rrx = r_index(g, a, b, u);
    let t1 = fmul(x2, ll);
    let t2 = fmul(xi2, rrx);
    let s1 = fmul(bb, fmul(x2, rl));
    let s2 = fmul(bb, blind);
    let s3 = fmul(bb, fmul(xi2, rr));
    lemma_round_invariant(g, a, b, u, x, xi);
    // left side: V' + bb * (x^2 rl + (blind + xi^2 rr))
    assert(fmul(bb, fadd(fmul(x2, rl), fadd(blind, fmul(xi2, rr)))) == fadd(
        s1,
        fadd(s2, s3),
    )) by {
        lemma_fmul_distrib(bb, fmul(x2, rl), fadd(blind, fmul(xi2, rr)));
        lemma_fmul_distrib(bb, blind, fmul(xi2, rr));
    }
    crate::algebra::lemma_fadd_flat3(vv, t1, t2);
    crate::algebra::lemma_fadd_flat3(s1, s2, s3);
    crate::algebra::lemma_fadd_join((vv + t1 + t2) as nat, (s1 + s2 + s3) as nat);
    // right side: (V + bb blind) + (x^2 (L + bb rl) + xi^2 (R + bb rr))
    assert(fmul(x2, fadd(ll, fmul(bb, rl))) == fadd(t1, s1)) by {
        lemma_fmul_distrib(x2, ll, fmul(bb, rl));
        crate::algebra::lemma_fmul_swap(bb, x2, rl);
    }
    assert(fmul(xi2, fadd(rrx, fmul(bb, rr))) == fadd(t2, s3)) by {
        lemma_fmul_distrib(xi2, rrx, fmul(bb, rr));
        crate::algebra::lemma_fmul_swap(bb, xi2, rr);
    }
    crate::algebra::lemma_fadd_flat4(t1, s1, t2, s3);
    crate::algebra::lemma_fadd_join((vv + s2) as nat, (t1 + s1 + t2 + s3) as nat);
    assert(fadd(vv, s2) == (vv + s2) % q);
}

} // verus!
