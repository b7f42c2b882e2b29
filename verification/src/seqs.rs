//! Sequence-level algebra: pointwise sums and scalings of scalar vectors,
//! inner products, power vectors, and the tensor expansion that turns a list
//! of round challenges into the equivalent length-n coefficient vector.
use vstd::prelude::*;

verus! {

use crate::algebra::{
    fadd,
    fmul,
    fpow,
    group_order,
    lemma_fadd_assoc,
    lemma_fadd_comm,
    lemma_fadd_red,
    lemma_fadd_zero,
    lemma_fmul_assoc,
    lemma_fmul_comm,
    lemma_fmul_distrib,
    lemma_fmul_one,
    lemma_fmul_red,
    red,
};
use vstd::arithmetic::power2::pow2;

/// Every entry of the sequence is in reduced form.
pub open spec fn all_red(v: Seq<nat>) -> bool {
    forall|i: int| 0 <= i < v.len() ==> red(#[trigger] v[i])
}

/// Pointwise sum modulo the group order.
pub open spec fn seq_fadd(a: Seq<nat>, b: Seq<nat>) -> Seq<nat> {
    Seq::new(a.len(), |i: int| fadd(a[i], b[i]))
}

/// Pointwise scaling modulo the group order.
pub open spec fn seq_scale(c: nat, a: Seq<nat>) -> Seq<nat> {
    Seq::new(a.len(), |i: int| fmul(c, a[i]))
}

/// Inner product modulo the group order.
pub open spec fn dot(a: Seq<nat>, b: Seq<nat>) -> nat
    decreases a.len(),
{
    if a.len() == 0 {
        0
    } else {
        fadd(fmul(a[0], b[0]), dot(a.skip(1), b.skip(1)))
    }
}

/// The vector `[1, x, x^2, ..., x^(n-1)]` of powers of `x`.
pub open spec fn powers_of(x: nat, n: nat) -> Seq<nat> {
    Seq::new(n, |i: int| fpow(x, i as nat))
}

pub proof fn lemma_dot_red(a: Seq<nat>, b: Seq<nat>)
    ensures
        red(dot(a, b)),
    decreases a.len(),
{
    if a.len() == 0 {
    } else {
        lemma_fadd_red(fmul(a[0], b[0]), dot(a.skip(1), b.skip(1)));
    }
}

pub proof fn lemma_seq_fadd_red(a: Seq<nat>, b: Seq<nat>)
    ensures
        all_red(seq_fadd(a, b)),
{
    assert forall|i: int| 0 <= i < a.len() implies red(#[trigger] seq_fadd(a, b)[i]) by {
        lemma_fadd_red(a[i], b[i]);
    }
}

pub proof fn lemma_seq_scale_red(c: nat, a: Seq<nat>)
    ensures
        all_red(seq_scale(c, a)),
{
    assert forall|i: int| 0 <= i < a.len() implies red(#[trigger] seq_scale(c, a)[i]) by {
        lemma_fmul_red(c, a[i]);
    }
}

/// The inner product is symmetric.
pub proof fn lemma_dot_comm(a: Seq<nat>, b: Seq<nat>)
    requires
        a.len() == b.len(),
    ensures
        dot(a, b) == dot(b, a),
    decreases a.len(),
{
    if a.len() > 0 {
        lemma_fmul_comm(a[0], b[0]);
        lemma_dot_comm(a.skip(1), b.skip(1));
    }
}

/// Scaling the left vector scales the inner product.
pub proof fn lemma_dot_scale(c: nat, a: Seq<nat>, b: Seq<nat>)
    requires
        a.len() == b.len(),
    ensures
        dot(seq_scale(c, a), b) == fmul(c, dot(a, b)),
    decreases a.len(),
{
    if a.len() == 0 {
        crate::algebra::lemma_fmul_zero(c);
    } else {
        let sa = seq_scale(c, a);
        assert(sa.skip(1) =~= seq_scale(c, a.skip(1)));
        lemma_dot_scale(c, a.skip(1), b.skip(1));
        // fadd(fmul(fmul(c, a0), b0), fmul(c, d)) == fmul(c, fadd(fmul(a0, b0), d))
        lemma_fmul_assoc(c, a[0], b[0]);
        lemma_fmul_distrib(c, fmul(a[0], b[0]), dot(a.skip(1), b.skip(1)));
    }
}

/// Scaling the right vector scales the inner product.
pub proof fn lemma_dot_scale_right(c: nat, a: Seq<nat>, b: Seq<nat>)
    requires
        a.len() == b.len(),
    ensures
        dot(a, seq_scale(c, b)) == fmul(c, dot(a, b)),
{
    lemma_dot_comm(a, seq_scale(c, b));
    lemma_dot_scale(c, b, a);
    lemma_dot_comm(a, b);
}

/// Exchange the middle terms of a double sum.
pub proof fn lemma_fadd_exchange(a: nat, b: nat, c: nat, d: nat)
    ensures
        fadd(fadd(a, b), fadd(c, d)) == fadd(fadd(a, c), fadd(b, d)),
{
    lemma_fadd_assoc(fadd(a, b), c, d);
    lemma_fadd_assoc(a, b, c);
    lemma_fadd_comm(b, c);
    lemma_fadd_assoc(a, c, b);
    lemma_fadd_assoc(fadd(a, c), b, d);
}

/// The inner product distributes over pointwise sums on the left.
pub proof fn lemma_dot_add(a1: Seq<nat>, a2: Seq<nat>, b: Seq<nat>)
    requires
        a1.len() == b.len(),
        a2.len() == b.len(),
    ensures
        dot(seq_fadd(a1, a2), b) == fadd(dot(a1, b), dot(a2, b)),
    decreases a1.len(),
{
    if a1.len() == 0 {
        assert(dot(seq_fadd(a1, a2), b) == 0);
        assert(fadd(0, 0) == 0) by {
            lemma_fadd_zero(0);
        }
    } else {
        let s = seq_fadd(a1, a2);
        assert(s.skip(1) =~= seq_fadd(a1.skip(1), a2.skip(1)));
        assert(s[0] == fadd(a1[0], a2[0]));
        assert(dot(s, b) == fadd(fmul(s[0], b[0]), dot(s.skip(1), b.skip(1))));
        lemma_dot_add(a1.skip(1), a2.skip(1), b.skip(1));
        // head: fmul(fadd(x, y), b0) == fadd(fmul(x, b0), fmul(y, b0))
        lemma_fmul_comm(fadd(a1[0], a2[0]), b[0]);
        lemma_fmul_distrib(b[0], a1[0], a2[0]);
        lemma_fmul_comm(b[0], a1[0]);
        lemma_fmul_comm(b[0], a2[0]);
        assert(fmul(s[0], b[0]) == fadd(fmul(a1[0], b[0]), fmul(a2[0], b[0])));
        lemma_fadd_exchange(
            fmul(a1[0], b[0]),
            fmul(a2[0], b[0]),
            dot(a1.skip(1), b.skip(1)),
            dot(a2.skip(1), b.skip(1)),
        );
    }
}

/// The inner product distributes over pointwise sums on the right.
pub proof fn lemma_dot_add_right(a: Seq<nat>, b1: Seq<nat>, b2: Seq<nat>)
    requires
        b1.len() == a.len(),
        b2.len() == a.len(),
    ensures
        dot(a, seq_fadd(b1, b2)) == fadd(dot(a, b1), dot(a, b2)),
{
    lemma_dot_comm(a, seq_fadd(b1, b2));
    lemma_dot_add(b1, b2, a);
    lemma_dot_comm(a, b1);
    lemma_dot_comm(a, b2);
}

/// An inner product of concatenations is the sum of the inner products.
pub proof fn lemma_dot_concat(a1: Seq<nat>, b1: Seq<nat>, a2: Seq<nat>, b2: Seq<nat>)
    requires
        a1.len() == b1.len(),
        a2.len() == b2.len(),
    ensures
        dot(a1 + a2, b1 + b2) == fadd(dot(a1, b1), dot(a2, b2)),
    decreases a1.len(),
{
    if a1.len() == 0 {
        assert(a1 + a2 =~= a2);
        assert(b1 + b2 =~= b2);
        lemma_dot_red(a2, b2);
        lemma_fadd_zero(dot(a2, b2));
    } else {
        assert((a1 + a2).skip(1) =~= a1.skip(1) + a2);
        assert((b1 + b2).skip(1) =~= b1.skip(1) + b2);
        lemma_dot_concat(a1.skip(1), b1.skip(1), a2, b2);
        lemma_fadd_assoc(
            fmul(a1[0], b1[0]),
            dot(a1.skip(1), b1.skip(1)),
            dot(a2, b2),
        );
    }
}

pub proof fn lemma_powers_red(x: nat, n: nat)
    ensures
        all_red(powers_of(x, n)),
{
    assert forall|i: int| 0 <= i < n implies red(#[trigger] powers_of(x, n)[i]) by {
        crate::algebra::lemma_fpow_red(x, i as nat);
    }
}

/// A power vector of even length is the first half followed by the first
/// half scaled by `x^m`.
pub proof fn lemma_powers_split(x: nat, m: nat)
    ensures
        powers_of(x, 2 * m) == powers_of(x, m) + seq_scale(fpow(x, m), powers_of(x, m)),
{
    let lhs = powers_of(x, 2 * m);
    let rhs = powers_of(x, m) + seq_scale(fpow(x, m), powers_of(x, m));
    assert forall|i: int| 0 <= i < 2 * m implies lhs[i] == rhs[i] by {
        if i >= m {
            crate::algebra::lemma_fpow_add(x, m, (i - m) as nat);
            assert(rhs[i] == fmul(fpow(x, m), fpow(x, (i - m) as nat)));
        }
    }
    assert(lhs =~= rhs);
}

/// The entries at even positions.
pub open spec fn even_entries(v: Seq<nat>) -> Seq<nat> {
    Seq::new(v.len() / 2, |t: int| v[2 * t])
}

/// The entries at odd positions.
pub open spec fn odd_entries(v: Seq<nat>) -> Seq<nat> {
    Seq::new(v.len() / 2, |t: int| v[2 * t + 1])
}

/// Splitting a power-sum by the parity of the exponent: the even positions
/// see the squared base, and the odd positions see it once more through one
/// leading factor.
#[verifier::rlimit(100)]
pub proof fn lemma_dot_interleave(v: Seq<nat>, x: nat)
    requires
        v.len() % 2 == 0,
        all_red(v),
    ensures
        dot(v, powers_of(x, v.len())) == fadd(
            dot(even_entries(v), powers_of(fmul(x, x), (v.len() / 2) as nat)),
            fmul(x, dot(odd_entries(v), powers_of(fmul(x, x), (v.len() / 2) as nat))),
        ),
    decreases v.len(),
{
    let n = v.len();
    let m = (n / 2) as nat;
    let x2 = fmul(x, x);
    if n == 0 {
        crate::algebra::lemma_fmul_zero(x);
        assert(fadd(0, 0) == 0) by {
            lemma_fadd_zero(0);
        }
    } else {
        let v2 = v.skip(2);
        assert(all_red(v2));
        assert(v2.len() % 2 == 0);
        lemma_dot_interleave(v2, x);
        let ep = dot(even_entries(v2), powers_of(x2, (m - 1) as nat));
        let op = dot(odd_entries(v2), powers_of(x2, (m - 1) as nat));
        assert(even_entries(v2) =~= even_entries(v).skip(1));
        assert(odd_entries(v2) =~= odd_entries(v).skip(1));
        // unfold the left side twice, pulling one factor of x out each time
        assert(powers_of(x, n as nat).skip(1) =~= seq_scale(x, powers_of(x, (n - 1) as nat)));
        assert(powers_of(x, (n - 1) as nat).skip(1) =~= seq_scale(
            x,
            powers_of(x, (n - 2) as nat),
        ));
        lemma_dot_scale_right(x, v.skip(1), powers_of(x, (n - 1) as nat));
        lemma_dot_scale_right(x, v.skip(2), powers_of(x, (n - 2) as nat));
        assert(v.skip(1).skip(1) =~= v.skip(2));
        crate::algebra::lemma_fmul_one(v[0]);
        crate::algebra::lemma_fmul_one(v[1]);
        assert(v.skip(1)[0] == v[1]);
        assert(dot(v, powers_of(x, n as nat)) == fadd(
            v[0],
            fmul(x, fadd(v[1], fmul(x, fadd(ep, fmul(x, op))))),
        ));
        // unfold the right side once on each half
        assert(powers_of(x2, m).skip(1) =~= seq_scale(x2, powers_of(x2, (m - 1) as nat)));
        lemma_dot_scale_right(x2, even_entries(v).skip(1), powers_of(x2, (m - 1) as nat));
        lemma_dot_scale_right(x2, odd_entries(v).skip(1), powers_of(x2, (m - 1) as nat));
        assert(even_entries(v)[0] == v[0] && odd_entries(v)[0] == v[1]);
        assert(dot(even_entries(v), powers_of(x2, m)) == fadd(v[0], fmul(x2, ep)));
        assert(dot(odd_entries(v), powers_of(x2, m)) == fadd(v[1], fmul(x2, op)));
        // both sides flatten to v0 + x*v1 + x^2*ep + x^3*op
        let t1 = fmul(x, v[1]);
        let t2 = fmul(x2, ep);
        let t3 = fmul(x, fmul(x2, op));
        assert(fmul(x, fmul(x, ep)) == t2) by {
            crate::algebra::lemma_fmul_assoc(x, x, ep);
        }
        assert(fmul(x, fmul(x, fmul(x, op))) == t3) by {
            crate::algebra::lemma_fmul_assoc(x, x, op);
            crate::algebra::lemma_fmul_swap(x2, x, op);
        }
        assert(fmul(x, fadd(v[1], fmul(x, fadd(ep, fmul(x, op))))) == fadd(t1, fadd(t2, t3)))
            by {
            lemma_fmul_distrib(x, ep, fmul(x, op));
            lemma_fmul_distrib(x, v[1], fadd(fmul(x, ep), fmul(x, fmul(x, op))));
            lemma_fmul_distrib(x, fmul(x, ep), fmul(x, fmul(x, op)));
        }
        assert(fmul(x, fadd(v[1], fmul(x2, op))) == fadd(t1, t3)) by {
            lemma_fmul_distrib(x, v[1], fmul(x2, op));
        }
        // flatten both sides and compare
        crate::algebra::lemma_fadd_flat3(t1, t2, t3);
        crate::algebra::lemma_fadd_mod(v[0] as nat, (t1 + t2 + t3) as nat);
        crate::algebra::lemma_fadd_mod(v[0] as nat, t2 as nat);
        crate::algebra::lemma_fadd_join((v[0] + t2) as nat, (t1 + t3) as nat);
        assert(fadd(v[0], fadd(t1, fadd(t2, t3))) == (v[0] + t1 + t2 + t3) % group_order());
        assert(fadd(fadd(v[0], t2), fadd(t1, t3)) == (v[0] + t2 + (t1 + t3)) % group_order());
    }
}

/// An inner product against an all-zero vector vanishes.
pub proof fn lemma_dot_zero(a: Seq<nat>, b: Seq<nat>)
    requires
        a.len() == b.len(),
        forall|i: int| 0 <= i < b.len() ==> b[i] == 0,
    ensures
        dot(a, b) == 0,
    decreases a.len(),
{
    if a.len() == 0 {
    } else {
        lemma_dot_zero(a.skip(1), b.skip(1));
        crate::algebra::lemma_fmul_zero(a[0]);
        assert(fadd(0, 0) == 0) by {
            lemma_fadd_zero(0);
        }
    }
}

/// The pointwise sum is symmetric.
pub proof fn lemma_seq_fadd_comm(a: Seq<nat>, b: Seq<nat>)
    requires
        a.len() == b.len(),
    ensures
        seq_fadd(a, b) == seq_fadd(b, a),
{
    assert forall|i: int| 0 <= i < a.len() implies seq_fadd(a, b)[i] == seq_fadd(b, a)[i] by {
        lemma_fadd_comm(a[i], b[i]);
    }
    assert(seq_fadd(a, b) =~= seq_fadd(b, a));
}

/// Appending one entry to each vector adds one product term.
pub proof fn lemma_dot_snoc(a: Seq<nat>, b: Seq<nat>, x: nat, y: nat)
    requires
        a.len() == b.len(),
    ensures
        dot(a.push(x), b.push(y)) == fadd(dot(a, b), fmul(x, y)),
{
    assert(a.push(x) =~= a + seq![x]);
    assert(b.push(y) =~= b + seq![y]);
    lemma_dot_concat(a, b, seq![x], seq![y]);
    assert(seq![x].skip(1).len() == 0);
    assert(dot(seq![x].skip(1), seq![y].skip(1)) == 0);
    assert(seq![x][0] == x && seq![y][0] == y);
    assert(dot(seq![x], seq![y]) == fadd(fmul(x, y), 0));
    lemma_fmul_red(x, y);
    lemma_fadd_zero(fmul(x, y));
}

/// Splitting both vectors at the same index splits the inner product.
pub proof fn lemma_dot_split(a: Seq<nat>, b: Seq<nat>, m: int)
    requires
        a.len() == b.len(),
        0 <= m <= a.len(),
    ensures
        dot(a, b) == fadd(dot(a.take(m), b.take(m)), dot(a.skip(m), b.skip(m))),
{
    assert(a =~= a.take(m) + a.skip(m));
    assert(b =~= b.take(m) + b.skip(m));
    lemma_dot_concat(a.take(m), b.take(m), a.skip(m), b.skip(m));
}

} // verus!
