//! The mathematical model of the scheme: arithmetic in the scalar field of
//! the Pallas curve, viewed as the integers modulo the (prime) group order,
//! together with the sequence operations (pointwise sums, scalings, inner
//! products, powers and tensor expansions) that the protocol algebra uses.
use vstd::prelude::*;

verus! {

use vstd::arithmetic::div_mod::{
    lemma_add_mod_noop,
    lemma_mod_bound,
    lemma_mod_twice,
    lemma_mul_mod_noop_general,
    lemma_small_mod,
};
use vstd::arithmetic::mul::{
    lemma_mul_is_associative,
    lemma_mul_is_commutative,
    lemma_mul_is_distributive_add,
};

/// Order of the Pallas group, which is also the modulus of its scalar field.
pub open spec fn group_order() -> nat {
    0x40000000000000000000000000000000224698fc0994a8dd8c46eb2100000001nat
}

/// A value in canonical (reduced) form.
pub open spec fn red(a: nat) -> bool {
    a < group_order()
}

/// Addition modulo the group order.
pub open spec fn fadd(a: nat, b: nat) -> nat {
    (a + b) % group_order()
}

/// Multiplication modulo the group order.
pub open spec fn fmul(a: nat, b: nat) -> nat {
    (a * b) % group_order()
}

/// Negation modulo the group order.
pub open spec fn fneg(a: nat) -> nat {
    (((group_order() - a % group_order()) % group_order() as int)) as nat
}

/// The multiplicative inverse modulo the group order, where one exists.
pub open spec fn finv(a: nat) -> nat {
    choose|b: nat| red(b) && fmul(a, b) == 1
}

/// Exponentiation modulo the group order.
pub open spec fn fpow(x: nat, k: nat) -> nat
    decreases k,
{
    if k == 0 {
        1
    } else {
        fmul(x, fpow(x, (k - 1) as nat))
    }
}

/// Value of a little-endian byte string.
pub open spec fn le_val(s: Seq<u8>) -> nat
    decreases s.len(),
{
    if s.len() == 0 {
        0
    } else {
        (s[0] + 256 * le_val(s.skip(1))) as nat
    }
}

pub proof fn lemma_fadd_red(a: nat, b: nat)
    ensures
        red(fadd(a, b)),
{
    lemma_mod_bound((a + b) as int, group_order() as int);
}

pub proof fn lemma_fmul_red(a: nat, b: nat)
    ensures
        red(fmul(a, b)),
{
    lemma_mod_bound((a * b) as int, group_order() as int);
}

/// Reducing either argument of `fadd` changes nothing.
pub proof fn lemma_fadd_mod(a: nat, b: nat)
    ensures
        fadd(a % group_order(), b) == fadd(a, b),
        fadd(a, b % group_order()) == fadd(a, b),
{
    let q = group_order() as int;
    lemma_add_mod_noop(a as int, b as int, q);
    lemma_mod_twice(a as int, q);
    lemma_mod_twice(b as int, q);
    lemma_add_mod_noop(a as int % q, b as int, q);
    lemma_add_mod_noop(a as int, b as int % q, q);
}

/// Reducing either argument of `fmul` changes nothing.
pub proof fn lemma_fmul_mod(a: nat, b: nat)
    ensures
        fmul(a % group_order(), b) == fmul(a, b),
        fmul(a, b % group_order()) == fmul(a, b),
{
    let q = group_order() as int;
    lemma_mul_mod_noop_general(a as int, b as int, q);
    lemma_mod_twice(a as int, q);
    lemma_mod_twice(b as int, q);
    lemma_mul_mod_noop_general(a as int % q, b as int, q);
    lemma_mul_mod_noop_general(a as int, b as int % q, q);
}

pub proof fn lemma_small_red(a: nat)
    requires
        red(a),
    ensures
        a % group_order() == a,
{
    lemma_small_mod(a, group_order());
}

pub proof fn lemma_fadd_comm(a: nat, b: nat)
    ensures
        fadd(a, b) == fadd(b, a),
{
}

pub proof fn lemma_fmul_comm(a: nat, b: nat)
    ensures
        fmul(a, b) == fmul(b, a),
{
    lemma_mul_is_commutative(a as int, b as int);
}

pub proof fn lemma_fadd_assoc(a: nat, b: nat, c: nat)
    ensures
        fadd(fadd(a, b), c) == fadd(a, fadd(b, c)),
{
    lemma_fadd_mod((a + b) as nat, c);
    lemma_fadd_mod(a, (b + c) as nat);
}

pub proof fn lemma_fmul_assoc(a: nat, b: nat, c: nat)
    ensures
        fmul(fmul(a, b), c) == fmul(a, fmul(b, c)),
{
    lemma_fmul_mod((a * b) as nat, c);
    lemma_fmul_mod(a, (b * c) as nat);
    lemma_mul_is_associative(a as int, b as int, c as int);
}

pub proof fn lemma_fmul_distrib(x: nat, a: nat, b: nat)
    ensures
        fmul(x, fadd(a, b)) == fadd(fmul(x, a), fmul(x, b)),
{
    let q = group_order() as int;
    lemma_fmul_mod(x, (a + b) as nat);
    lemma_mul_is_distributive_add(x as int, a as int, b as int);
    lemma_add_mod_noop((x * a) as int, (x * b) as int, q);
}

pub proof fn lemma_fadd_zero(a: nat)
    requires
        red(a),
    ensures
        fadd(a, 0) == a,
        fadd(0, a) == a,
{
    lemma_small_red(a);
}

pub proof fn lemma_fmul_zero(a: nat)
    ensures
        fmul(a, 0) == 0,
        fmul(0, a) == 0,
{
    lemma_small_mod(0, group_order());
}

pub proof fn lemma_fmul_one(a: nat)
    requires
        red(a),
    ensures
        fmul(1, a) == a,
        fmul(a, 1) == a,
{
    lemma_small_red(a);
}

pub proof fn lemma_fpow_red(x: nat, k: nat)
    ensures
        red(fpow(x, k)),
{
    if k == 0 {
    } else {
        lemma_fmul_red(x, fpow(x, (k - 1) as nat));
    }
}

/// Exponents add: `x^(a+b) == x^a * x^b`.
pub proof fn lemma_fpow_add(x: nat, a: nat, b: nat)
    ensures
        fpow(x, a + b) == fmul(fpow(x, a), fpow(x, b)),
    decreases a,
{
    if a == 0 {
        lemma_fpow_red(x, b);
        lemma_fmul_one(fpow(x, b));
    } else {
        lemma_fpow_add(x, (a - 1) as nat, b);
        lemma_fmul_assoc(x, fpow(x, (a - 1) as nat), fpow(x, b));
        assert(a + b - 1 == (a - 1) + b);
    }
}

/// Squaring the base halves the exponent: `(w*w)^t == w^(2t)`.
pub proof fn lemma_fpow_square(w: nat, t: nat)
    ensures
        fpow(fmul(w, w), t) == fpow(w, 2 * t),
    decreases t,
{
    if t == 0 {
    } else {
        lemma_fpow_square(w, (t - 1) as nat);
        assert(fpow(w, 2 * t) == fmul(w, fpow(w, (2 * t - 1) as nat)));
        assert(fpow(w, (2 * t - 1) as nat) == fmul(w, fpow(w, (2 * t - 2) as nat)));
        lemma_fmul_assoc(w, w, fpow(w, (2 * t - 2) as nat));
        lemma_fmul_mod((w * w) as nat, fpow(w, (2 * t - 2) as nat));
        assert(2 * t - 2 == 2 * (t - 1));
    }
}

/// Multiplying by minus one negates.
pub proof fn lemma_fneg_one_mul(y: nat)
    ensures
        fmul(fneg(1), y) == fneg(y),
{
    let q = group_order() as int;
    lemma_small_mod(1, group_order());
    lemma_small_mod((group_order() - 1) as nat, group_order());
    assert(fneg(1) == group_order() - 1);
    // (q-1)*y == q*y - y, and both sides reduce to (-y) mod q
    assert(((group_order() - 1) as nat * y) as int == q * y as int - y as int) by {
        vstd::arithmetic::mul::lemma_mul_is_distributive_sub_other_way(y as int, q, 1);
    }
    vstd::arithmetic::div_mod::lemma_mod_multiples_vanish(y as int, -(y as int), q);
    assert(fmul(fneg(1), y) == (-(y as int)) % q);
    // fneg(y) == (q - y % q) % q == (-y) % q
    let r = y as int % q;
    lemma_mod_bound(y as int, q);
    vstd::arithmetic::div_mod::lemma_fundamental_div_mod(y as int, q);
    vstd::arithmetic::div_mod::lemma_mod_multiples_vanish(-(y as int / q), -r, q);
    assert((-(y as int)) % q == (-r) % q);
    vstd::arithmetic::div_mod::lemma_mod_multiples_vanish(1, -r, q);
    assert((q - r) % q == (-r) % q);
}

/// Negation moves through a product.
pub proof fn lemma_fmul_fneg(a: nat, b: nat)
    ensures
        fmul(a, fneg(b)) == fneg(fmul(a, b)),
{
    lemma_fneg_one_mul(b);
    lemma_fneg_one_mul(fmul(a, b));
    lemma_fmul_swap(fneg(1), a, b);
    assert(fmul(a, fmul(fneg(1), b)) == fmul(fneg(1), fmul(a, b)));
}

/// An inverse modulo a given modulus is unique among reduced values, so any
/// witness produced at run time pins down `finv`.
pub proof fn lemma_finv_unique(a: nat, b: nat)
    requires
        red(b),
        fmul(a, b) == 1,
    ensures
        finv(a) == b,
        red(finv(a)),
        fmul(a, finv(a)) == 1,
{
    assert(red(b) && fmul(a, b) == 1);
    let c = finv(a);
    assert(red(c) && fmul(a, c) == 1);
    // b == b * (a * c) == (b * a) * c == c (mod q), and both are reduced.
    lemma_fmul_one(b);
    lemma_fmul_mod(b, (a * c) as nat);
    lemma_fmul_assoc(b, a, c);
    lemma_fmul_comm(b, a);
    lemma_fmul_mod((a * b) as nat, c);
    lemma_fmul_one(c);
    assert(b == fmul(b, fmul(a, c)));
    assert(fmul(b, fmul(a, c)) == fmul(fmul(b, a), c));
    assert(fmul(fmul(a, b), c) == c);
}

/// Flatten a balanced four-term sum to a single reduction.
pub proof fn lemma_fadd_flat4(a: nat, b: nat, c: nat, d: nat)
    ensures
        fadd(fadd(a, b), fadd(c, d)) == (a + b + c + d) % group_order(),
{
    lemma_fadd_mod((a + b) as nat, fadd(c, d));
    lemma_fadd_mod((a + b) as nat, (c + d) as nat);
}

/// Flatten a three-term sum to a single reduction.
pub proof fn lemma_fadd_flat3(a: nat, b: nat, c: nat)
    ensures
        fadd(a, fadd(b, c)) == (a + b + c) % group_order(),
        fadd(fadd(a, b), c) == (a + b + c) % group_order(),
{
    lemma_fadd_mod(a, (b + c) as nat);
    lemma_fadd_mod((a + b) as nat, c);
}

/// Join two reduced sums into one.
pub proof fn lemma_fadd_join(p: nat, s: nat)
    ensures
        fadd(p % group_order(), s % group_order()) == (p + s) % group_order(),
{
    lemma_fadd_mod(p, s % group_order());
    lemma_fadd_mod(p, s);
}

/// Pull a factor past another inside a nested product.
pub proof fn lemma_fmul_swap(u: nat, c: nat, d: nat)
    ensures
        fmul(c, fmul(u, d)) == fmul(u, fmul(c, d)),
{
    lemma_fmul_assoc(c, u, d);
    lemma_fmul_comm(c, u);
    lemma_fmul_assoc(u, c, d);
}

/// Multiplying by a product that reduces to one is the identity.
pub proof fn lemma_fmul_cancel(x: nat, xi: nat, d: nat)
    requires
        fmul(x, xi) == 1,
        red(d),
    ensures
        fmul(x, fmul(xi, d)) == d,
        fmul(xi, fmul(x, d)) == d,
{
    lemma_fmul_assoc(x, xi, d);
    lemma_fmul_mod((x * xi) as nat, d);
    lemma_fmul_one(d);
    lemma_fmul_assoc(xi, x, d);
    lemma_fmul_comm(xi, x);
    lemma_fmul_mod((xi * x) as nat, d);
}

/// Cancelling a common left summand: with both right summands reduced, the
/// sums agree exactly when the summands do.
pub proof fn lemma_fadd_cancel(c: nat, a: nat, b: nat)
    requires
        red(a),
        red(b),
    ensures
        (fadd(c, a) == fadd(c, b)) <==> (a == b),
{
    let q = group_order() as int;
    vstd::arithmetic::div_mod::lemma_mod_equivalence((c + a) as int, (c + b) as int, q);
    vstd::arithmetic::div_mod::lemma_mod_equivalence(a as int, b as int, q);
    lemma_small_red(a);
    lemma_small_red(b);
}

/// Adding the negation of a reduced value gives zero exactly on equality.
pub proof fn lemma_fadd_fneg_zero(x: nat, y: nat)
    requires
        red(x),
        red(y),
    ensures
        (fadd(x, fneg(y)) == 0) <==> (x == y),
{
    let q = group_order() as int;
    lemma_small_red(y);
    // x + fneg(y) and x - y agree modulo the order
    lemma_fadd_mod(x, (group_order() - y) as nat);
    vstd::arithmetic::div_mod::lemma_mod_multiples_vanish(1, x as int - y as int, q);
    assert(fadd(x, fneg(y)) == (x as int - y as int) % q);
    vstd::arithmetic::div_mod::lemma_mod_equivalence(x as int, y as int, q);
    lemma_small_red(x);
}

/// A product agrees for two reduced right factors exactly when the product
/// with their difference vanishes.
pub proof fn lemma_mul_diff_zero(u: nat, e: nat, t: nat)
    requires
        red(e),
        red(t),
    ensures
        (fmul(u, e) == fmul(u, t)) <==> (fmul(u, fadd(e, fneg(t))) == 0),
{
    lemma_fmul_distrib(u, e, fneg(t));
    lemma_fmul_fneg(u, t);
    lemma_fmul_red(u, e);
    lemma_fmul_red(u, t);
    lemma_fadd_fneg_zero(fmul(u, e), fmul(u, t));
}

/// The little-endian byte string of the given length holding the value.
pub open spec fn le_bytes(v: nat, len: nat) -> Seq<u8>
    decreases len,
{
    if len == 0 {
        Seq::empty()
    } else {
        seq![(v % 256) as u8] + le_bytes(v / 256, (len - 1) as nat)
    }
}

/// A byte string's value is below two to the eight times its length.
pub proof fn lemma_le_val_bound(s: Seq<u8>)
    ensures
        le_val(s) < vstd::arithmetic::power2::pow2(8 * s.len()),
    decreases s.len(),
{
    vstd::arithmetic::power2::lemma2_to64();
    if s.len() == 0 {
    } else {
        lemma_le_val_bound(s.skip(1));
        let m = vstd::arithmetic::power2::pow2(8 * (s.len() - 1) as nat);
        assert(vstd::arithmetic::power2::pow2(8 * s.len()) == 256 * m) by {
            vstd::arithmetic::power2::lemma_pow2_adds(8, 8 * (s.len() - 1) as nat);
        }
        assert(s[0] + 256 * le_val(s.skip(1)) < 256 * m) by (nonlinear_arith)
            requires
                s[0] < 256,
                le_val(s.skip(1)) < m,
        ;
    }
}

/// Reading the little-endian bytes of a value in range gives it back.
pub proof fn lemma_le_bytes_val(v: nat, len: nat)
    requires
        v < vstd::arithmetic::power2::pow2(8 * len),
    ensures
        le_bytes(v, len).len() == len,
        le_val(le_bytes(v, len)) == v,
    decreases len,
{
    vstd::arithmetic::power2::lemma2_to64();
    if len == 0 {
    } else {
        let m = vstd::arithmetic::power2::pow2(8 * (len - 1) as nat);
        assert(vstd::arithmetic::power2::pow2(8 * len) == 256 * m) by {
            vstd::arithmetic::power2::lemma_pow2_adds(8, 8 * (len - 1) as nat);
        }
        vstd::arithmetic::div_mod::lemma_fundamental_div_mod(v as int, 256);
        assert(v / 256 < m) by {
            if v / 256 >= m {
                vstd::arithmetic::mul::lemma_mul_inequality(m as int, (v / 256) as int, 256);
                vstd::arithmetic::mul::lemma_mul_is_commutative(m as int, 256);
            }
        }
        lemma_le_bytes_val(v / 256, (len - 1) as nat);
        let s = le_bytes(v, len);
        assert(s.skip(1) =~= le_bytes(v / 256, (len - 1) as nat));
        assert(s[0] == (v % 256) as u8);
        vstd::arithmetic::div_mod::lemma_mod_bound(v as int, 256);
    }
}

/// A byte string is the little-endian encoding of its own value at its own
/// length.
pub proof fn lemma_le_bytes_of(s: Seq<u8>)
    ensures
        s == le_bytes(le_val(s), s.len()),
    decreases s.len(),
{
    lemma_le_val_bound(s);
    lemma_le_bytes_val(le_val(s), s.len());
    lemma_le_val_injective(s, le_bytes(le_val(s), s.len()));
}

/// Two byte strings of equal length with the same little-endian value are equal.
pub proof fn lemma_le_val_injective(a: Seq<u8>, b: Seq<u8>)
    requires
        a.len() == b.len(),
        le_val(a) == le_val(b),
    ensures
        a == b,
    decreases a.len(),
{
    if a.len() == 0 {
        assert(a =~= b);
    } else {
        assert(a[0] + 256 * le_val(a.skip(1)) == b[0] + 256 * le_val(b.skip(1)));
        assert(a[0] == b[0] && le_val(a.skip(1)) == le_val(b.skip(1))) by {
            let d = le_val(a.skip(1)) as int - le_val(b.skip(1)) as int;
            assert(b[0] - a[0] == 256 * d);
            assert(-256 < b[0] - a[0] < 256);
            assert(d == 0) by (nonlinear_arith)
                requires
                    -256 < 256 * d < 256,
            ;
        }
        lemma_le_val_injective(a.skip(1), b.skip(1));
        assert(a =~= b) by {
            assert(forall|i: int| 1 <= i < a.len() ==> a[i] == a.skip(1)[i - 1] && b[i] == b.skip(1)[i - 1]);
        }
    }
}

} // verus!
