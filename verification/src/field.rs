//! Scalars of the Pallas scalar field, held as their canonical 32-byte
//! little-endian encodings. The arithmetic itself is done by the `ark_ff`
//! field implementation behind trusted wrappers; everything this crate
//! states about a scalar is stated about its canonical value.
use ark_ff::Field;
use ark_serialize::{CanonicalDeserialize, CanonicalSerialize};
use vstd::prelude::*;

verus! {

use crate::algebra::{
    fadd,
    fmul,
    fneg,
    group_order,
    le_val,
    lemma_le_val_injective,
    red,
};

/// A scalar field element in canonical little-endian form.
pub struct Scalar {
    pub(crate) bytes: Vec<u8>,
}

impl View for Scalar {
    type V = Seq<u8>;

    open(crate) spec fn view(&self) -> Seq<u8> {
        self.bytes@
    }
}

/// Compare two byte vectors.
pub fn bytes_eq(a: &Vec<u8>, b: &Vec<u8>) -> (r: bool)
    ensures
        r == (a@ == b@),
{
    if a.len() != b.len() {
        proof {
            assert(a@.len() != b@.len());
        }
        return false;
    }
    let n = a.len();
    let mut i: usize = 0;
    while i < n
        invariant
            0 <= i <= n,
            a@.len() == n,
            b@.len() == n,
            forall|j: int| 0 <= j < i ==> a@[j] == b@[j],
        decreases n - i,
    {
        if a[i] != b[i] {
            return false;
        }
        i = i + 1;
    }
    proof {
        assert(a@ =~= b@);
    }
    true
}

impl Scalar {
    /// The field value the scalar stands for.
    pub open spec fn val(&self) -> nat {
        le_val(self@)
    }

    #[verifier::type_invariant]
    pub(crate) open spec fn wf(self) -> bool {
        self.bytes@.len() == 32 && red(le_val(self.bytes@))
    }

    /// The canonical wire encoding of the scalar.
    pub fn to_bytes(&self) -> (r: Vec<u8>)
        ensures
            r@ == self@,
    {
        let mut out: Vec<u8> = Vec::new();
        let n = self.bytes.len();
        let mut i: usize = 0;
        while i < n
            invariant
                0 <= i <= n,
                self.bytes@.len() == n,
                out@ == self.bytes@.take(i as int),
            decreases n - i,
        {
            out.push(self.bytes[i]);
            proof {
                assert(out@ =~= self.bytes@.take(i + 1));
            }
            i = i + 1;
        }
        proof {
            assert(out@ =~= self.bytes@);
        }
        out
    }

    /// A copy of the scalar.
    pub fn dup(&self) -> (r: Scalar)
        ensures
            r@ == self@,
            r.val() == self.val(),
    {
        proof {
            use_type_invariant(self);
        }
        let bytes = self.to_bytes();
        Scalar { bytes }
    }

    /// Value equality of two scalars.
    pub fn equals(&self, other: &Scalar) -> (r: bool)
        ensures
            r == (self.val() == other.val()),
    {
        proof {
            use_type_invariant(self);
            use_type_invariant(other);
        }
        let r = bytes_eq(&self.bytes, &other.bytes);
        proof {
            if self.val() == other.val() {
                lemma_le_val_injective(self@, other@);
            }
        }
        r
    }

    /// The scalar with the given small value.
    pub fn from_u64(x: u64) -> (r: Scalar)
        ensures
            r.val() == x as nat,
    {
        fr_from_u64(x)
    }

    /// Sum in the scalar field.
    pub fn add(&self, other: &Scalar) -> (r: Scalar)
        ensures
            r.val() == fadd(self.val(), other.val()),
    {
        fr_add(self, other)
    }

    /// Product in the scalar field.
    pub fn mul(&self, other: &Scalar) -> (r: Scalar)
        ensures
            r.val() == fmul(self.val(), other.val()),
    {
        fr_mul(self, other)
    }

    /// Additive inverse in the scalar field.
    pub fn neg(&self) -> (r: Scalar)
        ensures
            r.val() == fneg(self.val()),
    {
        fr_neg(self)
    }

    /// Difference in the scalar field.
    pub fn sub(&self, other: &Scalar) -> (r: Scalar)
        ensures
            r.val() == fadd(self.val(), fneg(other.val())),
    {
        self.add(&other.neg())
    }

    /// Multiplicative inverse in the scalar field.
    pub fn inverse(&self) -> (r: Scalar)
        requires
            self.val() != 0,
        ensures
            fmul(self.val(), r.val()) == 1,
            r.val() == crate::algebra::finv(self.val()),
    {
        let r = fr_inv(self);
        proof {
            use_type_invariant(&r);
            crate::algebra::lemma_finv_unique(self.val(), r.val());
        }
        r
    }
}

/// A copy of a vector of scalars.
pub(crate) fn clone_scalars(v: &Vec<Scalar>) -> (r: Vec<Scalar>)
    ensures
        r@.len() == v@.len(),
        crate::group::vals_of(r@) == crate::group::vals_of(v@),
        forall|i: int| 0 <= i < v@.len() ==> #[trigger] r@[i]@ == v@[i]@,
{
    let mut out: Vec<Scalar> = Vec::new();
    let n = v.len();
    let mut i: usize = 0;
    while i < n
        invariant
            0 <= i <= n,
            v@.len() == n,
            out@.len() == i,
            forall|j: int| 0 <= j < i ==> #[trigger] out@[j]@ == v@[j]@ && out@[j].val() == v@[j].val(),
        decreases n - i,
    {
        out.push(v[i].dup());
        i = i + 1;
    }
    proof {
        assert(crate::group::vals_of(out@) =~= crate::group::vals_of(v@));
    }
    out
}

/// Relies on `ark_ff` field addition for the Pallas scalar field `Fr`, with
/// `ark_serialize`'s canonical little-endian encoding on both sides of the
/// call: the sum of two field elements is the sum of their canonical values
/// modulo the field order.
#[verifier::external_body]
fn fr_add(a: &Scalar, b: &Scalar) -> (r: Scalar)
    ensures
        r.val() == fadd(a.val(), b.val()),
{
    let fa = ark_pallas::Fr::deserialize(&a.bytes[..]).unwrap();
    let fb = ark_pallas::Fr::deserialize(&b.bytes[..]).unwrap();
    let mut bytes = Vec::new();
    (fa + fb).serialize(&mut bytes).unwrap();
    Scalar { bytes }
}

/// Relies on `ark_ff` field multiplication for `Fr`: the product of two
/// field elements is the product of their canonical values modulo the field
/// order.
#[verifier::external_body]
fn fr_mul(a: &Scalar, b: &Scalar) -> (r: Scalar)
    ensures
        r.val() == fmul(a.val(), b.val()),
{
    let fa = ark_pallas::Fr::deserialize(&a.bytes[..]).unwrap();
    let fb = ark_pallas::Fr::deserialize(&b.bytes[..]).unwrap();
    let mut bytes = Vec::new();
    (fa * fb).serialize(&mut bytes).unwrap();
    Scalar { bytes }
}

/// Relies on `ark_ff` field negation for `Fr`: the negation of a field
/// element is the field order minus its value, reduced.
#[verifier::external_body]
fn fr_neg(a: &Scalar) -> (r: Scalar)
    ensures
        r.val() == fneg(a.val()),
{
    let fa = ark_pallas::Fr::deserialize(&a.bytes[..]).unwrap();
    let mut bytes = Vec::new();
    (-fa).serialize(&mut bytes).unwrap();
    Scalar { bytes }
}

/// Relies on `ark_ff::Field::inverse` for `Fr`: on a nonzero element it
/// returns the unique multiplicative inverse.
#[verifier::external_body]
fn fr_inv(a: &Scalar) -> (r: Scalar)
    requires
        a.val() != 0,
    ensures
        fmul(a.val(), r.val()) == 1,
{
    let fa = ark_pallas::Fr::deserialize(&a.bytes[..]).unwrap();
    let mut bytes = Vec::new();
    fa.inverse().unwrap().serialize(&mut bytes).unwrap();
    Scalar { bytes }
}

/// Relies on `ark_ff`'s `From<u64>` for `Fr`: a 64-bit integer is far below
/// the field order, so its canonical value is itself.
#[verifier::external_body]
fn fr_from_u64(x: u64) -> (r: Scalar)
    ensures
        r.val() == x as nat,
{
    let mut bytes = Vec::new();
    ark_pallas::Fr::from(x).serialize(&mut bytes).unwrap();
    Scalar { bytes }
}

} // verus!
