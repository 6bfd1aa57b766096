//! The base field of the BN256 curve, as `halo2curves` implements it.

use crate::scalar::{from_limbs, le_value, Scalar};
use vstd::arithmetic::div_mod::{
    lemma_add_mod_noop, lemma_mod_twice, lemma_mul_mod_noop, lemma_small_mod, lemma_sub_mod_noop,
};
use vstd::prelude::*;
use vstd::std_specs::cmp::PartialEqSpecImpl;

verus! {

/// `halo2curves::bn256::Fq`, an element of the field. Nothing is known of
/// what is inside: it is handed to the functions below and back.
#[verifier::external_type_specification]
#[verifier::external_body]
pub struct ExBn256Base(halo2curves::bn256::Fq);

/// The integer that an element stands for: the one that `to_bytes` writes
/// out in little-endian bytes.
pub uninterp spec fn bn256_value(x: halo2curves::bn256::Fq) -> int;

/// `q = 0x30644e72e131a029b85045b68181585d97816a916871ca8d3c208c16d87cfd47`.
pub open spec fn bn256_modulus() -> int {
    from_limbs(0x3c208c16d87cfd47, 0x97816a916871ca8d, 0xb85045b68181585d, 0x30644e72e131a029)
}

/// An element of the field.
///
/// It holds an element of `halo2curves` whose limbs are below the modulus:
/// the field is private, and every function here that builds an element
/// returns such a one. An element of `halo2curves` can be built from any
/// limbs, and its arithmetic is right on reduced limbs only; that is why it
/// comes in and goes out as bytes.
#[derive(Clone, Copy, Debug)]
pub struct Base {
    inner: halo2curves::bn256::Fq,
}

/// `Fq::zero()`: the element that stands for 0.
#[verifier::external_body]
fn bn256_zero() -> (r: Base)
    ensures
        bn256_value(r.inner) == 0,
{
    Base { inner: halo2curves::bn256::Fq::zero() }
}

/// `Fq::one()`: the element that stands for 1.
#[verifier::external_body]
fn bn256_one() -> (r: Base)
    ensures
        bn256_value(r.inner) == 1,
{
    Base { inner: halo2curves::bn256::Fq::one() }
}

/// `Fq + Fq` on reduced elements: the sum of the two values, reduced
/// modulo `q`.
#[verifier::external_body]
fn bn256_add(a: &Base, b: &Base) -> (r: Base)
    ensures
        bn256_value(r.inner) == (bn256_value(a.inner) + bn256_value(b.inner)) % bn256_modulus(),
{
    Base { inner: a.inner + b.inner }
}

/// `Fq - Fq` on reduced elements: the difference of the two values, reduced
/// modulo `q`.
#[verifier::external_body]
fn bn256_sub(a: &Base, b: &Base) -> (r: Base)
    ensures
        bn256_value(r.inner) == (bn256_value(a.inner) - bn256_value(b.inner)) % bn256_modulus(),
{
    Base { inner: a.inner - b.inner }
}

/// `Fq * Fq`: the product of the two values, reduced modulo `q`.
#[verifier::external_body]
fn bn256_mul(a: &Base, b: &Base) -> (r: Base)
    ensures
        bn256_value(r.inner) == (bn256_value(a.inner) * bn256_value(b.inner)) % bn256_modulus(),
{
    Base { inner: a.inner * b.inner }
}

/// `Fq == Fq` on reduced elements: they have the same limbs exactly when
/// they stand for the same residue modulo `q`.
#[verifier::external_body]
fn bn256_eq(a: &Base, b: &Base) -> (r: bool)
    ensures
        r == (bn256_value(a.inner) % bn256_modulus() == bn256_value(b.inner) % bn256_modulus()),
{
    a.inner == b.inner
}

/// `Fq::from_bytes`: the element that stands for the integer that the bytes
/// write, least significant first, where that integer is below `q`; none
/// where it is not.
#[verifier::external_body]
fn bn256_from_bytes(bytes: &[u8; 32]) -> (r: Option<Base>)
    ensures
        r is Some <==> le_value(bytes@) < bn256_modulus(),
        r matches Some(x) ==> bn256_value(x.inner) == le_value(bytes@),
{
    match Option::from(halo2curves::bn256::Fq::from_bytes(bytes)) {
        Some(inner) => Some(Base { inner }),
        None => None,
    }
}

/// `Fq::to_bytes` on a reduced element: the bytes that write its value,
/// least significant first.
#[verifier::external_body]
fn bn256_to_bytes(a: &Base) -> (r: [u8; 32])
    ensures
        le_value(r@) == bn256_value(a.inner) % bn256_modulus(),
{
    a.inner.to_bytes()
}

impl Base {
    /// The element that stands for the integer that `bytes` write, least
    /// significant first; none where that integer is not below the modulus.
    pub fn from_bytes(bytes: &[u8; 32]) -> (r: Option<Self>)
        ensures
            r is Some <==> le_value(bytes@) < Self::modulus(),
            r matches Some(x) ==> x.value() == le_value(bytes@),
    {
        let r = bn256_from_bytes(bytes);
        proof {
            if le_value(bytes@) < bn256_modulus() {
                lemma_le_value_nonnegative(bytes@);
                lemma_small_mod(le_value(bytes@) as nat, bn256_modulus() as nat);
            }
        }
        r
    }

    /// The bytes that write the element's value, least significant first.
    pub fn to_bytes(&self) -> (r: [u8; 32])
        ensures
            le_value(r@) == self.value(),
    {
        bn256_to_bytes(self)
    }
}

/// Bytes write no negative integer.
proof fn lemma_le_value_nonnegative(bytes: Seq<u8>)
    ensures
        le_value(bytes) >= 0,
    decreases bytes.len(),
{
    if bytes.len() > 0 {
        lemma_le_value_nonnegative(bytes.drop_first());
    }
}

impl PartialEq for Base {
    fn eq(&self, other: &Self) -> (r: bool) {
        bn256_eq(self, other)
    }
}

impl PartialEqSpecImpl for Base {
    open spec fn obeys_eq_spec() -> bool {
        true
    }

    /// Two elements are equal where they stand for the same integer.
    open spec fn eq_spec(&self, other: &Self) -> bool {
        self.value() == other.value()
    }
}

impl Scalar for Base {
    open spec fn modulus() -> int {
        bn256_modulus()
    }

    closed spec fn value(&self) -> int {
        bn256_value(self.inner) % bn256_modulus()
    }

    proof fn lemma_modulus() {
    }

    proof fn lemma_value_reduced(&self) {
    }

    fn zero() -> (r: Self) {
        bn256_zero()
    }

    fn one() -> (r: Self) {
        proof {
            lemma_small_mod(1, bn256_modulus() as nat);
        }
        bn256_one()
    }

    fn add(&self, rhs: &Self) -> (r: Self) {
        proof {
            lemma_add_mod_noop(bn256_value(self.inner), bn256_value(rhs.inner), bn256_modulus());
            lemma_mod_twice(bn256_value(self.inner) + bn256_value(rhs.inner), bn256_modulus());
        }
        bn256_add(self, rhs)
    }

    fn sub(&self, rhs: &Self) -> (r: Self) {
        proof {
            lemma_sub_mod_noop(bn256_value(self.inner), bn256_value(rhs.inner), bn256_modulus());
            lemma_mod_twice(bn256_value(self.inner) - bn256_value(rhs.inner), bn256_modulus());
        }
        bn256_sub(self, rhs)
    }

    fn mul(&self, rhs: &Self) -> (r: Self) {
        proof {
            lemma_mul_mod_noop(bn256_value(self.inner), bn256_value(rhs.inner), bn256_modulus());
            lemma_mod_twice(bn256_value(self.inner) * bn256_value(rhs.inner), bn256_modulus());
        }
        bn256_mul(self, rhs)
    }

    fn equals(&self, other: &Self) -> (b: bool) {
        bn256_eq(self, other)
    }
}

} // verus!
