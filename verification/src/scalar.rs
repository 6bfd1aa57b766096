//! The field capability that the transforms are written against.

use vstd::arithmetic::power::pow;
use vstd::arithmetic::power2::pow2;
use vstd::prelude::*;

verus! {

/// The integer whose four 64-bit limbs are given, least significant first.
#[verifier::inline]
pub open spec fn from_limbs(l0: int, l1: int, l2: int, l3: int) -> int {
    l0 + 0x1_0000_0000_0000_0000 * (l1 + 0x1_0000_0000_0000_0000 * (l2
        + 0x1_0000_0000_0000_0000 * l3))
}

/// The integer that bytes write, least significant byte first.
pub open spec fn le_value(bytes: Seq<u8>) -> int
    decreases bytes.len(),
{
    if bytes.len() == 0 {
        0
    } else {
        bytes[0] as int + 256 * le_value(bytes.drop_first())
    }
}

/// An element of a prime field.
///
/// An element stands for an integer below the modulus, its `value`; the
/// operations compute on values modulo `modulus`. Everything that the
/// library proves of a transform is proved from these contracts alone.
pub trait Scalar: Sized + Copy + Send + Sync {
    /// The number of elements of the field.
    spec fn modulus() -> int;

    /// The integer that this element stands for.
    spec fn value(&self) -> int;

    proof fn lemma_modulus()
        ensures
            Self::modulus() > 1,
    ;

    /// Values are reduced.
    proof fn lemma_value_reduced(&self)
        ensures
            0 <= self.value() < Self::modulus(),
    ;

    /// The additive identity.
    fn zero() -> (r: Self)
        ensures
            r.value() == 0,
    ;

    /// The multiplicative identity.
    fn one() -> (r: Self)
        ensures
            r.value() == 1,
    ;

    fn add(&self, rhs: &Self) -> (r: Self)
        ensures
            r.value() == (self.value() + rhs.value()) % Self::modulus(),
    ;

    fn sub(&self, rhs: &Self) -> (r: Self)
        ensures
            r.value() == (self.value() - rhs.value()) % Self::modulus(),
    ;

    fn mul(&self, rhs: &Self) -> (r: Self)
        ensures
            r.value() == (self.value() * rhs.value()) % Self::modulus(),
    ;

    /// Whether two elements stand for the same integer.
    fn equals(&self, other: &Self) -> (b: bool)
        ensures
            b == (self.value() == other.value()),
    ;
}

/// A field with a distinguished root of unity of two-power order.
pub trait TwoAdic: Scalar {
    /// The largest `s` such that `2^s` divides `modulus - 1`.
    spec fn two_adicity() -> nat;

    /// The value of the distinguished root of unity of order `2^s`.
    spec fn root_of_unity_value() -> int;

    /// The root's `2^(s-1)`-th power is `-1`, so its order is exactly `2^s`.
    proof fn lemma_root_of_unity()
        ensures
            Self::two_adicity() >= 1,
            Self::two_adicity() < 64,
            pow(Self::root_of_unity_value(), pow2((Self::two_adicity() - 1) as nat))
                % Self::modulus() == Self::modulus() - 1,
    ;

    fn s() -> (s: u32)
        ensures
            s == Self::two_adicity(),
    ;

    fn root_of_unity() -> (r: Self)
        ensures
            r.value() == Self::root_of_unity_value(),
    ;

    /// Raises an element to a power.
    fn pow_vartime(&self, exp: u64) -> (r: Self)
        ensures
            r.value() == pow(self.value(), exp as nat) % Self::modulus(),
    ;
}

/// The integers that a sequence of elements stands for.
pub open spec fn values<F: Scalar>(s: Seq<F>) -> Seq<int> {
    Seq::new(s.len(), |i: int| s[i].value())
}

/// A copy of a vector.
pub fn copy_of<T: Copy>(v: &Vec<T>) -> (r: Vec<T>)
    ensures
        r@ == v@,
{
    let n: usize = v.len();
    let mut copies: Vec<T> = Vec::with_capacity(n);
    let mut i: usize = 0;
    while i < n
        invariant
            n == v@.len(),
            i <= n,
            copies@ == v@.subrange(0, i as int),
        decreases n - i,
    {
        copies.push(v[i]);
        i += 1;
        assert(copies@ =~= v@.subrange(0, i as int));
    }
    assert(copies@ =~= v@);
    copies
}

} // verus!
