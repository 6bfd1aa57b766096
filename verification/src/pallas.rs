//! The base field of the Pallas curve, as `pasta_curves` implements it.

use crate::scalar::{from_limbs, Scalar, TwoAdic};
use vstd::arithmetic::div_mod::{
    lemma_add_mod_noop, lemma_fundamental_div_mod_converse, lemma_mod_twice, lemma_mul_mod_noop,
    lemma_small_mod, lemma_sub_mod_noop,
};
use vstd::arithmetic::power::{lemma_pow_adds, lemma_pow_mod_noop, lemma_pow1, pow};
use vstd::arithmetic::power2::{lemma2_to64, lemma_pow2_unfold, pow2};
use vstd::prelude::*;

verus! {

/// `pasta_curves::Fp`, an element of the field. Nothing is known of what is
/// inside: it is handed to the functions below and back.
#[verifier::external_type_specification]
#[verifier::external_body]
pub struct ExPallasBase(pasta_curves::Fp);

/// The integer that an element stands for: the one that `to_repr` writes
/// out in little-endian bytes.
pub uninterp spec fn pallas_value(x: pasta_curves::Fp) -> int;

/// `p = 0x40000000000000000000000000000000224698fc094cf91b992d30ed00000001`.
pub open spec fn pallas_modulus() -> int {
    from_limbs(0x992d30ed00000001, 0x224698fc094cf91b, 0x0000000000000000, 0x4000000000000000)
}

/// `Fp::zero()`: the element that stands for 0.
#[verifier::external_body]
fn pallas_zero() -> (r: pasta_curves::Fp)
    ensures
        pallas_value(r) == 0,
{
    pasta_curves::Fp::zero()
}

/// `Fp::one()`: the element that stands for 1.
#[verifier::external_body]
fn pallas_one() -> (r: pasta_curves::Fp)
    ensures
        pallas_value(r) == 1,
{
    pasta_curves::Fp::one()
}

/// `Fp + Fp`: the sum of the two values, reduced modulo `p`.
#[verifier::external_body]
fn pallas_add(a: &pasta_curves::Fp, b: &pasta_curves::Fp) -> (r: pasta_curves::Fp)
    ensures
        pallas_value(r) == (pallas_value(*a) + pallas_value(*b)) % pallas_modulus(),
{
    *a + *b
}

/// `Fp - Fp`: the difference of the two values, reduced modulo `p`.
#[verifier::external_body]
fn pallas_sub(a: &pasta_curves::Fp, b: &pasta_curves::Fp) -> (r: pasta_curves::Fp)
    ensures
        pallas_value(r) == (pallas_value(*a) - pallas_value(*b)) % pallas_modulus(),
{
    *a - *b
}

/// `Fp * Fp`: the product of the two values, reduced modulo `p`.
#[verifier::external_body]
fn pallas_mul(a: &pasta_curves::Fp, b: &pasta_curves::Fp) -> (r: pasta_curves::Fp)
    ensures
        pallas_value(r) == (pallas_value(*a) * pallas_value(*b)) % pallas_modulus(),
{
    *a * *b
}

/// `Fp == Fp`: elements are equal exactly when they stand for the same
/// residue modulo `p`.
#[verifier::external_body]
fn pallas_eq(a: &pasta_curves::Fp, b: &pasta_curves::Fp) -> (r: bool)
    ensures
        r == (pallas_value(*a) % pallas_modulus() == pallas_value(*b) % pallas_modulus()),
{
    *a == *b
}

impl Scalar for pasta_curves::Fp {
    open spec fn modulus() -> int {
        pallas_modulus()
    }

    open spec fn value(&self) -> int {
        pallas_value(*self) % pallas_modulus()
    }

    proof fn lemma_modulus() {
    }

    proof fn lemma_value_reduced(&self) {
    }

    fn zero() -> (r: Self) {
        pallas_zero()
    }

    fn one() -> (r: Self) {
        proof {
            lemma_small_mod(1, pallas_modulus() as nat);
        }
        pallas_one()
    }

    fn add(&self, rhs: &Self) -> (r: Self) {
        proof {
            lemma_add_mod_noop(pallas_value(*self), pallas_value(*rhs), pallas_modulus());
            lemma_mod_twice(pallas_value(*self) + pallas_value(*rhs), pallas_modulus());
        }
        pallas_add(self, rhs)
    }

    fn sub(&self, rhs: &Self) -> (r: Self) {
        proof {
            lemma_sub_mod_noop(pallas_value(*self), pallas_value(*rhs), pallas_modulus());
            lemma_mod_twice(pallas_value(*self) - pallas_value(*rhs), pallas_modulus());
        }
        pallas_sub(self, rhs)
    }

    fn mul(&self, rhs: &Self) -> (r: Self) {
        proof {
            lemma_mul_mod_noop(pallas_value(*self), pallas_value(*rhs), pallas_modulus());
            lemma_mod_twice(pallas_value(*self) * pallas_value(*rhs), pallas_modulus());
        }
        pallas_mul(self, rhs)
    }

    fn equals(&self, other: &Self) -> (b: bool) {
        pallas_eq(self, other)
    }
}

/// The value of the field's root of unity of order `2^32`.
pub open spec fn pallas_root_of_unity_value() -> int {
    from_limbs(0xbdad6fabd87ea32f, 0xea322bf2b7bb7584, 0x362120830561f81a, 0x2bce74deac30ebda)
}

/// `<Fp as PrimeField>::S`, which is 32.
#[verifier::external_body]
fn pallas_s() -> (s: u32)
    ensures
        s == 32,
{
    <pasta_curves::Fp as group::ff::PrimeField>::S
}

/// `<Fp as PrimeField>::root_of_unity()`: the element that the constant
/// `ROOT_OF_UNITY` holds.
#[verifier::external_body]
fn pallas_root_of_unity() -> (r: pasta_curves::Fp)
    ensures
        pallas_value(r) == pallas_root_of_unity_value(),
{
    <pasta_curves::Fp as group::ff::PrimeField>::root_of_unity()
}

/// `Field::pow_vartime` with an exponent of one limb: the power of the
/// value, reduced modulo `p`.
#[verifier::external_body]
fn pallas_pow_vartime(a: &pasta_curves::Fp, exp: u64) -> (r: pasta_curves::Fp)
    ensures
        pallas_value(r) == pow(pallas_value(*a), exp as nat) % pallas_modulus(),
{
    ff::Field::pow_vartime(a, &[exp, 0, 0, 0])
}

/// One squaring: from `root^(2^j)` to `root^(2^(j+1))`, both reduced
/// modulo `p`, where `q` is the quotient that the reduction drops.
proof fn lemma_square_step(root: int, j: nat, r: int, q: int, r_next: int, p: int)
    requires
        p > 0,
        pow(root, pow2(j)) % p == r,
        r * r == q * p + r_next,
        0 <= r_next < p,
    ensures
        pow(root, pow2(j + 1)) % p == r_next,
{
    let x = pow(root, pow2(j));
    lemma_pow2_unfold(j + 1);
    lemma_pow_adds(root, pow2(j), pow2(j));
    lemma_mul_mod_noop(x, x, p);
    lemma_fundamental_div_mod_converse(r * r, p, q, r_next);
}

/// The root of unity has order `2^32`: squared 31 times, it is `-1`. Each
/// step states one squaring with its quotient and remainder modulo `p`.
proof fn lemma_pallas_root_of_unity()
    ensures
        pow(pallas_root_of_unity_value(), pow2(31)) % pallas_modulus() == pallas_modulus() - 1,
{
    let root = pallas_root_of_unity_value();
    let p = pallas_modulus();
    lemma2_to64();
    lemma_pow1(root);
    lemma_small_mod(root as nat, p as nat);
    assert(from_limbs(0xbdad6fabd87ea32f, 0xea322bf2b7bb7584, 0x362120830561f81a, 0x2bce74deac30ebda)
        * from_limbs(0xbdad6fabd87ea32f, 0xea322bf2b7bb7584, 0x362120830561f81a, 0x2bce74deac30ebda)
        == from_limbs(0x7b9532d8ad5ec966, 0xfaa12f4860c06c9d, 0x3f1b501b05c7727e, 0x1dfc070c66406ec9)
        * from_limbs(0x992d30ed00000001, 0x224698fc094cf91b, 0x0000000000000000, 0x4000000000000000)
        + from_limbs(0x9645ee87acea193b, 0xc4938ab16ac69c2b, 0x8c9176cb401abf06, 0x2c4273e5d2eb1de9))
        by (nonlinear_arith);
    lemma_square_step(
        root,
        0,
        from_limbs(0xbdad6fabd87ea32f, 0xea322bf2b7bb7584, 0x362120830561f81a, 0x2bce74deac30ebda),
        from_limbs(0x7b9532d8ad5ec966, 0xfaa12f4860c06c9d, 0x3f1b501b05c7727e, 0x1dfc070c66406ec9),
        from_limbs(0x9645ee87acea193b, 0xc4938ab16ac69c2b, 0x8c9176cb401abf06, 0x2c4273e5d2eb1de9),
        p,
    );
    assert(from_limbs(0x9645ee87acea193b, 0xc4938ab16ac69c2b, 0x8c9176cb401abf06, 0x2c4273e5d2eb1de9)
        * from_limbs(0x9645ee87acea193b, 0xc4938ab16ac69c2b, 0x8c9176cb401abf06, 0x2c4273e5d2eb1de9)
        == from_limbs(0x2bbac3217077f7dc, 0xdea05d8eda8a1a53, 0xe021a3e992d36e34, 0x1e9ba45bdde77557)
        * from_limbs(0x992d30ed00000001, 0x224698fc094cf91b, 0x0000000000000000, 0x4000000000000000)
        + from_limbs(0x01793e65f9e09bbd, 0x7a3163883882dd34, 0xd748bb4c8f774616, 0x2e99e0eeba6afb04))
        by (nonlinear_arith);
    lemma_square_step(
        root,
        1,
        from_limbs(0x9645ee87acea193b, 0xc4938ab16ac69c2b, 0x8c9176cb401abf06, 0x2c4273e5d2eb1de9),
        from_limbs(0x2bbac3217077f7dc, 0xdea05d8eda8a1a53, 0xe021a3e992d36e34, 0x1e9ba45bdde77557),
        from_limbs(0x01793e65f9e09bbd, 0x7a3163883882dd34, 0xd748bb4c8f774616, 0x2e99e0eeba6afb04),
        p,
    );
    assert(from_limbs(0x01793e65f9e09bbd, 0x7a3163883882dd34, 0xd748bb4c8f774616, 0x2e99e0eeba6afb04)
        * from_limbs(0x01793e65f9e09bbd, 0x7a3163883882dd34, 0xd748bb4c8f774616, 0x2e99e0eeba6afb04)
        == from_limbs(0x07b6cb252de4449c, 0xf48f1237d9f10e4e, 0x9c693ddb5c3c374e, 0x21eea551b7efabc0)
        * from_limbs(0x992d30ed00000001, 0x224698fc094cf91b, 0x0000000000000000, 0x4000000000000000)
        + from_limbs(0x00e79397659a24ed, 0x69fe5716194f8d11, 0x27473e05119a70bf, 0x223b10e2909d6477))
        by (nonlinear_arith);
    lemma_square_step(
        root,
        2,
        from_limbs(0x01793e65f9e09bbd, 0x7a3163883882dd34, 0xd748bb4c8f774616, 0x2e99e0eeba6afb04),
        from_limbs(0x07b6cb252de4449c, 0xf48f1237d9f10e4e, 0x9c693ddb5c3c374e, 0x21eea551b7efabc0),
        from_limbs(0x00e79397659a24ed, 0x69fe5716194f8d11, 0x27473e05119a70bf, 0x223b10e2909d6477),
        p,
    );
    assert(from_limbs(0x00e79397659a24ed, 0x69fe5716194f8d11, 0x27473e05119a70bf, 0x223b10e2909d6477)
        * from_limbs(0x00e79397659a24ed, 0x69fe5716194f8d11, 0x27473e05119a70bf, 0x223b10e2909d6477)
        == from_limbs(0x1bc8431e5cb15764, 0xa5c6760979af2292, 0x2603019279439e58, 0x124ef873dfd6474d)
        * from_limbs(0x992d30ed00000001, 0x224698fc094cf91b, 0x0000000000000000, 0x4000000000000000)
        + from_limbs(0x615bd0d717c62c05, 0xd55a3e3fa4f0d2de, 0xdce3f521ea318e20, 0x088ef444b9a63e67))
        by (nonlinear_arith);
    lemma_square_step(
        root,
        3,
        from_limbs(0x00e79397659a24ed, 0x69fe5716194f8d11, 0x27473e05119a70bf, 0x223b10e2909d6477),
        from_limbs(0x1bc8431e5cb15764, 0xa5c6760979af2292, 0x2603019279439e58, 0x124ef873dfd6474d),
        from_limbs(0x615bd0d717c62c05, 0xd55a3e3fa4f0d2de, 0xdce3f521ea318e20, 0x088ef444b9a63e67),
        p,
    );
    assert(from_limbs(0x615bd0d717c62c05, 0xd55a3e3fa4f0d2de, 0xdce3f521ea318e20, 0x088ef444b9a63e67)
        * from_limbs(0x615bd0d717c62c05, 0xd55a3e3fa4f0d2de, 0xdce3f521ea318e20, 0x088ef444b9a63e67)
        == from_limbs(0x94479931df246046, 0xc063423a7f4c9283, 0x1bc08a743f40c575, 0x0124fc60c3adb2af)
        * from_limbs(0x992d30ed00000001, 0x224698fc094cf91b, 0x0000000000000000, 0x4000000000000000)
        + from_limbs(0x50d96bb7262957d3, 0x05376d4d8ce7e86f, 0x44c6fb4257565f4a, 0x038bbffdbaedf019))
        by (nonlinear_arith);
    lemma_square_step(
        root,
        4,
        from_limbs(0x615bd0d717c62c05, 0xd55a3e3fa4f0d2de, 0xdce3f521ea318e20, 0x088ef444b9a63e67),
        from_limbs(0x94479931df246046, 0xc063423a7f4c9283, 0x1bc08a743f40c575, 0x0124fc60c3adb2af),
        from_limbs(0x50d96bb7262957d3, 0x05376d4d8ce7e86f, 0x44c6fb4257565f4a, 0x038bbffdbaedf019),
        p,
    );
    assert(from_limbs(0x50d96bb7262957d3, 0x05376d4d8ce7e86f, 0x44c6fb4257565f4a, 0x038bbffdbaedf019)
        * from_limbs(0x50d96bb7262957d3, 0x05376d4d8ce7e86f, 0x44c6fb4257565f4a, 0x038bbffdbaedf019)
        == from_limbs(0x1dc08aeaebd0cf08, 0xc65818f5f3c6cbb0, 0x8878fa59b0e979df, 0x00324b27ff9ca9b5)
        * from_limbs(0x992d30ed00000001, 0x224698fc094cf91b, 0x0000000000000000, 0x4000000000000000)
        + from_limbs(0x26a28916f7e648e1, 0xa57789d36d6a6e37, 0x6c4d05c1b1d89d9b, 0x2b32b23c415d3e57))
        by (nonlinear_arith);
    lemma_square_step(
        root,
        5,
        from_limbs(0x50d96bb7262957d3, 0x05376d4d8ce7e86f, 0x44c6fb4257565f4a, 0x038bbffdbaedf019),
        from_limbs(0x1dc08aeaebd0cf08, 0xc65818f5f3c6cbb0, 0x8878fa59b0e979df, 0x00324b27ff9ca9b5),
        from_limbs(0x26a28916f7e648e1, 0xa57789d36d6a6e37, 0x6c4d05c1b1d89d9b, 0x2b32b23c415d3e57),
        p,
    );
    assert(from_limbs(0x26a28916f7e648e1, 0xa57789d36d6a6e37, 0x6c4d05c1b1d89d9b, 0x2b32b23c415d3e57)
        * from_limbs(0x26a28916f7e648e1, 0xa57789d36d6a6e37, 0x6c4d05c1b1d89d9b, 0x2b32b23c415d3e57)
        == from_limbs(0x1f67a5bf84dd0bee, 0x4cc70564c50c6173, 0x5e7dd4e7c4da3b7c, 0x1d2847a9665ad1c8)
        * from_limbs(0x992d30ed00000001, 0x224698fc094cf91b, 0x0000000000000000, 0x4000000000000000)
        + from_limbs(0x2549375fb22e49d3, 0x5b7353922f426d68, 0x6101c7698b1c063f, 0x365bd233e19a7747))
        by (nonlinear_arith);
    lemma_square_step(
        root,
        6,
        from_limbs(0x26a28916f7e648e1, 0xa57789d36d6a6e37, 0x6c4d05c1b1d89d9b, 0x2b32b23c415d3e57),
        from_limbs(0x1f67a5bf84dd0bee, 0x4cc70564c50c6173, 0x5e7dd4e7c4da3b7c, 0x1d2847a9665ad1c8),
        from_limbs(0x2549375fb22e49d3, 0x5b7353922f426d68, 0x6101c7698b1c063f, 0x365bd233e19a7747),
        p,
    );
    assert(from_limbs(0x2549375fb22e49d3, 0x5b7353922f426d68, 0x6101c7698b1c063f, 0x365bd233e19a7747)
        * from_limbs(0x2549375fb22e49d3, 0x5b7353922f426d68, 0x6101c7698b1c063f, 0x365bd233e19a7747)
        == from_limbs(0x49dc9cead778be80, 0x66053c13afe0d550, 0xfee4ef6c3e426e62, 0x2e2b767402a2db1f)
        * from_limbs(0x992d30ed00000001, 0x224698fc094cf91b, 0x0000000000000000, 0x4000000000000000)
        + from_limbs(0x5190e23731a54569, 0xfb81505e6db526ce, 0x78d9867098e13b79, 0x31951d72cbf5ee0d))
        by (nonlinear_arith);
    lemma_square_step(
        root,
        7,
        from_limbs(0x2549375fb22e49d3, 0x5b7353922f426d68, 0x6101c7698b1c063f, 0x365bd233e19a7747),
        from_limbs(0x49dc9cead778be80, 0x66053c13afe0d550, 0xfee4ef6c3e426e62, 0x2e2b767402a2db1f),
        from_limbs(0x5190e23731a54569, 0xfb81505e6db526ce, 0x78d9867098e13b79, 0x31951d72cbf5ee0d),
        p,
    );
    assert(from_limbs(0x5190e23731a54569, 0xfb81505e6db526ce, 0x78d9867098e13b79, 0x31951d72cbf5ee0d)
        * from_limbs(0x5190e23731a54569, 0xfb81505e6db526ce, 0x78d9867098e13b79, 0x31951d72cbf5ee0d)
        == from_limbs(0xfd50991801383860, 0xd12ef67b7b7f382d, 0x15a3df6592631b6b, 0x2669b084f4631c61)
        * from_limbs(0x992d30ed00000001, 0x224698fc094cf91b, 0x0000000000000000, 0x4000000000000000)
        + from_limbs(0xc3831c6abcf38cb1, 0x5b995f8670713a0f, 0x05a8dc469477bbe6, 0x1c6a098fa72833f4))
        by (nonlinear_arith);
    lemma_square_step(
        root,
        8,
        from_limbs(0x5190e23731a54569, 0xfb81505e6db526ce, 0x78d9867098e13b79, 0x31951d72cbf5ee0d),
        from_limbs(0xfd50991801383860, 0xd12ef67b7b7f382d, 0x15a3df6592631b6b, 0x2669b084f4631c61),
        from_limbs(0xc3831c6abcf38cb1, 0x5b995f8670713a0f, 0x05a8dc469477bbe6, 0x1c6a098fa72833f4),
        p,
    );
    assert(from_limbs(0xc3831c6abcf38cb1, 0x5b995f8670713a0f, 0x05a8dc469477bbe6, 0x1c6a098fa72833f4)
        * from_limbs(0xc3831c6abcf38cb1, 0x5b995f8670713a0f, 0x05a8dc469477bbe6, 0x1c6a098fa72833f4)
        == from_limbs(0x9e2e4f33a5fb6155, 0x0e872da6d5e6d4fb, 0x9c21348accfda245, 0x0c9d780d5f8a8c15)
        * from_limbs(0x992d30ed00000001, 0x224698fc094cf91b, 0x0000000000000000, 0x4000000000000000)
        + from_limbs(0x9bfb7e07b75cb10c, 0x2c9244a2a37a6ded, 0x4d98347484bde7a9, 0x0d8c20d3f81693b3))
        by (nonlinear_arith);
    lemma_square_step(
        root,
        9,
        from_limbs(0xc3831c6abcf38cb1, 0x5b995f8670713a0f, 0x05a8dc469477bbe6, 0x1c6a098fa72833f4),
        from_limbs(0x9e2e4f33a5fb6155, 0x0e872da6d5e6d4fb, 0x9c21348accfda245, 0x0c9d780d5f8a8c15),
        from_limbs(0x9bfb7e07b75cb10c, 0x2c9244a2a37a6ded, 0x4d98347484bde7a9, 0x0d8c20d3f81693b3),
        p,
    );
    assert(from_limbs(0x9bfb7e07b75cb10c, 0x2c9244a2a37a6ded, 0x4d98347484bde7a9, 0x0d8c20d3f81693b3)
        * from_limbs(0x9bfb7e07b75cb10c, 0x2c9244a2a37a6ded, 0x4d98347484bde7a9, 0x0d8c20d3f81693b3)
        == from_limbs(0x2d57d638f8018402, 0x17d94cab657d3a44, 0x323983b9253edbf0, 0x02de2025ccfd44e9)
        * from_limbs(0x992d30ed00000001, 0x224698fc094cf91b, 0x0000000000000000, 0x4000000000000000)
        + from_limbs(0x085db943eb10148e, 0xf175600cc0aed539, 0x0af467b81f89c782, 0x044694ccde411680))
        by (nonlinear_arith);
    lemma_square_step(
        root,
        10,
        from_limbs(0x9bfb7e07b75cb10c, 0x2c9244a2a37a6ded, 0x4d98347484bde7a9, 0x0d8c20d3f81693b3),
        from_limbs(0x2d57d638f8018402, 0x17d94cab657d3a44, 0x323983b9253edbf0, 0x02de2025ccfd44e9),
        from_limbs(0x085db943eb10148e, 0xf175600cc0aed539, 0x0af467b81f89c782, 0x044694ccde411680),
        p,
    );
    assert(from_limbs(0x085db943eb10148e, 0xf175600cc0aed539, 0x0af467b81f89c782, 0x044694ccde411680)
        * from_limbs(0x085db943eb10148e, 0xf175600cc0aed539, 0x0af467b81f89c782, 0x044694ccde411680)
        == from_limbs(0x5254a98495d7aba9, 0xf92696477115fd7f, 0x2449f4d4247dd5ae, 0x0049207075e464ea)
        * from_limbs(0x992d30ed00000001, 0x224698fc094cf91b, 0x0000000000000000, 0x4000000000000000)
        + from_limbs(0x463f4019b18ed31b, 0x4171285db283f84b, 0xe98d9f1c0b146bf6, 0x3a4a077c9c0654e7))
        by (nonlinear_arith);
    lemma_square_step(
        root,
        11,
        from_limbs(0x085db943eb10148e, 0xf175600cc0aed539, 0x0af467b81f89c782, 0x044694ccde411680),
        from_limbs(0x5254a98495d7aba9, 0xf92696477115fd7f, 0x2449f4d4247dd5ae, 0x0049207075e464ea),
        from_limbs(0x463f4019b18ed31b, 0x4171285db283f84b, 0xe98d9f1c0b146bf6, 0x3a4a077c9c0654e7),
        p,
    );
    assert(from_limbs(0x463f4019b18ed31b, 0x4171285db283f84b, 0xe98d9f1c0b146bf6, 0x3a4a077c9c0654e7)
        * from_limbs(0x463f4019b18ed31b, 0x4171285db283f84b, 0xe98d9f1c0b146bf6, 0x3a4a077c9c0654e7)
        == from_limbs(0xdfafba926223695a, 0xe1f65bbd70298bd6, 0x2717642db33791a6, 0x351683332bd47d48)
        * from_limbs(0x992d30ed00000001, 0x224698fc094cf91b, 0x0000000000000000, 0x4000000000000000)
        + from_limbs(0x90d867fbd3e61b7f, 0xe1491c6808fe947b, 0xdfb456db63dcf180, 0x1c6807d58325da33))
        by (nonlinear_arith);
    lemma_square_step(
        root,
        12,
        from_limbs(0x463f4019b18ed31b, 0x4171285db283f84b, 0xe98d9f1c0b146bf6, 0x3a4a077c9c0654e7),
        from_limbs(0xdfafba926223695a, 0xe1f65bbd70298bd6, 0x2717642db33791a6, 0x351683332bd47d48),
        from_limbs(0x90d867fbd3e61b7f, 0xe1491c6808fe947b, 0xdfb456db63dcf180, 0x1c6807d58325da33),
        p,
    );
    assert(from_limbs(0x90d867fbd3e61b7f, 0xe1491c6808fe947b, 0xdfb456db63dcf180, 0x1c6807d58325da33)
        * from_limbs(0x90d867fbd3e61b7f, 0xe1491c6808fe947b, 0xdfb456db63dcf180, 0x1c6807d58325da33)
        == from_limbs(0x2141b72dcd21a63d, 0x6042ef3e5850716b, 0xd4c3a3fa4b7e7da9, 0x0c9baff449a0d6f0)
        * from_limbs(0x992d30ed00000001, 0x224698fc094cf91b, 0x0000000000000000, 0x4000000000000000)
        + from_limbs(0x9ec22f8bf80662c4, 0x2c624e853d02ad87, 0x950d9a272227e4f5, 0x14078ea8cdee85a0))
        by (nonlinear_arith);
    lemma_square_step(
        root,
        13,
        from_limbs(0x90d867fbd3e61b7f, 0xe1491c6808fe947b, 0xdfb456db63dcf180, 0x1c6807d58325da33),
        from_limbs(0x2141b72dcd21a63d, 0x6042ef3e5850716b, 0xd4c3a3fa4b7e7da9, 0x0c9baff449a0d6f0),
        from_limbs(0x9ec22f8bf80662c4, 0x2c624e853d02ad87, 0x950d9a272227e4f5, 0x14078ea8cdee85a0),
        p,
    );
    assert(from_limbs(0x9ec22f8bf80662c4, 0x2c624e853d02ad87, 0x950d9a272227e4f5, 0x14078ea8cdee85a0)
        * from_limbs(0x9ec22f8bf80662c4, 0x2c624e853d02ad87, 0x950d9a272227e4f5, 0x14078ea8cdee85a0)
        == from_limbs(0xc253a30418f51ee0, 0x052c137746db55cd, 0xc41ebcccbd9413f8, 0x0644ba0df3a0eebf)
        * from_limbs(0x992d30ed00000001, 0x224698fc094cf91b, 0x0000000000000000, 0x4000000000000000)
        + from_limbs(0x20245ff86e558730, 0xd6d1be12fb8a8678, 0x7f025b2aca0774ea, 0x0f971f9f81878a72))
        by (nonlinear_arith);
    lemma_square_step(
        root,
        14,
        from_limbs(0x9ec22f8bf80662c4, 0x2c624e853d02ad87, 0x950d9a272227e4f5, 0x14078ea8cdee85a0),
        from_limbs(0xc253a30418f51ee0, 0x052c137746db55cd, 0xc41ebcccbd9413f8, 0x0644ba0df3a0eebf),
        from_limbs(0x20245ff86e558730, 0xd6d1be12fb8a8678, 0x7f025b2aca0774ea, 0x0f971f9f81878a72),
        p,
    );
    assert(from_limbs(0x20245ff86e558730, 0xd6d1be12fb8a8678, 0x7f025b2aca0774ea, 0x0f971f9f81878a72)
        * from_limbs(0x20245ff86e558730, 0xd6d1be12fb8a8678, 0x7f025b2aca0774ea, 0x0f971f9f81878a72)
        == from_limbs(0x4d03a4d64671d9e6, 0x8dacc5ff8e132eeb, 0xe58ec6f66b2b2455, 0x03cc3bac0d02d37e)
        * from_limbs(0x992d30ed00000001, 0x224698fc094cf91b, 0x0000000000000000, 0x4000000000000000)
        + from_limbs(0xd465aafc06d1cf1a, 0x8c1c46359289a4d3, 0x55392ad9dda38727, 0x23222d06029d21a6))
        by (nonlinear_arith);
    lemma_square_step(
        root,
        15,
        from_limbs(0x20245ff86e558730, 0xd6d1be12fb8a8678, 0x7f025b2aca0774ea, 0x0f971f9f81878a72),
        from_limbs(0x4d03a4d64671d9e6, 0x8dacc5ff8e132eeb, 0xe58ec6f66b2b2455, 0x03cc3bac0d02d37e),
        from_limbs(0xd465aafc06d1cf1a, 0x8c1c46359289a4d3, 0x55392ad9dda38727, 0x23222d06029d21a6),
        p,
    );
    assert(from_limbs(0xd465aafc06d1cf1a, 0x8c1c46359289a4d3, 0x55392ad9dda38727, 0x23222d06029d21a6)
        * from_limbs(0xd465aafc06d1cf1a, 0x8c1c46359289a4d3, 0x55392ad9dda38727, 0x23222d06029d21a6)
        == from_limbs(0xc64b650acae2ff66, 0xaea519de63bc6265, 0x22d49e87bff7ad6f, 0x1349737e88eb17ff)
        * from_limbs(0x992d30ed00000001, 0x224698fc094cf91b, 0x0000000000000000, 0x4000000000000000)
        + from_limbs(0x898dce603d1c0f3e, 0xe3c85d25401fd8dd, 0x402039fc9e89ad1d, 0x2fd0767705fa5b03))
        by (nonlinear_arith);
    lemma_square_step(
        root,
        16,
        from_limbs(0xd465aafc06d1cf1a, 0x8c1c46359289a4d3, 0x55392ad9dda38727, 0x23222d06029d21a6),
        from_limbs(0xc64b650acae2ff66, 0xaea519de63bc6265, 0x22d49e87bff7ad6f, 0x1349737e88eb17ff),
        from_limbs(0x898dce603d1c0f3e, 0xe3c85d25401fd8dd, 0x402039fc9e89ad1d, 0x2fd0767705fa5b03),
        p,
    );
    assert(from_limbs(0x898dce603d1c0f3e, 0xe3c85d25401fd8dd, 0x402039fc9e89ad1d, 0x2fd0767705fa5b03)
        * from_limbs(0x898dce603d1c0f3e, 0xe3c85d25401fd8dd, 0x402039fc9e89ad1d, 0x2fd0767705fa5b03)
        == from_limbs(0x01abe1d096b29440, 0xba97b2ef7e5040ef, 0xc67d88c14d63248c, 0x23b8d501b1b65461)
        * from_limbs(0x992d30ed00000001, 0x224698fc094cf91b, 0x0000000000000000, 0x4000000000000000)
        + from_limbs(0xe26a77c64bc5bec4, 0xe38cca91106ecac1, 0xcadc042243371883, 0x1aa07732b05972ab))
        by (nonlinear_arith);
    lemma_square_step(
        root,
        17,
        from_limbs(0x898dce603d1c0f3e, 0xe3c85d25401fd8dd, 0x402039fc9e89ad1d, 0x2fd0767705fa5b03),
        from_limbs(0x01abe1d096b29440, 0xba97b2ef7e5040ef, 0xc67d88c14d63248c, 0x23b8d501b1b65461),
        from_limbs(0xe26a77c64bc5bec4, 0xe38cca91106ecac1, 0xcadc042243371883, 0x1aa07732b05972ab),
        p,
    );
    assert(from_limbs(0xe26a77c64bc5bec4, 0xe38cca91106ecac1, 0xcadc042243371883, 0x1aa07732b05972ab)
        * from_limbs(0xe26a77c64bc5bec4, 0xe38cca91106ecac1, 0xcadc042243371883, 0x1aa07732b05972ab)
        == from_limbs(0x9fda116036a2333e, 0xea1004661a645ca8, 0x03e789f4400ed15d, 0x0b13f32e0abb145b)
        * from_limbs(0x992d30ed00000001, 0x224698fc094cf91b, 0x0000000000000000, 0x4000000000000000)
        + from_limbs(0x8075a3efc92d52d2, 0xfd2a80abd33d0e80, 0x0626f1948867533c, 0x03b402c2cbd0a066))
        by (nonlinear_arith);
    lemma_square_step(
        root,
        18,
        from_limbs(0xe26a77c64bc5bec4, 0xe38cca91106ecac1, 0xcadc042243371883, 0x1aa07732b05972ab),
        from_limbs(0x9fda116036a2333e, 0xea1004661a645ca8, 0x03e789f4400ed15d, 0x0b13f32e0abb145b),
        from_limbs(0x8075a3efc92d52d2, 0xfd2a80abd33d0e80, 0x0626f1948867533c, 0x03b402c2cbd0a066),
        p,
    );
    assert(from_limbs(0x8075a3efc92d52d2, 0xfd2a80abd33d0e80, 0x0626f1948867533c, 0x03b402c2cbd0a066)
        * from_limbs(0x8075a3efc92d52d2, 0xfd2a80abd33d0e80, 0x0626f1948867533c, 0x03b402c2cbd0a066)
        == from_limbs(0x7854f50d6daf0443, 0x31b14c335f78d561, 0x025b2e37eba89d12, 0x0036da91caf48233)
        * from_limbs(0x992d30ed00000001, 0x224698fc094cf91b, 0x0000000000000000, 0x4000000000000000)
        + from_limbs(0x0d34cd1b8ef03001, 0xd14d99e798518447, 0xd7c75f72e02a9727, 0x028961bbd9c63b7b))
        by (nonlinear_arith);
    lemma_square_step(
        root,
        19,
        from_limbs(0x8075a3efc92d52d2, 0xfd2a80abd33d0e80, 0x0626f1948867533c, 0x03b402c2cbd0a066),
        from_limbs(0x7854f50d6daf0443, 0x31b14c335f78d561, 0x025b2e37eba89d12, 0x0036da91caf48233),
        from_limbs(0x0d34cd1b8ef03001, 0xd14d99e798518447, 0xd7c75f72e02a9727, 0x028961bbd9c63b7b),
        p,
    );
    assert(from_limbs(0x0d34cd1b8ef03001, 0xd14d99e798518447, 0xd7c75f72e02a9727, 0x028961bbd9c63b7b)
        * from_limbs(0x0d34cd1b8ef03001, 0xd14d99e798518447, 0xd7c75f72e02a9727, 0x028961bbd9c63b7b)
        == from_limbs(0xc10b6520793ee7ee, 0x1f53a5f96937f004, 0xcf71eeb1350cc4f6, 0x0019bd02bf184fe6)
        * from_limbs(0x992d30ed00000001, 0x224698fc094cf91b, 0x0000000000000000, 0x4000000000000000)
        + from_limbs(0xef28545aada17813, 0x7a9b88bcaaa1c24e, 0x31cbd395426d600b, 0x181b50ad5f32119e))
        by (nonlinear_arith);
    lemma_square_step(
        root,
        20,
        from_limbs(0x0d34cd1b8ef03001, 0xd14d99e798518447, 0xd7c75f72e02a9727, 0x028961bbd9c63b7b),
        from_limbs(0xc10b6520793ee7ee, 0x1f53a5f96937f004, 0xcf71eeb1350cc4f6, 0x0019bd02bf184fe6),
        from_limbs(0xef28545aada17813, 0x7a9b88bcaaa1c24e, 0x31cbd395426d600b, 0x181b50ad5f32119e),
        p,
    );
    assert(from_limbs(0xef28545aada17813, 0x7a9b88bcaaa1c24e, 0x31cbd395426d600b, 0x181b50ad5f32119e)
        * from_limbs(0xef28545aada17813, 0x7a9b88bcaaa1c24e, 0x31cbd395426d600b, 0x181b50ad5f32119e)
        == from_limbs(0x88e7784c897c4fe7, 0x342a3f4847366cf1, 0xe32669de6e83956a, 0x0914882a7f612319)
        * from_limbs(0x992d30ed00000001, 0x224698fc094cf91b, 0x0000000000000000, 0x4000000000000000)
        + from_limbs(0x4774c65664bb8182, 0xdc0aa1b40386a1c1, 0x068512b010382353, 0x1421deb15f5ce205))
        by (nonlinear_arith);
    lemma_square_step(
        root,
        21,
        from_limbs(0xef28545aada17813, 0x7a9b88bcaaa1c24e, 0x31cbd395426d600b, 0x181b50ad5f32119e),
        from_limbs(0x88e7784c897c4fe7, 0x342a3f4847366cf1, 0xe32669de6e83956a, 0x0914882a7f612319),
        from_limbs(0x4774c65664bb8182, 0xdc0aa1b40386a1c1, 0x068512b010382353, 0x1421deb15f5ce205),
        p,
    );
    assert(from_limbs(0x4774c65664bb8182, 0xdc0aa1b40386a1c1, 0x068512b010382353, 0x1421deb15f5ce205)
        * from_limbs(0x4774c65664bb8182, 0xdc0aa1b40386a1c1, 0x068512b010382353, 0x1421deb15f5ce205)
        == from_limbs(0xbb3f3d829186c020, 0x43fc2a1d848e69ff, 0xa11f33bc6969ead9, 0x06553d1b8964d634)
        * from_limbs(0x992d30ed00000001, 0x224698fc094cf91b, 0x0000000000000000, 0x4000000000000000)
        + from_limbs(0xbd1e06b973e985e4, 0x1a9daef679667eb4, 0x5343154773101eaf, 0x0cb8102d0128ebb2))
        by (nonlinear_arith);
    lemma_square_step(
        root,
        22,
        from_limbs(0x4774c65664bb8182, 0xdc0aa1b40386a1c1, 0x068512b010382353, 0x1421deb15f5ce205),
        from_limbs(0xbb3f3d829186c020, 0x43fc2a1d848e69ff, 0xa11f33bc6969ead9, 0x06553d1b8964d634),
        from_limbs(0xbd1e06b973e985e4, 0x1a9daef679667eb4, 0x5343154773101eaf, 0x0cb8102d0128ebb2),
        p,
    );
    assert(from_limbs(0xbd1e06b973e985e4, 0x1a9daef679667eb4, 0x5343154773101eaf, 0x0cb8102d0128ebb2)
        * from_limbs(0xbd1e06b973e985e4, 0x1a9daef679667eb4, 0x5343154773101eaf, 0x0cb8102d0128ebb2)
        == from_limbs(0x7df04903e238af47, 0x0021fea412c97a4a, 0x3801e7a35c7aff0d, 0x0287176de74ca3e8)
        * from_limbs(0x992d30ed00000001, 0x224698fc094cf91b, 0x0000000000000000, 0x4000000000000000)
        + from_limbs(0xebf2f918f4d603c9, 0xc5ac7dc51c50ed52, 0x2ff5140e6007a63b, 0x21d0b0a3be45b5ee))
        by (nonlinear_arith);
    lemma_square_step(
        root,
        23,
        from_limbs(0xbd1e06b973e985e4, 0x1a9daef679667eb4, 0x5343154773101eaf, 0x0cb8102d0128ebb2),
        from_limbs(0x7df04903e238af47, 0x0021fea412c97a4a, 0x3801e7a35c7aff0d, 0x0287176de74ca3e8),
        from_limbs(0xebf2f918f4d603c9, 0xc5ac7dc51c50ed52, 0x2ff5140e6007a63b, 0x21d0b0a3be45b5ee),
        p,
    );
    assert(from_limbs(0xebf2f918f4d603c9, 0xc5ac7dc51c50ed52, 0x2ff5140e6007a63b, 0x21d0b0a3be45b5ee)
        * from_limbs(0xebf2f918f4d603c9, 0xc5ac7dc51c50ed52, 0x2ff5140e6007a63b, 0x21d0b0a3be45b5ee)
        == from_limbs(0x527bb1247346040e, 0xfd5f447064e682c9, 0xff0f66ddf2a693c8, 0x11dddea6ec12e22a)
        * from_limbs(0x992d30ed00000001, 0x224698fc094cf91b, 0x0000000000000000, 0x4000000000000000)
        + from_limbs(0x14244fb708d44fc3, 0x7550149e556476b3, 0x4deeb656fd6b01c9, 0x00a31cd9ef867979))
        by (nonlinear_arith);
    lemma_square_step(
        root,
        24,
        from_limbs(0xebf2f918f4d603c9, 0xc5ac7dc51c50ed52, 0x2ff5140e6007a63b, 0x21d0b0a3be45b5ee),
        from_limbs(0x527bb1247346040e, 0xfd5f447064e682c9, 0xff0f66ddf2a693c8, 0x11dddea6ec12e22a),
        from_limbs(0x14244fb708d44fc3, 0x7550149e556476b3, 0x4deeb656fd6b01c9, 0x00a31cd9ef867979),
        p,
    );
    assert(from_limbs(0x14244fb708d44fc3, 0x7550149e556476b3, 0x4deeb656fd6b01c9, 0x00a31cd9ef867979)
        * from_limbs(0x14244fb708d44fc3, 0x7550149e556476b3, 0x4deeb656fd6b01c9, 0x00a31cd9ef867979)
        == from_limbs(0x913bd6660bd4ffcf, 0x295dc3c94f7dc1ef, 0x34885089b60042c4, 0x00019fb7031dacb0)
        * from_limbs(0x992d30ed00000001, 0x224698fc094cf91b, 0x0000000000000000, 0x4000000000000000)
        + from_limbs(0x6c23ded157fceeba, 0xb9569c85b0a15d66, 0x97ff23a878e088b0, 0x1868ca50534a180d))
        by (nonlinear_arith);
    lemma_square_step(
        root,
        25,
        from_limbs(0x14244fb708d44fc3, 0x7550149e556476b3, 0x4deeb656fd6b01c9, 0x00a31cd9ef867979),
        from_limbs(0x913bd6660bd4ffcf, 0x295dc3c94f7dc1ef, 0x34885089b60042c4, 0x00019fb7031dacb0),
        from_limbs(0x6c23ded157fceeba, 0xb9569c85b0a15d66, 0x97ff23a878e088b0, 0x1868ca50534a180d),
        p,
    );
    assert(from_limbs(0x6c23ded157fceeba, 0xb9569c85b0a15d66, 0x97ff23a878e088b0, 0x1868ca50534a180d)
        * from_limbs(0x6c23ded157fceeba, 0xb9569c85b0a15d66, 0x97ff23a878e088b0, 0x1868ca50534a180d)
        == from_limbs(0xd0b724eeb632e658, 0x470ee4310eb397cf, 0xbba3cd93b7d957da, 0x094f43504311b56c)
        * from_limbs(0x992d30ed00000001, 0x224698fc094cf91b, 0x0000000000000000, 0x4000000000000000)
        + from_limbs(0x8fa36376929b78cc, 0x3baea3393eceb7bc, 0xdaf29ad1560833ed, 0x0cc3380dc616f2e1))
        by (nonlinear_arith);
    lemma_square_step(
        root,
        26,
        from_limbs(0x6c23ded157fceeba, 0xb9569c85b0a15d66, 0x97ff23a878e088b0, 0x1868ca50534a180d),
        from_limbs(0xd0b724eeb632e658, 0x470ee4310eb397cf, 0xbba3cd93b7d957da, 0x094f43504311b56c),
        from_limbs(0x8fa36376929b78cc, 0x3baea3393eceb7bc, 0xdaf29ad1560833ed, 0x0cc3380dc616f2e1),
        p,
    );
    assert(from_limbs(0x8fa36376929b78cc, 0x3baea3393eceb7bc, 0xdaf29ad1560833ed, 0x0cc3380dc616f2e1)
        * from_limbs(0x8fa36376929b78cc, 0x3baea3393eceb7bc, 0xdaf29ad1560833ed, 0x0cc3380dc616f2e1)
        == from_limbs(0x86ce4cd1410d7623, 0x7ec266ccbb825e7c, 0xc9e522677d275a9d, 0x028b887eef4fd48b)
        * from_limbs(0x992d30ed00000001, 0x224698fc094cf91b, 0x0000000000000000, 0x4000000000000000)
        + from_limbs(0x80ec9d0beefa6c6d, 0x4f82ab3e1182aecd, 0x85e789dcbc7a09bd, 0x17e6c570737897f3))
        by (nonlinear_arith);
    lemma_square_step(
        root,
        27,
        from_limbs(0x8fa36376929b78cc, 0x3baea3393eceb7bc, 0xdaf29ad1560833ed, 0x0cc3380dc616f2e1),
        from_limbs(0x86ce4cd1410d7623, 0x7ec266ccbb825e7c, 0xc9e522677d275a9d, 0x028b887eef4fd48b),
        from_limbs(0x80ec9d0beefa6c6d, 0x4f82ab3e1182aecd, 0x85e789dcbc7a09bd, 0x17e6c570737897f3),
        p,
    );
    assert(from_limbs(0x80ec9d0beefa6c6d, 0x4f82ab3e1182aecd, 0x85e789dcbc7a09bd, 0x17e6c570737897f3)
        * from_limbs(0x80ec9d0beefa6c6d, 0x4f82ab3e1182aecd, 0x85e789dcbc7a09bd, 0x17e6c570737897f3)
        == from_limbs(0xc13ff5832e4560bb, 0xc62c929566a9c9de, 0x8c6e2542004ecb39, 0x08ed1e064c55ac6e)
        * from_limbs(0x992d30ed00000001, 0x224698fc094cf91b, 0x0000000000000000, 0x4000000000000000)
        + from_limbs(0x1d15074e708ac5ae, 0xc73bfb511bf223ac, 0xd26301123de65ed9, 0x3f8f1cc60c6da729))
        by (nonlinear_arith);
    lemma_square_step(
        root,
        28,
        from_limbs(0x80ec9d0beefa6c6d, 0x4f82ab3e1182aecd, 0x85e789dcbc7a09bd, 0x17e6c570737897f3),
        from_limbs(0xc13ff5832e4560bb, 0xc62c929566a9c9de, 0x8c6e2542004ecb39, 0x08ed1e064c55ac6e),
        from_limbs(0x1d15074e708ac5ae, 0xc73bfb511bf223ac, 0xd26301123de65ed9, 0x3f8f1cc60c6da729),
        p,
    );
    assert(from_limbs(0x1d15074e708ac5ae, 0xc73bfb511bf223ac, 0xd26301123de65ed9, 0x3f8f1cc60c6da729)
        * from_limbs(0x1d15074e708ac5ae, 0xc73bfb511bf223ac, 0xd26301123de65ed9, 0x3f8f1cc60c6da729)
        == from_limbs(0xd040fd7c5f6f8b69, 0x7d6fe25fccf84f93, 0x343fd9f3e2e0de28, 0x3f1f00aa8a6f1ada)
        * from_limbs(0x992d30ed00000001, 0x224698fc094cf91b, 0x0000000000000000, 0x4000000000000000)
        + from_limbs(0xe047f48898cdb6db, 0xff98203a45f8ebf0, 0x31744fb72326829d, 0x36bdcc7b0f28b5df))
        by (nonlinear_arith);
    lemma_square_step(
        root,
        29,
        from_limbs(0x1d15074e708ac5ae, 0xc73bfb511bf223ac, 0xd26301123de65ed9, 0x3f8f1cc60c6da729),
        from_limbs(0xd040fd7c5f6f8b69, 0x7d6fe25fccf84f93, 0x343fd9f3e2e0de28, 0x3f1f00aa8a6f1ada),
        from_limbs(0xe047f48898cdb6db, 0xff98203a45f8ebf0, 0x31744fb72326829d, 0x36bdcc7b0f28b5df),
        p,
    );
    assert(from_limbs(0xe047f48898cdb6db, 0xff98203a45f8ebf0, 0x31744fb72326829d, 0x36bdcc7b0f28b5df)
        * from_limbs(0xe047f48898cdb6db, 0xff98203a45f8ebf0, 0x31744fb72326829d, 0x36bdcc7b0f28b5df)
        == from_limbs(0x18b0c8d06d5a1f59, 0xc12c737c95776f5d, 0xa13179cd6b3c50ba, 0x2ed27bededb7a89c)
        * from_limbs(0x992d30ed00000001, 0x224698fc094cf91b, 0x0000000000000000, 0x4000000000000000)
        + from_limbs(0x992d30ed00000000, 0x224698fc094cf91b, 0x0000000000000000, 0x4000000000000000))
        by (nonlinear_arith);
    lemma_square_step(
        root,
        30,
        from_limbs(0xe047f48898cdb6db, 0xff98203a45f8ebf0, 0x31744fb72326829d, 0x36bdcc7b0f28b5df),
        from_limbs(0x18b0c8d06d5a1f59, 0xc12c737c95776f5d, 0xa13179cd6b3c50ba, 0x2ed27bededb7a89c),
        from_limbs(0x992d30ed00000000, 0x224698fc094cf91b, 0x0000000000000000, 0x4000000000000000),
        p,
    );
}

impl TwoAdic for pasta_curves::Fp {
    open spec fn two_adicity() -> nat {
        32
    }

    open spec fn root_of_unity_value() -> int {
        pallas_root_of_unity_value()
    }

    proof fn lemma_root_of_unity() {
        lemma_pallas_root_of_unity();
    }

    fn s() -> (s: u32) {
        pallas_s()
    }

    fn root_of_unity() -> (r: Self) {
        proof {
            lemma_small_mod(pallas_root_of_unity_value() as nat, pallas_modulus() as nat);
        }
        pallas_root_of_unity()
    }

    fn pow_vartime(&self, exp: u64) -> (r: Self) {
        proof {
            lemma_pow_mod_noop(pallas_value(*self), exp as nat, pallas_modulus());
            lemma_mod_twice(pow(pallas_value(*self), exp as nat), pallas_modulus());
        }
        pallas_pow_vartime(self, exp)
    }
}

} // verus!
