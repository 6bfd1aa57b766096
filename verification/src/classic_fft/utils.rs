//! The combining step of the radix-2 transform.

use crate::modular::{lemma_add_congruent, lemma_mul_congruent, lemma_sub_congruent};
use crate::scalar::Scalar;
use vstd::arithmetic::div_mod::{
    lemma_add_mod_noop_right, lemma_mod_twice, lemma_small_mod, lemma_sub_mod_noop_right,
};
use vstd::prelude::*;

verus! {

/// Replaces each pair `(a, b)` of the `i`-th values of `left` and `right` by
/// `(a + w * b, a - w * b)`, where `w` is the twiddle factor at index
/// `i * twiddle_chunk`.
pub fn butterfly_arithmetic<F: Scalar>(
    left: &mut [F],
    right: &mut [F],
    twiddle_chunk: usize,
    twiddles: &[F],
)
    requires
        old(left)@.len() == old(right)@.len(),
        old(left)@.len() == 0 || (old(left)@.len() - 1) * twiddle_chunk < twiddles@.len(),
    ensures
        final(left)@.len() == old(left)@.len(),
        final(right)@.len() == old(right)@.len(),
        forall|i: int|
            0 <= i < old(left)@.len() ==> (#[trigger] final(left)@[i]).value() == (
            old(left)@[i].value() + twiddles@[i * twiddle_chunk].value() * old(right)@[i].value())
                % F::modulus(),
        forall|i: int|
            0 <= i < old(left)@.len() ==> (#[trigger] final(right)@[i]).value() == (
            old(left)@[i].value() - twiddles@[i * twiddle_chunk].value() * old(right)@[i].value())
                % F::modulus(),
{
    let n: usize = left.len();
    let table_len: usize = twiddles.len();
    let ghost left_before = left@;
    let ghost right_before = right@;
    proof {
        F::lemma_modulus();
    }
    let mut i: usize = 0;
    while i < n
        invariant
            left@.len() == n,
            right@.len() == n,
            left_before.len() == n,
            right_before.len() == n,
            n == 0 || (n - 1) * twiddle_chunk < table_len,
            table_len == twiddles@.len(),
            i <= n,
            F::modulus() > 1,
            forall|j: int|
                i <= j < n ==> left@[j] == left_before[j] && right@[j] == right_before[j],
            forall|j: int|
                0 <= j < i ==> (#[trigger] left@[j]).value() == (left_before[j].value()
                    + twiddles@[j * twiddle_chunk].value() * right_before[j].value())
                    % F::modulus(),
            forall|j: int|
                0 <= j < i ==> (#[trigger] right@[j]).value() == (left_before[j].value()
                    - twiddles@[j * twiddle_chunk].value() * right_before[j].value())
                    % F::modulus(),
        decreases n - i,
    {
        proof {
            assert(i * twiddle_chunk <= (n - 1) * twiddle_chunk) by (nonlinear_arith)
                requires
                    i < n,
                    twiddle_chunk >= 0,
            ;
        }
        let a = left[i];
        let t = twiddles[i * twiddle_chunk].mul(&right[i]);
        proof {
            let w = twiddles@[i * twiddle_chunk].value();
            lemma_add_mod_noop_right(a.value(), w * right@[i as int].value(), F::modulus());
            lemma_sub_mod_noop_right(a.value(), w * right@[i as int].value(), F::modulus());
        }
        left[i] = a.add(&t);
        right[i] = a.sub(&t);
        i += 1;
    }
}

/// The butterfly can be undone: where `w_inv` is the inverse of the twiddle
/// factor `w` and `half` the inverse of 2, both modulo `p`, the pair `(a, b)`
/// comes back from its butterfly `(u, v)` as `(half * (u + v), half * w_inv
/// * (u - v))`.
pub proof fn lemma_butterfly_round_trip(a: int, b: int, w: int, w_inv: int, half: int, p: int)
    requires
        p > 1,
        (w * w_inv) % p == 1,
        (2 * half) % p == 1,
    ensures
        ({
            let u = (a + w * b) % p;
            let v = (a - w * b) % p;
            &&& (half * (u + v)) % p == a % p
            &&& (half * w_inv * (u - v)) % p == b % p
        }),
{
    let u = (a + w * b) % p;
    let v = (a - w * b) % p;
    lemma_mod_twice(a + w * b, p);
    lemma_mod_twice(a - w * b, p);
    lemma_small_mod(1, p as nat);
    // u + v is 2a
    lemma_add_congruent(u, v, a + w * b, a - w * b, p);
    lemma_mul_congruent(half, u + v, half, 2 * a, p);
    assert(half * (2 * a) == (2 * half) * a) by (nonlinear_arith);
    lemma_mul_congruent(2 * half, a, 1, a, p);
    // u - v is 2wb
    lemma_sub_congruent(u, v, a + w * b, a - w * b, p);
    lemma_mul_congruent(half * w_inv, u - v, half * w_inv, 2 * (w * b), p);
    assert((half * w_inv) * (2 * (w * b)) == ((2 * half) * (w * w_inv)) * b) by (nonlinear_arith);
    lemma_mul_congruent(2 * half, w * w_inv, 1, 1, p);
    lemma_mul_congruent((2 * half) * (w * w_inv), b, 1, b, p);
}

} // verus!
