//! The bit-reversal permutation of an array of two-power length.

use vstd::arithmetic::div_mod::{lemma_fundamental_div_mod, lemma_mod_breakdown};
use vstd::arithmetic::power2::{lemma2_to64, lemma_pow2_pos, lemma_pow2_unfold, pow2};
use crate::modular::interleave;
use vstd::prelude::*;

verus! {

/// The number whose `k` binary digits are those of `i`, low digit first.
pub open spec fn reverse_bits(i: nat, k: nat) -> nat
    decreases k,
{
    if k == 0 {
        0
    } else {
        (i % 2) * pow2((k - 1) as nat) + reverse_bits(i / 2, (k - 1) as nat)
    }
}

/// The sequence that holds at each position `i` the element of `s` at the
/// position whose `k` binary digits are those of `i` reversed.
pub open spec fn bit_reversed<T>(s: Seq<T>, k: nat) -> Seq<T> {
    Seq::new(s.len(), |i: int| s[reverse_bits(i as nat, k) as int])
}

/// The number of times that `n` can be halved before it is 1 or less.
pub open spec fn log2(n: nat) -> nat
    decreases n,
{
    if n <= 1 {
        0
    } else {
        1 + log2(n / 2)
    }
}

/// `log2` undoes `pow2`.
pub proof fn lemma_log2_pow2(k: nat)
    ensures
        log2(pow2(k)) == k,
    decreases k,
{
    lemma2_to64();
    if k > 0 {
        lemma_pow2_unfold(k);
        lemma_pow2_pos((k - 1) as nat);
        lemma_log2_pow2((k - 1) as nat);
    }
}

/// A number reversed on `k` digits has `k` digits.
pub proof fn lemma_reverse_bits_bound(i: nat, k: nat)
    ensures
        reverse_bits(i, k) < pow2(k),
    decreases k,
{
    if k == 0 {
        lemma2_to64();
    } else {
        lemma_reverse_bits_bound(i / 2, (k - 1) as nat);
        lemma_pow2_unfold(k);
        assert((i % 2) * pow2((k - 1) as nat) <= pow2((k - 1) as nat)) by (nonlinear_arith)
            requires
                i % 2 <= 1,
        ;
    }
}

/// On one digit, reversing changes nothing.
pub proof fn lemma_reverse_bits_one_digit(i: nat)
    ensures
        reverse_bits(i, 1) == i % 2,
{
    lemma2_to64();
    assert(reverse_bits(i / 2, 0) == 0);
    assert(reverse_bits(i, 1) == (i % 2) * pow2(0) + reverse_bits(i / 2, 0));
}

/// The highest of `k` digits becomes the lowest when the digits are
/// reversed, and the digits below it move up by one place.
pub proof fn lemma_reverse_bits_high(x: nat, b: nat, k: nat)
    requires
        k >= 1,
        x < pow2((k - 1) as nat),
        b <= 1,
    ensures
        reverse_bits(x + b * pow2((k - 1) as nat), k) == 2 * reverse_bits(x, (k - 1) as nat) + b,
    decreases k,
{
    lemma2_to64();
    if k == 1 {
        assert(x == 0);
        assert(b * pow2(0) == b) by (nonlinear_arith)
            requires
                pow2(0) == 1,
        ;
        assert(reverse_bits(b / 2, 0) == 0);
        assert(reverse_bits(b, 1) == (b % 2) * pow2(0) + reverse_bits(b / 2, 0));
        assert((b % 2) * pow2(0) == b) by (nonlinear_arith)
            requires
                pow2(0) == 1,
                b <= 1,
        ;
    } else {
        let half = pow2((k - 2) as nat);
        let top = pow2((k - 1) as nat);
        lemma_pow2_unfold((k - 1) as nat);
        assert(top == 2 * half);
        let i = x + b * top;
        assert(b * top == 2 * (b * half)) by (nonlinear_arith)
            requires
                top == 2 * half,
        ;
        assert(i % 2 == x % 2 && i / 2 == x / 2 + b * half) by {
            lemma_fundamental_div_mod(x as int, 2);
            lemma_fundamental_div_mod(i as int, 2);
        }
        lemma_reverse_bits_high(x / 2, b, (k - 1) as nat);
        assert(reverse_bits(i, k) == (i % 2) * top + reverse_bits(i / 2, (k - 1) as nat));
        assert(reverse_bits(x, (k - 1) as nat) == (x % 2) * half + reverse_bits(
            x / 2,
            (k - 2) as nat,
        ));
        assert((x % 2) * top == 2 * ((x % 2) * half)) by (nonlinear_arith)
            requires
                top == 2 * half,
        ;
    }
}

/// Reversing the digits twice gives the number back.
pub proof fn lemma_reverse_bits_involution(i: nat, k: nat)
    requires
        i < pow2(k),
    ensures
        reverse_bits(reverse_bits(i, k), k) == i,
    decreases k,
{
    lemma2_to64();
    if k > 0 {
        let top = pow2((k - 1) as nat);
        let low = reverse_bits(i / 2, (k - 1) as nat);
        lemma_pow2_unfold(k);
        lemma_fundamental_div_mod(i as int, 2);
        lemma_reverse_bits_involution(i / 2, (k - 1) as nat);
        lemma_reverse_bits_bound(i / 2, (k - 1) as nat);
        lemma_reverse_bits_high(low, i % 2, k);
        assert(reverse_bits(i, k) == low + (i % 2) * top);
    }
}

/// Applying the bit-reversal permutation twice to a sequence of `2^k`
/// elements gives the sequence back.
pub proof fn lemma_bit_reversed_involution<T>(s: Seq<T>, k: nat)
    requires
        s.len() == pow2(k),
    ensures
        bit_reversed(bit_reversed(s, k), k) == s,
{
    let twice = bit_reversed(bit_reversed(s, k), k);
    assert forall|i: int| 0 <= i < s.len() implies twice[i] == s[i] by {
        lemma_reverse_bits_bound(i as nat, k);
        lemma_reverse_bits_involution(i as nat, k);
    }
    assert(twice =~= s);
}

/// A sequence of `2^k` elements in bit-reversed order is its first half in
/// bit-reversed order at the even positions, and its second half in
/// bit-reversed order at the odd ones.
pub proof fn lemma_bit_reversed_halves<T>(s: Seq<T>, k: nat)
    requires
        k >= 1,
        s.len() == pow2(k),
    ensures
        bit_reversed(s, k) == interleave(
            bit_reversed(s.subrange(0, s.len() as int / 2), (k - 1) as nat),
            bit_reversed(s.subrange(s.len() as int / 2, s.len() as int), (k - 1) as nat),
        ),
{
    let m = s.len() as int / 2;
    let first = bit_reversed(s.subrange(0, m), (k - 1) as nat);
    let second = bit_reversed(s.subrange(m, s.len() as int), (k - 1) as nat);
    lemma_pow2_unfold(k);
    assert forall|t: int| 0 <= t < s.len() implies bit_reversed(s, k)[t] == interleave(
        first,
        second,
    )[t] by {
        lemma_reverse_bits_bound((t / 2) as nat, (k - 1) as nat);
        assert(reverse_bits(t as nat, k) == (t as nat % 2) * pow2((k - 1) as nat) + reverse_bits(
            t as nat / 2,
            (k - 1) as nat,
        ));
        if t % 2 == 0 {
            assert((t as nat % 2) * pow2((k - 1) as nat) == 0);
        } else {
            assert((t as nat % 2) * pow2((k - 1) as nat) == m) by (nonlinear_arith)
                requires
                    t as nat % 2 == 1,
                    pow2((k - 1) as nat) == m,
            ;
        }
    }
    assert(bit_reversed(s, k) =~= interleave(first, second));
}

/// The number whose `k` binary digits are those of `i` reversed.
pub fn bit_reverse(i: usize, k: u32) -> (r: usize)
    requires
        pow2(k as nat) <= usize::MAX,
        i < pow2(k as nat),
    ensures
        r == reverse_bits(i as nat, k as nat),
{
    let mut r: usize = 0;
    let mut rest: usize = i;
    let mut j: u32 = 0;
    proof {
        lemma2_to64();
    }
    while j < k
        invariant
            j <= k,
            pow2(k as nat) <= usize::MAX,
            i < pow2(k as nat),
            rest == i as nat / pow2(j as nat),
            r == reverse_bits(i as nat % pow2(j as nat), j as nat),
        decreases k - j,
    {
        proof {
            let low = pow2(j as nat);
            lemma_pow2_pos(j as nat);
            lemma_pow2_unfold((j + 1) as nat);
            lemma_reverse_bits_bound(i as nat % low, j as nat);
            if j + 1 < k {
                vstd::arithmetic::power2::lemma_pow2_strictly_increases((j + 1) as nat, k as nat);
            }
            // i % (low * 2) == low * ((i / low) % 2) + i % low
            lemma_mod_breakdown(i as int, low as int, 2);
            assert(low * 2 == pow2((j + 1) as nat));
            assert(low * ((i as nat / low) % 2) == ((i as nat / low) % 2) * low)
                by (nonlinear_arith);
            lemma_reverse_bits_high(i as nat % low, (i as nat / low) % 2, (j + 1) as nat);
            // i / (low * 2) == (i / low) / 2
            vstd::arithmetic::div_mod::lemma_div_denominator(i as int, low as int, 2);
        }
        r = 2 * r + rest % 2;
        rest = rest / 2;
        j += 1;
    }
    proof {
        vstd::arithmetic::div_mod::lemma_small_mod(i as nat, pow2(k as nat));
    }
    r
}

/// Moves the element at each position to the position whose `k` binary
/// digits are those of the first reversed, in place.
pub fn swap_bit_reverse<T: Copy>(a: &mut [T], n: usize, k: u32)
    requires
        old(a)@.len() == n,
        n == pow2(k as nat),
    ensures
        final(a)@ == bit_reversed(old(a)@, k as nat),
{
    let ghost before = a@;
    let mut i: usize = 0;
    while i < n
        invariant
            i <= n,
            n == pow2(k as nat),
            a@.len() == n,
            before.len() == n,
            forall|j: int|
                0 <= j < n ==> #[trigger] a@[j] == if j < i || reverse_bits(j as nat, k as nat)
                    < i {
                    before[reverse_bits(j as nat, k as nat) as int]
                } else {
                    before[j]
                },
        decreases n - i,
    {
        let ri = bit_reverse(i, k);
        let ghost mid = a@;
        proof {
            lemma_reverse_bits_bound(i as nat, k as nat);
            lemma_reverse_bits_involution(i as nat, k as nat);
        }
        if i < ri {
            let t = a[i];
            a[i] = a[ri];
            a[ri] = t;
        }
        proof {
            assert forall|j: int| 0 <= j < n implies #[trigger] a@[j] == if j < i + 1
                || reverse_bits(j as nat, k as nat) < i + 1 {
                before[reverse_bits(j as nat, k as nat) as int]
            } else {
                before[j]
            } by {
                lemma_reverse_bits_involution(j as nat, k as nat);
                assert(mid[j] == if j < i || reverse_bits(j as nat, k as nat) < i {
                    before[reverse_bits(j as nat, k as nat) as int]
                } else {
                    before[j]
                });
                assert(mid[i as int] == if reverse_bits(i as nat, k as nat) < i {
                    before[reverse_bits(i as nat, k as nat) as int]
                } else {
                    before[i as int]
                });
                assert(mid[ri as int] == if ri < i || reverse_bits(ri as nat, k as nat) < i {
                    before[reverse_bits(ri as nat, k as nat) as int]
                } else {
                    before[ri as int]
                });
            }
        }
        i += 1;
    }
    proof {
        assert(a@ =~= bit_reversed(before, k as nat));
    }
}

} // verus!
