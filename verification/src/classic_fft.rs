//! The radix-2 transform over a multiplicative subgroup of two-power order.

pub mod utils;

use crate::bit_reverse::{
    bit_reversed, lemma_bit_reversed_halves, lemma_bit_reversed_involution, lemma_log2_pow2,
    lemma_reverse_bits_bound, lemma_reverse_bits_one_digit, log2, swap_bit_reverse,
};
use crate::classic_fft::utils::{butterfly_arithmetic, lemma_butterfly_round_trip};
use crate::modular::{
    interleave, lemma_add_congruent, lemma_mul_congruent, lemma_poly_eval_congruent,
    lemma_poly_eval_interleave, lemma_sub_congruent, poly_eval,
};
use crate::scalar::{values, Scalar, TwoAdic};
use rayon::join;
use vstd::arithmetic::div_mod::{
    lemma_mod_multiples_vanish, lemma_mod_twice, lemma_mul_mod_noop_left, lemma_small_mod,
};
use vstd::arithmetic::power::{
    lemma_pow_adds, lemma_pow_distributes, lemma_pow_mod_noop, lemma_pow_multiplies, lemma_pow0,
    lemma_pow1, pow,
};
use vstd::arithmetic::power2::{
    lemma2_to64, lemma2_to64_rest, lemma_pow2_adds, lemma_pow2_unfold, pow2,
};
use vstd::prelude::*;

verus! {

/// `table` holds, reduced modulo `p`, the powers of `g` with exponents
/// below its length, and the power of `g` whose exponent is that length is
/// `-1` modulo `p`.
pub open spec fn is_twiddle_table(table: Seq<int>, g: int, p: int) -> bool {
    &&& forall|i: int| 0 <= i < table.len() ==> #[trigger] table[i] == pow(g, i as nat) % p
    &&& pow(g, table.len()) % p == p - 1
}

/// `out` holds, reduced modulo `p`, the values of the polynomial with the
/// coefficients `coeffs` at the powers `x^0, x^1, ...` of `x`.
pub open spec fn is_transform_of(out: Seq<int>, coeffs: Seq<int>, x: int, p: int) -> bool {
    &&& out.len() == coeffs.len()
    &&& forall|i: int|
        0 <= i < out.len() ==> #[trigger] out[i] == poly_eval(coeffs, pow(x, i as nat)) % p
}

/// The butterflies of `l` and `r`, two sequences of one length: first the
/// sums `l[i] + w * r[i]`, then the differences `l[i] - w * r[i]`, where `w`
/// is the entry of `table` at `i * chunk`.
pub open spec fn butterflies(l: Seq<int>, r: Seq<int>, table: Seq<int>, chunk: int, p: int) -> Seq<
    int,
> {
    let h = l.len() as int;
    Seq::new(
        2 * l.len(),
        |i: int|
            if i < h {
                (l[i] + table[i * chunk] * r[i]) % p
            } else {
                (l[i - h] - table[(i - h) * chunk] * r[i - h]) % p
            },
    )
}

/// What the recursive transform makes of the values `a`, whatever `table`
/// holds: of two values their sum and their difference; of more, the
/// butterflies of the transforms of the two halves, which take every second
/// entry of those that this level takes.
pub open spec fn transform(a: Seq<int>, table: Seq<int>, chunk: int, p: int) -> Seq<int>
    decreases a.len(),
{
    if a.len() < 2 {
        a
    } else if a.len() == 2 {
        seq![(a[0] + a[1]) % p, (a[0] - a[1]) % p]
    } else {
        let h = a.len() as int / 2;
        butterflies(
            transform(a.subrange(0, h), table, 2 * chunk, p),
            transform(a.subrange(h, a.len() as int), table, 2 * chunk, p),
            table,
            chunk,
            p,
        )
    }
}

/// What the recursive transform needs: `n >= 2` values, `n` a power of two,
/// and, for more than two values, a table that reaches the last entry
/// taken, the one at `(n / 2 - 1) * twiddle_chunk`.
pub open spec fn transform_ready(len: nat, n: usize, twiddle_chunk: usize, table_len: nat) -> bool {
    &&& len == n
    &&& n >= 2
    &&& n == pow2(log2(n as nat))
    &&& n == 2 || (n / 2 - 1) * twiddle_chunk < table_len
}

/// What the recursive transform does.
pub open spec fn transformed<F: Scalar>(
    before: Seq<F>,
    after: Seq<F>,
    twiddle_chunk: usize,
    twiddles: Seq<F>,
) -> bool {
    &&& after.len() == before.len()
    &&& values(after) == transform(
        values(before),
        values(twiddles),
        twiddle_chunk as int,
        F::modulus(),
    )
}

/// The transform keeps the number of values, where it is a power of two.
pub proof fn lemma_transform_len(a: Seq<int>, table: Seq<int>, chunk: int, p: int, j: nat)
    requires
        a.len() == pow2(j),
    ensures
        transform(a, table, chunk, p).len() == a.len(),
    decreases j,
{
    lemma2_to64();
    if j > 1 {
        let h = a.len() as int / 2;
        lemma_pow2_unfold(j);
        lemma_pow2_unfold((j - 1) as nat);
        lemma_transform_len(a.subrange(0, h), table, 2 * chunk, p, (j - 1) as nat);
        lemma_transform_len(a.subrange(h, a.len() as int), table, 2 * chunk, p, (j - 1) as nat);
    }
}

/// One butterfly: from the values `l` and `r` of the even and the odd part
/// at `y^2`, the values of the whole polynomial at `y` and at `-y`.
pub proof fn lemma_butterfly_point(
    e: Seq<int>,
    o: Seq<int>,
    y: int,
    minus_y: int,
    l: int,
    r: int,
    t: int,
    p: int,
)
    requires
        p > 1,
        e.len() == o.len(),
        l % p == poly_eval(e, y * y) % p,
        r % p == poly_eval(o, y * y) % p,
        t % p == y % p,
        minus_y % p == (-y) % p,
    ensures
        (l + t * r) % p == poly_eval(interleave(e, o), y) % p,
        (l - t * r) % p == poly_eval(interleave(e, o), minus_y) % p,
{
    let ev = poly_eval(e, y * y);
    let ov = poly_eval(o, y * y);
    lemma_poly_eval_interleave(e, o, y);
    lemma_mul_congruent(t, r, y, ov, p);
    lemma_add_congruent(l, t * r, ev, y * ov, p);
    lemma_poly_eval_congruent(interleave(e, o), minus_y, -y, p);
    lemma_poly_eval_interleave(e, o, -y);
    assert((-y) * (-y) == y * y) by (nonlinear_arith);
    assert(ev + (-y) * ov == ev - y * ov) by (nonlinear_arith);
    lemma_sub_congruent(l, t * r, ev, y * ov, p);
}

/// `(p - 1) * y` is `-y` modulo `p`.
proof fn lemma_times_minus_one(x: int, y: int, p: int)
    requires
        p > 1,
        x % p == p - 1,
    ensures
        (x * y) % p == (-y) % p,
{
    lemma_small_mod((p - 1) as nat, p as nat);
    lemma_mul_congruent(x, y, p - 1, y, p);
    assert((p - 1) * y == p * y + (-y)) by (nonlinear_arith);
    lemma_mod_multiples_vanish(y, -y, p);
}

/// The transform of two values is their values at 1 and at `w`, where `w`
/// is `-1` modulo `p`.
proof fn lemma_transform_of_two(a: Seq<int>, table: Seq<int>, chunk: int, w: int, p: int)
    requires
        p > 1,
        a.len() == 2,
        w % p == p - 1,
    ensures
        is_transform_of(transform(a, table, chunk, p), bit_reversed(a, 1), w, p),
{
    let e = seq![a[0]];
    let o = seq![a[1]];
    lemma2_to64();
    assert(bit_reversed(a, 1) =~= a) by {
        lemma_reverse_bits_one_digit(0);
        lemma_reverse_bits_one_digit(1);
    }
    assert(interleave(e, o) =~= a);
    lemma_pow0(w);
    lemma_pow1(w);
    assert(poly_eval(e, 1) == a[0] && poly_eval(o, 1) == a[1]) by {
        lemma_pow0(1);
        assert(e.drop_last().len() == 0);
        assert(o.drop_last().len() == 0);
        assert(poly_eval(e.drop_last(), 1) == 0);
        assert(poly_eval(o.drop_last(), 1) == 0);
    }
    assert(w % p == (-1int) % p) by {
        lemma_times_minus_one(w, 1, p);
    }
    lemma_butterfly_point(e, o, 1, w, a[0], a[1], 1, p);
}

/// The transform evaluates: where the entries of `table` at the multiples
/// of `chunk` are the powers of `w`, and the power of `w` with half the
/// number of values as exponent is `-1`, the transform of `a` holds the
/// values at the powers of `w` of the polynomial whose coefficients are `a`
/// in bit-reversed order. The other entries of the table do not matter.
pub proof fn lemma_transform_evaluates(
    a: Seq<int>,
    table: Seq<int>,
    chunk: int,
    w: int,
    j: nat,
    p: int,
)
    requires
        p > 1,
        j >= 1,
        a.len() == pow2(j),
        forall|i: int|
            0 <= i < a.len() / 2 ==> (#[trigger] table[i * chunk]) % p == pow(w, i as nat) % p,
        pow(w, a.len() / 2) % p == p - 1,
    ensures
        is_transform_of(transform(a, table, chunk, p), bit_reversed(a, j), w, p),
    decreases j,
{
    lemma2_to64();
    lemma_pow2_unfold(j);
    if j == 1 {
        lemma_pow1(w);
        lemma_transform_of_two(a, table, chunk, w, p);
    } else {
        let m = a.len() as int / 2;
        let first = a.subrange(0, m);
        let second = a.subrange(m, a.len() as int);
        let e = bit_reversed(first, (j - 1) as nat);
        let o = bit_reversed(second, (j - 1) as nat);
        let l1 = transform(first, table, 2 * chunk, p);
        let r1 = transform(second, table, 2 * chunk, p);
        let out = transform(a, table, chunk, p);
        lemma_pow2_unfold((j - 1) as nat);
        // the halves take every second entry, the powers of w * w
        assert forall|i: int| 0 <= i < m / 2 implies (#[trigger] table[i * (2 * chunk)]) % p == pow(
            w * w,
            i as nat,
        ) % p by {
            assert(i * (2 * chunk) == (2 * i) * chunk) by (nonlinear_arith);
            assert(table[(2 * i) * chunk] % p == pow(w, (2 * i) as nat) % p);
            lemma_pow_distributes(w, w, i as nat);
            lemma_pow_adds(w, i as nat, i as nat);
        }
        assert(pow(w * w, (m / 2) as nat) % p == p - 1) by {
            lemma_pow_distributes(w, w, (m / 2) as nat);
            lemma_pow_adds(w, (m / 2) as nat, (m / 2) as nat);
            assert((m / 2) as nat + (m / 2) as nat == m as nat);
            assert(m as nat == a.len() / 2);
        }
        lemma_transform_evaluates(first, table, 2 * chunk, w * w, (j - 1) as nat, p);
        lemma_transform_evaluates(second, table, 2 * chunk, w * w, (j - 1) as nat, p);
        lemma_transform_len(first, table, 2 * chunk, p, (j - 1) as nat);
        lemma_transform_len(second, table, 2 * chunk, p, (j - 1) as nat);
        lemma_bit_reversed_halves(a, j);
        assert forall|i: int| 0 <= i < m implies #[trigger] out[i] == poly_eval(
            interleave(e, o),
            pow(w, i as nat),
        ) % p && out[i + m] == poly_eval(interleave(e, o), pow(w, (i + m) as nat)) % p by {
            let y = pow(w, i as nat);
            let minus_y = pow(w, (i + m) as nat);
            assert(table[i * chunk] % p == y % p);
            // the halves were evaluated at y * y
            assert(pow(w * w, i as nat) == y * y) by {
                lemma_pow_distributes(w, w, i as nat);
            }
            assert(l1[i] == poly_eval(e, y * y) % p);
            assert(r1[i] == poly_eval(o, y * y) % p);
            lemma_mod_twice(poly_eval(e, y * y), p);
            lemma_mod_twice(poly_eval(o, y * y), p);
            // w^(i + m) is -y
            assert(minus_y % p == (-y) % p) by {
                lemma_pow_adds(w, m as nat, i as nat);
                assert((m + i) as nat == (i + m) as nat);
                lemma_times_minus_one(pow(w, m as nat), y, p);
            }
            lemma_butterfly_point(e, o, y, minus_y, l1[i], r1[i], table[i * chunk], p);
            assert(out[i] == (l1[i] + table[i * chunk] * r1[i]) % p);
            assert(out[i + m] == (l1[i] - table[i * chunk] * r1[i]) % p);
        }
        assert forall|i: int| 0 <= i < out.len() implies #[trigger] out[i] == poly_eval(
            bit_reversed(a, j),
            pow(w, i as nat),
        ) % p by {
            if i >= m {
                let low = i - m;
                assert(out[low] == poly_eval(interleave(e, o), pow(w, low as nat)) % p);
                assert(low + m == i);
            }
        }
    }
}

/// The transform of two values can be undone: where `half` is the inverse
/// of 2 modulo `p`, the two values come back as half the sum and half the
/// difference of their transform.
pub proof fn lemma_transform_of_two_round_trip(
    a: Seq<int>,
    table: Seq<int>,
    chunk: int,
    p: int,
    half: int,
)
    requires
        p > 1,
        a.len() == 2,
        (2 * half) % p == 1,
    ensures
        ({
            let out = transform(a, table, chunk, p);
            &&& out == seq![(a[0] + a[1]) % p, (a[0] - a[1]) % p]
            &&& (half * (out[0] + out[1])) % p == a[0] % p
            &&& (half * (out[0] - out[1])) % p == a[1] % p
        }),
{
    let out = transform(a, table, chunk, p);
    lemma_small_mod(1, p as nat);
    lemma_butterfly_round_trip(a[0], a[1], 1, 1, half, p);
    assert(a[0] + 1 * a[1] == a[0] + a[1] && a[0] - 1 * a[1] == a[0] - a[1]);
    assert(half * 1 * (out[0] - out[1]) == half * (out[0] - out[1])) by (nonlinear_arith);
}

/// The last step of the transform of four or more values is a butterfly
/// of the transforms `l` and `r` of the two halves, and it can be undone:
/// where `w_inv` is the inverse of the factor taken for the pair `i`, and
/// `half` that of 2, both modulo `p`, the pair `(l[i], r[i])` comes back from
/// the two results at `i` and at `i` plus half the number of values.
pub proof fn lemma_transform_round_trip(
    a: Seq<int>,
    table: Seq<int>,
    chunk: int,
    p: int,
    j: nat,
    i: int,
    w_inv: int,
    half: int,
)
    requires
        p > 1,
        j >= 2,
        a.len() == pow2(j),
        0 <= i < a.len() / 2,
        (table[i * chunk] * w_inv) % p == 1,
        (2 * half) % p == 1,
    ensures
        ({
            let m = a.len() as int / 2;
            let out = transform(a, table, chunk, p);
            let l = transform(a.subrange(0, m), table, 2 * chunk, p);
            let r = transform(a.subrange(m, a.len() as int), table, 2 * chunk, p);
            &&& out[i] == (l[i] + table[i * chunk] * r[i]) % p
            &&& out[i + m] == (l[i] - table[i * chunk] * r[i]) % p
            &&& (half * (out[i] + out[i + m])) % p == l[i] % p
            &&& (half * w_inv * (out[i] - out[i + m])) % p == r[i] % p
        }),
{
    let m = a.len() as int / 2;
    let l = transform(a.subrange(0, m), table, 2 * chunk, p);
    let r = transform(a.subrange(m, a.len() as int), table, 2 * chunk, p);
    lemma2_to64();
    lemma_pow2_unfold(j);
    lemma_pow2_unfold((j - 1) as nat);
    lemma_transform_len(a.subrange(0, m), table, 2 * chunk, p, (j - 1) as nat);
    lemma_transform_len(a.subrange(m, a.len() as int), table, 2 * chunk, p, (j - 1) as nat);
    lemma_butterfly_round_trip(l[i], r[i], table[i * chunk], w_inv, half, p);
}

/// The bit-reversed order of the values is the values of the bit-reversed
/// order.
proof fn lemma_values_bit_reversed<F: Scalar>(s: Seq<F>, k: nat)
    requires
        s.len() == pow2(k),
    ensures
        values(bit_reversed(s, k)) == bit_reversed(values(s), k),
{
    assert forall|i: int| 0 <= i < s.len() implies values(bit_reversed(s, k))[i] == bit_reversed(
        values(s),
        k,
    )[i] by {
        lemma_reverse_bits_bound(i as nat, k);
    }
    assert(values(bit_reversed(s, k)) =~= bit_reversed(values(s), k));
}

/// The transform is the evaluation at the powers of the generator: where
/// `domain` holds the powers of `g` in rising order, what the transform
/// makes of `coeffs` and what evaluating `coeffs` on `domain` point by point
/// gives stand for the same integers.
pub proof fn lemma_transform_is_evaluation<F: Scalar>(
    coeffs: Seq<F>,
    transform: Seq<F>,
    domain: Seq<F>,
    evaluation: Seq<F>,
    g: int,
)
    requires
        is_transform_of(values(transform), values(coeffs), g, F::modulus()),
        domain.len() == coeffs.len(),
        forall|i: int|
            0 <= i < domain.len() ==> (#[trigger] domain[i]).value() == pow(g, i as nat)
                % F::modulus(),
        evaluation.len() == domain.len(),
        forall|i: int|
            0 <= i < evaluation.len() ==> (#[trigger] evaluation[i]).value() == poly_eval(
                values(coeffs),
                domain[i].value(),
            ) % F::modulus(),
    ensures
        values(transform) == values(evaluation),
{
    let p = F::modulus();
    F::lemma_modulus();
    assert forall|i: int| 0 <= i < transform.len() implies values(transform)[i] == values(
        evaluation,
    )[i] by {
        lemma_mod_twice(pow(g, i as nat), p);
        lemma_poly_eval_congruent(values(coeffs), domain[i].value(), pow(g, i as nat), p);
    }
    assert(values(transform) =~= values(evaluation));
}

// classic fft structure
#[derive(Debug)]
pub struct ClassicFft<F: TwoAdic> {
    // polynomial degree 2^k
    k: u32,
    // generator which generates order 2^k multiplicative group used as twiddle factors
    multiplicative_generator: F,
}

/// `2^e` as a machine integer.
fn two_to_the(e: u32) -> (r: u64)
    requires
        e < 64,
    ensures
        r == pow2(e as nat),
{
    let mut r: u64 = 1;
    let mut i: u32 = 0;
    proof {
        lemma2_to64();
    }
    while i < e
        invariant
            i <= e < 64,
            r == pow2(i as nat),
        decreases e - i,
    {
        proof {
            lemma_pow2_unfold((i + 1) as nat);
            lemma2_to64();
            lemma2_to64_rest();
            if i + 1 < 63 {
                vstd::arithmetic::power2::lemma_pow2_strictly_increases((i + 1) as nat, 63);
            }
        }
        r = 2 * r;
        i += 1;
    }
    r
}

impl<F: TwoAdic> Clone for ClassicFft<F> {
    fn clone(&self) -> (r: Self)
        ensures
            r == *self,
    {
        ClassicFft { k: self.k, multiplicative_generator: self.multiplicative_generator }
    }
}

impl<F: TwoAdic> ClassicFft<F> {
    /// The size exponent: the transform takes `2^k` values.
    pub closed spec fn k(&self) -> nat {
        self.k as nat
    }

    /// The value of the generator of the subgroup of order `2^k`.
    pub closed spec fn generator(&self) -> int {
        self.multiplicative_generator.value()
    }

    /// The generator's power with the exponent `2^(k-1)` is `-1`, so that
    /// its order is exactly `2^k`.
    pub open spec fn wf(&self) -> bool {
        &&& self.k() <= F::two_adicity()
        &&& self.k() >= 1 ==> pow(self.generator(), pow2((self.k() - 1) as nat)) % F::modulus()
            == F::modulus() - 1
    }

    pub fn new(k: u32) -> (r: Self)
        requires
            k <= F::two_adicity(),
        ensures
            r.wf(),
            r.k() == k,
            r.generator() == pow(
                F::root_of_unity_value(),
                pow2((F::two_adicity() - k) as nat),
            ) % F::modulus(),
    {
        let unity_of_root = F::root_of_unity();
        proof {
            F::lemma_root_of_unity();
            F::lemma_modulus();
        }
        let k_diff: u32 = F::s() - k;
        let multiplicative_generator = unity_of_root.pow_vartime(two_to_the(k_diff));
        proof {
            if k >= 1 {
                let root = F::root_of_unity_value();
                let low = pow2(k_diff as nat);
                let high = pow2((k - 1) as nat);
                lemma_pow_mod_noop(pow(root, low), high, F::modulus());
                lemma_pow_multiplies(root, low, high);
                lemma_pow2_adds(k_diff as nat, (k - 1) as nat);
            }
        }
        ClassicFft { k, multiplicative_generator }
    }

    // perform classic fft
    pub fn fft(self, coeffs: &mut [F])
        requires
            self.wf(),
            old(coeffs)@.len() == pow2(self.k()),
        ensures
            is_transform_of(
                values(final(coeffs)@),
                values(old(coeffs)@),
                self.generator(),
                F::modulus(),
            ),
    {
        let n: usize = coeffs.len();
        let ghost input = coeffs@;
        let ghost g = self.generator();
        let ghost p = F::modulus();
        proof {
            F::lemma_modulus();
            lemma2_to64();
        }
        if n == 1 {
            proof {
                let x = pow(g, 0);
                assert(values(input).drop_last().len() == 0);
                assert(poly_eval(values(input).drop_last(), x) == 0);
                lemma_pow0(x);
                input[0].lemma_value_reduced();
                lemma_small_mod(input[0].value() as nat, p as nat);
            }
            return ;
        }
        proof {
            lemma_pow2_unfold(self.k());
            lemma_log2_pow2(self.k());
        }

        swap_bit_reverse(coeffs, n, self.k);

        // precompute twiddle factors
        let mut twiddle_factors: Vec<F> = Vec::with_capacity(n / 2);
        let mut w = F::one();
        let mut i: usize = 0;
        proof {
            lemma_pow0(g);
            lemma_small_mod(1, p as nat);
        }
        while i < n / 2
            invariant
                i <= n / 2,
                p == F::modulus(),
                p > 1,
                g == self.multiplicative_generator.value(),
                twiddle_factors@.len() == i,
                w.value() == pow(g, i as nat) % p,
                forall|j: int|
                    0 <= j < i ==> (#[trigger] twiddle_factors@[j]).value() == pow(g, j as nat) % p,
            decreases n / 2 - i,
        {
            twiddle_factors.push(w);
            proof {
                lemma_mul_mod_noop_left(pow(g, i as nat), g, p);
                lemma_pow_adds(g, i as nat, 1);
                lemma_pow1(g);
            }
            w = w.mul(&self.multiplicative_generator);
            i += 1;
        }
        let ghost reordered = values(coeffs@);
        let ghost table = values(twiddle_factors@);
        classic_fft(coeffs, n, 1, twiddle_factors.as_slice());
        proof {
            assert forall|i: int| 0 <= i < n / 2 implies (#[trigger] table[i * 1]) % p == pow(
                g,
                i as nat,
            ) % p by {
                lemma_mod_twice(pow(g, i as nat), p);
            }
            lemma_transform_evaluates(reordered, table, 1, g, self.k(), p);
            lemma_values_bit_reversed(input, self.k());
            lemma_bit_reversed_involution(values(input), self.k());
        }
    }
}

/// `rayon::join` on the transforms of two disjoint halves: both run to
/// completion, each as `classic_fft` does on its half. The recursion of
/// `classic_fft` passes through here.
#[verifier::external_body]
fn transform_halves<F: Scalar>(
    left: &mut [F],
    right: &mut [F],
    n: usize,
    twiddle_chunk: usize,
    twiddles: &[F],
)
    requires
        transform_ready(old(left)@.len(), n, twiddle_chunk, twiddles@.len()),
        transform_ready(old(right)@.len(), n, twiddle_chunk, twiddles@.len()),
    ensures
        transformed(old(left)@, final(left)@, twiddle_chunk, twiddles@),
        transformed(old(right)@, final(right)@, twiddle_chunk, twiddles@),
{
    join(
        || classic_fft(left, n, twiddle_chunk, twiddles),
        || classic_fft(right, n, twiddle_chunk, twiddles),
    );
}

// classic fft using divide and conquer algorithm
pub fn classic_fft<F: Scalar>(coeffs: &mut [F], n: usize, twiddle_chunk: usize, twiddles: &[F])
    requires
        transform_ready(old(coeffs)@.len(), n, twiddle_chunk, twiddles@.len()),
    ensures
        transformed(old(coeffs)@, final(coeffs)@, twiddle_chunk, twiddles@),
{
    let table_len: usize = twiddles.len();
    let ghost before = coeffs@;
    let ghost p = F::modulus();
    let ghost j = log2(n as nat);
    proof {
        lemma2_to64();
    }
    if n == 2 {
        let t = coeffs[1];
        coeffs[1] = coeffs[0];
        coeffs[0] = coeffs[0].add(&t);
        coeffs[1] = coeffs[1].sub(&t);
        proof {
            assert(values(coeffs@) =~= transform(
                values(before),
                values(twiddles@),
                twiddle_chunk as int,
                p,
            ));
        }
    } else {
        proof {
            assert(j >= 2) by {
                lemma_log2_pow2(0);
                lemma_log2_pow2(1);
            }
            lemma_pow2_unfold(j);
            lemma_log2_pow2((j - 1) as nat);
            if n > 4 {
                lemma_pow2_unfold((j - 1) as nat);
                assert(2 * twiddle_chunk < table_len && (n / 4 - 1) * (2 * twiddle_chunk)
                    < table_len) by (nonlinear_arith)
                    requires
                        (n / 2 - 1) * twiddle_chunk < table_len,
                        n / 2 == 2 * (n / 4),
                        n / 4 >= 2,
                ;
            }
        }
        // two values are combined without the table: for them the chunk is
        // not doubled, as it need not fit the machine's integers
        let half_chunk: usize = if n > 4 {
            twiddle_chunk * 2
        } else {
            twiddle_chunk
        };
        let (left, right) = coeffs.split_at_mut(n / 2);
        transform_halves(left, right, n / 2, half_chunk, twiddles);
        let ghost l1 = left@;
        let ghost r1 = right@;
        butterfly_arithmetic(left, right, twiddle_chunk, twiddles);
        proof {
            let a = values(before);
            let table = values(twiddles@);
            let m = n as int / 2;
            assert(a.subrange(0, m) =~= values(before.subrange(0, m)));
            assert(a.subrange(m, n as int) =~= values(before.subrange(m, n as int)));
            // the transform of two values does not depend on the chunk
            assert(values(l1) == transform(a.subrange(0, m), table, 2 * twiddle_chunk, p));
            assert(values(r1) == transform(a.subrange(m, n as int), table, 2 * twiddle_chunk, p));
            assert forall|i: int| 0 <= i < m implies 0 <= #[trigger] (i * twiddle_chunk)
                < table_len by {
                assert(0 <= i * twiddle_chunk <= (m - 1) * twiddle_chunk) by (nonlinear_arith)
                    requires
                        0 <= i < m,
                        twiddle_chunk >= 0,
                ;
            }
            assert(values(left@ + right@) =~= butterflies(
                values(l1),
                values(r1),
                table,
                twiddle_chunk as int,
                p,
            ));
        }
    }
}

} // verus!
