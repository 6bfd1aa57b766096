//! Polynomials over a prime field, tagged with the basis they are written in.

use crate::modular::{
    lemma_add_congruent, lemma_mul_congruent, lemma_poly_eval_coefficients_congruent,
    lemma_poly_eval_horner, lemma_poly_eval_shifted, lemma_poly_eval_sum, poly_eval, shifted,
};
use vstd::arithmetic::power::pow;
use crate::scalar::{copy_of, values, Scalar};
use std::fmt::Debug;
use std::marker::PhantomData;
use vstd::arithmetic::div_mod::{lemma_add_mod_noop, lemma_mod_twice, lemma_small_mod};
use vstd::prelude::*;
use vstd::std_specs::cmp::PartialEqSpecImpl;

verus! {

/// The basis over which a polynomial is described.
pub trait Basis: Copy + Debug + Send + Sync {

}

/// The polynomial coefficient representation
#[derive(Clone, Copy, Debug)]
pub struct Coefficients;

impl Basis for Coefficients {

}

/// The polynomial point-value representation
#[derive(Clone, Copy, Debug)]
pub struct PointValue;

impl Basis for PointValue {

}

/// A sequence of field elements: coefficients by rising degree, or values
/// at the points of a domain, as the tag says.
#[derive(Debug)]
pub struct Polynomial<F, B> {
    pub(crate) values: Vec<F>,
    pub(crate) _marker: PhantomData<B>,
}

/// The sum of `a[i] * b[k - i]` over the `i` below `upto` for which both
/// indices are in range.
pub open spec fn convolution_upto(a: Seq<int>, b: Seq<int>, k: int, upto: nat) -> int
    decreases upto,
{
    if upto == 0 {
        0
    } else {
        convolution_upto(a, b, k, (upto - 1) as nat) + convolution_term(a, b, k, upto - 1, b.len())
    }
}

/// The term `a[i] * b[k - i]`, or 0 where `k - i` is not below `bound`.
pub open spec fn convolution_term(a: Seq<int>, b: Seq<int>, k: int, i: int, bound: nat) -> int {
    if 0 <= k - i < bound {
        a[i] * b[k - i]
    } else {
        0
    }
}

/// The coefficient of `x^k` in the product of the polynomials `a` and `b`.
pub open spec fn product_coefficient(a: Seq<int>, b: Seq<int>, k: int) -> int {
    convolution_upto(a, b, k, a.len())
}

/// The coefficients of the product of the polynomials `a` and `b`, one for
/// each of `a.len() + b.len()` places.
pub open spec fn product(a: Seq<int>, b: Seq<int>) -> Seq<int> {
    Seq::new(a.len() + b.len(), |k: int| product_coefficient(a, b, k))
}

/// The sum up to `upto` reads no coefficient of `a` from `upto` on.
proof fn lemma_convolution_reads_prefix(a: Seq<int>, b: Seq<int>, k: int, upto: nat)
    requires
        upto < a.len(),
    ensures
        convolution_upto(a, b, k, upto) == convolution_upto(a.drop_last(), b, k, upto),
    decreases upto,
{
    if upto > 0 {
        lemma_convolution_reads_prefix(a, b, k, (upto - 1) as nat);
    }
}

/// Past the highest degree of the product, the sum is zero.
proof fn lemma_convolution_top(a: Seq<int>, b: Seq<int>, k: int, upto: nat)
    requires
        k >= upto + b.len() - 1,
    ensures
        convolution_upto(a, b, k, upto) == 0,
    decreases upto,
{
    if upto > 0 {
        lemma_convolution_top(a, b, k, (upto - 1) as nat);
    }
}

/// The product of coefficients is the product of polynomials: at every
/// point, it takes the product of the values of `a` and `b`.
pub proof fn lemma_product_evaluates(a: Seq<int>, b: Seq<int>, x: int)
    ensures
        poly_eval(product(a, b), x) == poly_eval(a, x) * poly_eval(b, x),
    decreases a.len(),
{
    let whole = product(a, b);
    if a.len() == 0 {
        lemma_poly_eval_shifted(b, 0, 0, x);
        assert(whole =~= shifted(b, 0, 0));
        assert(0 * pow(x, 0) * poly_eval(b, x) == 0) by (nonlinear_arith);
        assert(0 * poly_eval(b, x) == 0);
    } else {
        let init = a.drop_last();
        let top = (a.len() - 1) as nat;
        // the terms of all coefficients of `a` but the last
        let lower = product(init, b).push(0);
        // the terms of the last coefficient
        let upper = shifted(b, a.last(), top).push(0);
        assert forall|k: int| 0 <= k < whole.len() implies whole[k] == lower[k] + upper[k] by {
            lemma_convolution_reads_prefix(a, b, k, top);
            if k == whole.len() - 1 {
                lemma_convolution_top(init, b, k, top);
            }
        }
        assert(whole =~= Seq::new(lower.len(), |k: int| lower[k] + upper[k]));
        lemma_poly_eval_sum(lower, upper, x);
        assert(lower.drop_last() =~= product(init, b));
        assert(upper.drop_last() =~= shifted(b, a.last(), top));
        lemma_product_evaluates(init, b, x);
        lemma_poly_eval_shifted(b, a.last(), top, x);
        assert(poly_eval(lower, x) == poly_eval(init, x) * poly_eval(b, x));
        assert(poly_eval(upper, x) == a.last() * pow(x, top) * poly_eval(b, x));
        assert(poly_eval(init, x) * poly_eval(b, x) + a.last() * pow(x, top) * poly_eval(b, x) == (
        poly_eval(init, x) + a.last() * pow(x, top)) * poly_eval(b, x)) by (nonlinear_arith);
    }
}

/// What `naive_multiply` makes of `a` and `b` takes, at every point, the
/// product of the values of `a` and `b`, modulo the field's modulus.
pub proof fn lemma_naive_multiply_evaluates<F: Scalar>(a: Seq<F>, b: Seq<F>, c: Seq<F>, x: int)
    requires
        c.len() == a.len() + b.len(),
        forall|k: int|
            0 <= k < c.len() ==> (#[trigger] c[k]).value() == product_coefficient(
                values(a),
                values(b),
                k,
            ) % F::modulus(),
    ensures
        poly_eval(values(c), x) % F::modulus() == (poly_eval(values(a), x) * poly_eval(
            values(b),
            x,
        )) % F::modulus(),
{
    let p = F::modulus();
    let exact = product(values(a), values(b));
    F::lemma_modulus();
    assert forall|k: int| 0 <= k < c.len() implies #[trigger] values(c)[k] % p == exact[k] % p by {
        lemma_mod_twice(exact[k], p);
    }
    lemma_poly_eval_coefficients_congruent(values(c), exact, x, p);
    lemma_product_evaluates(values(a), values(b), x);
}

impl<F: Scalar, B: Basis> View for Polynomial<F, B> {
    type V = Seq<F>;

    closed spec fn view(&self) -> Seq<F> {
        self.values@
    }
}

impl<F: Scalar, B: Basis> Clone for Polynomial<F, B> {
    fn clone(&self) -> (r: Self)
        ensures
            r@ == self@,
    {
        Polynomial { values: copy_of(&self.values), _marker: PhantomData }
    }
}

impl<F: Scalar, B: Basis> PartialEq for Polynomial<F, B> {
    fn eq(&self, other: &Self) -> (r: bool) {
        let n: usize = self.values.len();
        if n != other.values.len() {
            assert(values(self@).len() != values(other@).len());
            return false;
        }
        let mut i: usize = 0;
        while i < n
            invariant
                n == self.values@.len(),
                n == other.values@.len(),
                i <= n,
                forall|j: int| 0 <= j < i ==> self.values@[j].value() == other.values@[j].value(),
            decreases n - i,
        {
            if !self.values[i].equals(&other.values[i]) {
                assert(values(self@)[i as int] != values(other@)[i as int]);
                return false;
            }
            i += 1;
        }
        assert(values(self@) =~= values(other@));
        true
    }
}

impl<F: Scalar, B: Basis> PartialEqSpecImpl for Polynomial<F, B> {
    open spec fn obeys_eq_spec() -> bool {
        true
    }

    /// Two polynomials are equal where their elements stand for the same
    /// integers, position by position.
    open spec fn eq_spec(&self, other: &Self) -> bool {
        values(self@) == values(other@)
    }
}

impl<F: Scalar, B: Basis> Polynomial<F, B> {
    pub fn new(coeffs: Vec<F>) -> (r: Polynomial<F, Coefficients>)
        ensures
            r@ == coeffs@,
    {
        Polynomial { values: coeffs, _marker: PhantomData }
    }

    pub fn get_values(self) -> (r: Vec<F>)
        ensures
            r@ == self@,
    {
        self.values
    }

    /// The elements themselves, to be worked on in place.
    pub(crate) fn values_mut(&mut self) -> (r: &mut Vec<F>)
        ensures
            r@ == old(self)@,
            final(self)@ == final(r)@,
    {
        &mut self.values
    }

    // order(n) polynomials points multiplication
    pub fn point_multiply(self, b: Polynomial<F, PointValue>) -> (r: Polynomial<F, PointValue>)
        requires
            self@.len() == b@.len(),
        ensures
            r@.len() == self@.len(),
            forall|i: int|
                0 <= i < r@.len() ==> (#[trigger] r@[i]).value() == (self@[i].value()
                    * b@[i].value()) % F::modulus(),
    {
        let n: usize = self.values.len();
        let mut products: Vec<F> = Vec::with_capacity(n);
        let mut i: usize = 0;
        while i < n
            invariant
                n == self.values@.len(),
                n == b.values@.len(),
                i <= n,
                products@.len() == i,
                forall|j: int|
                    0 <= j < i ==> (#[trigger] products@[j]).value() == (self.values@[j].value()
                        * b.values@[j].value()) % F::modulus(),
            decreases n - i,
        {
            products.push(self.values[i].mul(&b.values[i]));
            i += 1;
        }
        Polynomial { values: products, _marker: PhantomData }
    }

    // order(n^2) polynomials coefficients multiplication
    pub fn naive_multiply(self, b: Polynomial<F, Coefficients>) -> (r: Polynomial<F, PointValue>)
        requires
            self@.len() + b@.len() <= usize::MAX,
        ensures
            r@.len() == self@.len() + b@.len(),
            forall|k: int|
                0 <= k < r@.len() ==> (#[trigger] r@[k]).value() == product_coefficient(
                    values(self@),
                    values(b@),
                    k,
                ) % F::modulus(),
    {
        let len_a: usize = self.values.len();
        let len_b: usize = b.values.len();
        let ghost va = values(self.values@);
        let ghost vb = values(b.values@);
        let ghost p = F::modulus();
        proof {
            F::lemma_modulus();
        }
        let mut c: Vec<F> = Vec::with_capacity(len_a + len_b);
        let mut k: usize = 0;
        while k < len_a + len_b
            invariant
                len_a + len_b <= usize::MAX,
                k <= len_a + len_b,
                c@.len() == k,
                p == F::modulus(),
                p > 1,
                forall|j: int| 0 <= j < k ==> (#[trigger] c@[j]).value() == 0,
            decreases len_a + len_b - k,
        {
            c.push(F::zero());
            k += 1;
        }
        proof {
            assert forall|j: int| 0 <= j < c@.len() implies (#[trigger] c@[j]).value()
                == convolution_upto(va, vb, j, 0) % p by {
                lemma_small_mod(0, p as nat);
            }
        }
        let mut i_a: usize = 0;
        while i_a < len_a
            invariant
                len_a == self.values@.len(),
                len_b == b.values@.len(),
                va == values(self.values@),
                vb == values(b.values@),
                p == F::modulus(),
                p > 1,
                i_a <= len_a,
                len_a + len_b <= usize::MAX,
                c@.len() == len_a + len_b,
                forall|j: int|
                    0 <= j < c@.len() ==> (#[trigger] c@[j]).value() == convolution_upto(
                        va,
                        vb,
                        j,
                        i_a as nat,
                    ) % p,
            decreases len_a - i_a,
        {
            let coeff_a = self.values[i_a];
            let mut i_b: usize = 0;
            proof {
                assert forall|j: int| 0 <= j < c@.len() implies (#[trigger] c@[j]).value() == (
                convolution_upto(va, vb, j, i_a as nat) + convolution_term(
                    va,
                    vb,
                    j,
                    i_a as int,
                    0,
                )) % p by {}
            }
            while i_b < len_b
                invariant
                    len_a == self.values@.len(),
                    len_b == b.values@.len(),
                    va == values(self.values@),
                    vb == values(b.values@),
                    p == F::modulus(),
                    p > 1,
                    i_a < len_a,
                    i_b <= len_b,
                    coeff_a == self.values@[i_a as int],
                    len_a + len_b <= usize::MAX,
                    c@.len() == len_a + len_b,
                    forall|j: int|
                        0 <= j < c@.len() ==> (#[trigger] c@[j]).value() == (convolution_upto(
                            va,
                            vb,
                            j,
                            i_a as nat,
                        ) + convolution_term(va, vb, j, i_a as int, i_b as nat)) % p,
                decreases len_b - i_b,
            {
                let coeff_b = b.values[i_b];
                let term = coeff_a.mul(&coeff_b);
                let ghost before = c@;
                let sum = c[i_a + i_b].add(&term);
                c[i_a + i_b] = sum;
                proof {
                    let k = i_a + i_b;
                    let partial = convolution_upto(va, vb, k, i_a as nat);
                    assert(va[i_a as int] == coeff_a.value());
                    assert(vb[i_b as int] == coeff_b.value());
                    assert(convolution_term(va, vb, k, i_a as int, i_b as nat) == 0);
                    assert(convolution_term(va, vb, k, i_a as int, (i_b + 1) as nat)
                        == va[i_a as int] * vb[i_b as int]);
                    lemma_add_mod_noop(partial, va[i_a as int] * vb[i_b as int], p);
                    lemma_add_mod_noop(partial % p, (va[i_a as int] * vb[i_b as int]) % p, p);
                    lemma_mod_twice(partial, p);
                    lemma_mod_twice(va[i_a as int] * vb[i_b as int], p);
                    assert forall|j: int| 0 <= j < c@.len() implies (#[trigger] c@[j]).value() == (
                    convolution_upto(va, vb, j, i_a as nat) + convolution_term(
                        va,
                        vb,
                        j,
                        i_a as int,
                        (i_b + 1) as nat,
                    )) % p by {
                        if j != k {
                            assert(c@[j] == before[j]);
                            assert(convolution_term(va, vb, j, i_a as int, (i_b + 1) as nat)
                                == convolution_term(va, vb, j, i_a as int, i_b as nat));
                        }
                    }
                }
                i_b += 1;
            }
            i_a += 1;
        }
        Polynomial { values: c, _marker: PhantomData }
    }

    /// The value of the polynomial at `x`, by Horner's rule, without
    /// consuming the polynomial.
    pub fn evaluate_at(&self, x: F) -> (r: F)
        ensures
            r.value() == poly_eval(values(self@), x.value()) % F::modulus(),
    {
        let n: usize = self.values.len();
        let ghost c = values(self.values@);
        let ghost p = F::modulus();
        let mut acc = F::zero();
        let mut i: usize = n;
        proof {
            F::lemma_modulus();
            lemma_small_mod(0, p as nat);
            assert(c.subrange(n as int, n as int).len() == 0);
        }
        while i > 0
            invariant
                n == self.values@.len(),
                c == values(self.values@),
                p == F::modulus(),
                p > 1,
                i <= n,
                acc.value() == poly_eval(c.subrange(i as int, n as int), x.value()) % p,
            decreases i,
        {
            i -= 1;
            let ghost higher = poly_eval(c.subrange(i + 1, n as int), x.value());
            let scaled = acc.mul(&x);
            acc = scaled.add(&self.values[i]);
            proof {
                let tail = c.subrange(i as int, n as int);
                assert(tail.drop_first() =~= c.subrange(i + 1, n as int));
                assert(tail[0] == c[i as int]);
                lemma_poly_eval_horner(tail, x.value());
                lemma_mod_twice(higher, p);
                lemma_mul_congruent(higher % p, x.value(), higher, x.value(), p);
                lemma_mod_twice(higher * x.value(), p);
                lemma_add_congruent(
                    scaled.value(),
                    c[i as int],
                    higher * x.value(),
                    c[i as int],
                    p,
                );
                assert(higher * x.value() + c[i as int] == c[i as int] + x.value() * higher)
                    by (nonlinear_arith);
            }
        }
        proof {
            assert(c.subrange(0, n as int) =~= c);
        }
        acc
    }

    // order(n) polynomial evaluation
    pub fn polynomial_evaluation(self, x: F) -> (r: F)
        ensures
            r.value() == poly_eval(values(self@), x.value()) % F::modulus(),
    {
        self.evaluate_at(x)
    }

    // order(n^2) transform coeffitient to point value representation
    pub fn to_point_value(&self, domain: &Vec<F>) -> (r: Polynomial<F, PointValue>)
        requires
            self@.len() == domain@.len(),
        ensures
            r@.len() == domain@.len(),
            forall|i: int|
                0 <= i < r@.len() ==> (#[trigger] r@[i]).value() == poly_eval(
                    values(self@),
                    domain@[i].value(),
                ) % F::modulus(),
    {
        let n: usize = domain.len();
        let mut evaluations: Vec<F> = Vec::with_capacity(n);
        let mut i: usize = 0;
        while i < n
            invariant
                n == domain@.len(),
                i <= n,
                evaluations@.len() == i,
                forall|j: int|
                    0 <= j < i ==> (#[trigger] evaluations@[j]).value() == poly_eval(
                        values(self@),
                        domain@[j].value(),
                    ) % F::modulus(),
            decreases n - i,
        {
            evaluations.push(self.evaluate_at(domain[i]));
            i += 1;
        }
        Polynomial { values: evaluations, _marker: PhantomData }
    }
}

} // verus!
