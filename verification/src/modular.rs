//! Integer polynomials and arithmetic modulo a fixed modulus.
//!
//! The transforms compute in a prime field, but their contracts are stated
//! over the integers: a result is an integer expression reduced modulo the
//! field's modulus. The lemmas here let a proof move between the two.

use vstd::arithmetic::div_mod::{
    lemma_add_mod_noop, lemma_mul_mod_noop, lemma_sub_mod_noop,
};
use vstd::arithmetic::power::{
    lemma_pow_adds, lemma_pow_mod_noop, lemma_pow_multiplies, lemma_pow0, lemma_pow1,
    lemma_square_is_pow2, pow,
};
use vstd::prelude::*;

verus! {

/// The value at `x` of the polynomial whose coefficient of `x^i` is `c[i]`.
pub open spec fn poly_eval(c: Seq<int>, x: int) -> int
    decreases c.len(),
{
    if c.len() == 0 {
        0
    } else {
        poly_eval(c.drop_last(), x) + c.last() * pow(x, (c.len() - 1) as nat)
    }
}

/// The sequence that takes its even positions from `e` and its odd
/// positions from `o`, two sequences of one length.
pub open spec fn interleave<T>(e: Seq<T>, o: Seq<T>) -> Seq<T> {
    Seq::new(
        2 * e.len(),
        |t: int|
            if t % 2 == 0 {
                e[t / 2]
            } else {
                o[t / 2]
            },
    )
}

/// Sums of congruent integers are congruent.
pub proof fn lemma_add_congruent(a: int, b: int, c: int, d: int, p: int)
    requires
        p > 0,
        a % p == c % p,
        b % p == d % p,
    ensures
        (a + b) % p == (c + d) % p,
{
    lemma_add_mod_noop(a, b, p);
    lemma_add_mod_noop(c, d, p);
}

/// Differences of congruent integers are congruent.
pub proof fn lemma_sub_congruent(a: int, b: int, c: int, d: int, p: int)
    requires
        p > 0,
        a % p == c % p,
        b % p == d % p,
    ensures
        (a - b) % p == (c - d) % p,
{
    lemma_sub_mod_noop(a, b, p);
    lemma_sub_mod_noop(c, d, p);
}

/// Products of congruent integers are congruent.
pub proof fn lemma_mul_congruent(a: int, b: int, c: int, d: int, p: int)
    requires
        p > 0,
        a % p == c % p,
        b % p == d % p,
    ensures
        (a * b) % p == (c * d) % p,
{
    lemma_mul_mod_noop(a, b, p);
    lemma_mul_mod_noop(c, d, p);
}

/// Powers of congruent integers are congruent.
pub proof fn lemma_pow_congruent(x: int, y: int, e: nat, p: int)
    requires
        p > 0,
        x % p == y % p,
    ensures
        pow(x, e) % p == pow(y, e) % p,
{
    lemma_pow_mod_noop(x, e, p);
    lemma_pow_mod_noop(y, e, p);
}

/// A polynomial takes congruent values at congruent points.
pub proof fn lemma_poly_eval_congruent(c: Seq<int>, x: int, y: int, p: int)
    requires
        p > 0,
        x % p == y % p,
    ensures
        poly_eval(c, x) % p == poly_eval(c, y) % p,
    decreases c.len(),
{
    if c.len() > 0 {
        let e = (c.len() - 1) as nat;
        lemma_poly_eval_congruent(c.drop_last(), x, y, p);
        lemma_pow_congruent(x, y, e, p);
        lemma_mul_congruent(c.last(), pow(x, e), c.last(), pow(y, e), p);
        lemma_add_congruent(
            poly_eval(c.drop_last(), x),
            c.last() * pow(x, e),
            poly_eval(c.drop_last(), y),
            c.last() * pow(y, e),
            p,
        );
    }
}

/// Horner's rule: a polynomial is its constant term plus `x` times the
/// polynomial of the remaining coefficients.
pub proof fn lemma_poly_eval_horner(c: Seq<int>, x: int)
    requires
        c.len() > 0,
    ensures
        poly_eval(c, x) == c[0] + x * poly_eval(c.drop_first(), x),
    decreases c.len(),
{
    if c.len() == 1 {
        lemma_pow0(x);
        assert(c.drop_last().len() == 0);
        assert(c.drop_first().len() == 0);
        assert(poly_eval(c.drop_last(), x) == 0);
        assert(poly_eval(c.drop_first(), x) == 0);
    } else {
        let e = (c.len() - 2) as nat;
        let init = c.drop_last();
        let tail = c.drop_first();
        lemma_poly_eval_horner(init, x);
        assert(init.drop_first() =~= tail.drop_last());
        assert(tail.last() == c.last());
        assert(init[0] == c[0]);
        lemma_pow_adds(x, 1, e);
        lemma_pow1(x);
        assert(pow(x, e + 1) == x * pow(x, e));
        assert(c.last() * pow(x, e + 1) == x * (c.last() * pow(x, e))) by (nonlinear_arith)
            requires
                pow(x, e + 1) == x * pow(x, e),
        ;
        assert(x * (poly_eval(tail.drop_last(), x) + c.last() * pow(x, e)) == x * poly_eval(
            tail.drop_last(),
            x,
        ) + x * (c.last() * pow(x, e))) by (nonlinear_arith);
    }
}

/// A polynomial splits into its terms of even and of odd degree: with `e`
/// the coefficients of the first and `o` those of the second, its value at
/// `y` is `e(y^2) + y * o(y^2)`.
pub proof fn lemma_poly_eval_interleave(e: Seq<int>, o: Seq<int>, y: int)
    requires
        e.len() == o.len(),
    ensures
        poly_eval(interleave(e, o), y) == poly_eval(e, y * y) + y * poly_eval(o, y * y),
    decreases e.len(),
{
    let whole = interleave(e, o);
    if e.len() == 0 {
        assert(whole.len() == 0);
    } else {
        let m = e.len();
        let shorter = interleave(e.drop_last(), o.drop_last());
        lemma_poly_eval_interleave(e.drop_last(), o.drop_last(), y);
        assert(whole.drop_last().drop_last() =~= shorter);
        assert(whole.last() == o.last());
        assert(whole.drop_last().last() == e.last());
        let q = pow(y, (2 * m - 2) as nat);
        let a = poly_eval(e.drop_last(), y * y);
        let b = poly_eval(o.drop_last(), y * y);
        assert(pow(y * y, (m - 1) as nat) == q) by {
            lemma_square_is_pow2(y);
            lemma_pow_multiplies(y, 2, (m - 1) as nat);
        }
        assert(pow(y, (2 * m - 1) as nat) == y * q) by {
            lemma_pow_adds(y, 1, (2 * m - 2) as nat);
            lemma_pow1(y);
        }
        assert(whole.len() == 2 * m);
        assert(poly_eval(whole, y) == poly_eval(whole.drop_last(), y) + whole.last() * pow(
            y,
            (2 * m - 1) as nat,
        ));
        assert(whole.drop_last().len() == 2 * m - 1);
        assert(poly_eval(whole.drop_last(), y) == poly_eval(whole.drop_last().drop_last(), y)
            + whole.drop_last().last() * pow(y, (2 * m - 2) as nat));
        assert(poly_eval(whole, y) == (a + y * b) + e.last() * q + o.last() * (y * q));
        assert((a + y * b) + e.last() * q + o.last() * (y * q) == (a + e.last() * q) + y * (b
            + o.last() * q)) by (nonlinear_arith);
    }
}

/// Polynomials with congruent coefficients take congruent values.
pub proof fn lemma_poly_eval_coefficients_congruent(c: Seq<int>, d: Seq<int>, x: int, p: int)
    requires
        p > 0,
        c.len() == d.len(),
        forall|i: int| 0 <= i < c.len() ==> #[trigger] c[i] % p == d[i] % p,
    ensures
        poly_eval(c, x) % p == poly_eval(d, x) % p,
    decreases c.len(),
{
    if c.len() > 0 {
        let e = (c.len() - 1) as nat;
        assert(c.last() % p == d.last() % p) by {
            assert(c[c.len() - 1] % p == d[c.len() - 1] % p);
        }
        assert forall|i: int| 0 <= i < c.drop_last().len() implies #[trigger] c.drop_last()[i] % p
            == d.drop_last()[i] % p by {
            assert(c[i] % p == d[i] % p);
        }
        lemma_poly_eval_coefficients_congruent(c.drop_last(), d.drop_last(), x, p);
        lemma_mul_congruent(c.last(), pow(x, e), d.last(), pow(x, e), p);
        lemma_add_congruent(
            poly_eval(c.drop_last(), x),
            c.last() * pow(x, e),
            poly_eval(d.drop_last(), x),
            d.last() * pow(x, e),
            p,
        );
    }
}

/// The polynomial whose coefficients are the sums of the coefficients of
/// two others takes the sum of their values.
pub proof fn lemma_poly_eval_sum(c: Seq<int>, d: Seq<int>, x: int)
    requires
        c.len() == d.len(),
    ensures
        poly_eval(Seq::new(c.len(), |i: int| c[i] + d[i]), x) == poly_eval(c, x) + poly_eval(d, x),
    decreases c.len(),
{
    let sum = Seq::new(c.len(), |i: int| c[i] + d[i]);
    if c.len() > 0 {
        let e = (c.len() - 1) as nat;
        lemma_poly_eval_sum(c.drop_last(), d.drop_last(), x);
        assert(sum.drop_last() =~= Seq::new(
            c.drop_last().len(),
            |i: int| c.drop_last()[i] + d.drop_last()[i],
        ));
        assert((c.last() + d.last()) * pow(x, e) == c.last() * pow(x, e) + d.last() * pow(x, e))
            by (nonlinear_arith);
    }
}

/// The coefficients `c`, each multiplied by `scale` and moved up by `shift`
/// places, with zeros below.
pub open spec fn shifted(c: Seq<int>, scale: int, shift: nat) -> Seq<int> {
    Seq::new(
        shift + c.len(),
        |k: int|
            if k >= shift {
                scale * c[k - shift]
            } else {
                0
            },
    )
}

/// Multiplying the coefficients by `scale` and moving them up by `shift`
/// places multiplies the polynomial by `scale * x^shift`.
pub proof fn lemma_poly_eval_shifted(c: Seq<int>, scale: int, shift: nat, x: int)
    ensures
        poly_eval(shifted(c, scale, shift), x) == scale * pow(x, shift) * poly_eval(c, x),
    decreases c.len() + shift,
{
    let moved = shifted(c, scale, shift);
    if c.len() == 0 {
        if shift > 0 {
            lemma_poly_eval_shifted(c, scale, (shift - 1) as nat, x);
            assert(moved.drop_last() =~= shifted(c, scale, (shift - 1) as nat));
            assert(moved.last() == 0);
            assert(scale * pow(x, (shift - 1) as nat) * 0 == 0) by (nonlinear_arith);
            assert(poly_eval(moved, x) == poly_eval(moved.drop_last(), x) + moved.last() * pow(
                x,
                (moved.len() - 1) as nat,
            ));
        }
        assert(scale * pow(x, shift) * 0 == 0) by (nonlinear_arith);
        assert(poly_eval(c, x) == 0);
        assert(poly_eval(moved, x) == 0);
    } else {
        let e = (c.len() - 1) as nat;
        lemma_poly_eval_shifted(c.drop_last(), scale, shift, x);
        assert(moved.drop_last() =~= shifted(c.drop_last(), scale, shift));
        assert(moved.last() == scale * c.last());
        assert(poly_eval(moved, x) == poly_eval(moved.drop_last(), x) + moved.last() * pow(
            x,
            (shift + e) as nat,
        ));
        lemma_pow_adds(x, shift, e);
        let xs = pow(x, shift);
        let xe = pow(x, e);
        let rest = poly_eval(c.drop_last(), x);
        assert(scale * xs * rest + (scale * c.last()) * (xs * xe) == scale * xs * (rest + c.last()
            * xe)) by (nonlinear_arith);
        assert(poly_eval(c, x) == rest + c.last() * xe);
        assert(poly_eval(moved.drop_last(), x) == scale * xs * rest);
        assert(poly_eval(moved, x) == scale * xs * rest + (scale * c.last()) * (xs * xe));
    }
}

} // verus!
