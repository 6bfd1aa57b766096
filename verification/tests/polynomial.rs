use ecfft::bn256::Base;
use ecfft::polynomial::{Coefficients, PointValue, Polynomial};
use halo2curves::bn256::Fq;
use halo2curves::ff::Field as _;

/// The library's element for one of `halo2curves`.
fn lib(x: Fq) -> Base {
    Base::from_bytes(&x.to_bytes()).unwrap()
}

fn libs(values: &[Fq]) -> Vec<Base> {
    values.iter().map(|v| lib(*v)).collect()
}

fn coefficients(values: &[u64]) -> Polynomial<Base, Coefficients> {
    Polynomial::<Base, Coefficients>::new(values.iter().map(|v| lib(Fq::from(*v))).collect())
}

/// The point values with the given elements: those of the polynomial `x`
/// on the elements themselves.
fn point_values(values: &[u64]) -> Polynomial<Base, PointValue> {
    assert!(values.len() >= 2);
    let mut identity = vec![0; values.len()];
    identity[1] = 1;
    coefficients(&identity).to_point_value(&values.iter().map(|v| lib(Fq::from(*v))).collect())
}

fn arb_coefficients(k: u32, seed: u64) -> Vec<Fq> {
    let mut state = seed;
    (0..(1u32 << k))
        .map(|_| {
            state = state
                .wrapping_mul(6364136223846793005)
                .wrapping_add(1442695040888963407);
            Fq::from(state) * Fq::from(state >> 5) - Fq::from(state >> 11)
        })
        .collect()
}

fn arb_poly(k: u32, seed: u64) -> Polynomial<Base, Coefficients> {
    Polynomial::<Base, Coefficients>::new(libs(&arb_coefficients(k, seed)))
}

#[test]
fn test_polynomial_evaluation() {
    for k in 1u32..10 {
        let point = Fq::from(0xdead_beef_u64 + k as u64) * Fq::from(u64::MAX - k as u64);
        let mut eval = Fq::zero();
        let mut exp = Fq::one();
        let poly_a = arb_poly(k, 7 * k as u64);

        arb_coefficients(k, 7 * k as u64).iter().for_each(|coeff| {
            eval += coeff * exp;
            exp *= point;
        });

        assert_eq!(poly_a.polynomial_evaluation(lib(point)), lib(eval))
    }
}

#[test]
fn values_come_back() {
    let values = libs(&[Fq::from(4), Fq::from(0), -Fq::from(9)]);
    let poly = Polynomial::<Base, Coefficients>::new(values.clone());
    assert_eq!(poly.clone().get_values(), values);
    assert_eq!(poly.get_values().len(), 3);
}

#[test]
fn evaluation_of_a_quadratic() {
    // 1 + 2x + 3x^2 at 5
    assert_eq!(
        coefficients(&[1, 2, 3]).polynomial_evaluation(lib(Fq::from(5))),
        lib(Fq::from(86))
    );
    assert_eq!(
        coefficients(&[1, 2, 3]).polynomial_evaluation(lib(Fq::zero())),
        lib(Fq::from(1))
    );
    assert_eq!(
        coefficients(&[1, 2, 3]).evaluate_at(lib(-Fq::one())),
        lib(Fq::from(2))
    );
}

#[test]
fn evaluation_of_nothing_is_zero() {
    assert_eq!(
        coefficients(&[]).polynomial_evaluation(lib(Fq::from(5))),
        lib(Fq::zero())
    );
}

#[test]
fn evaluation_wraps_around_the_modulus() {
    // x^2 at -1 is 1, and 2x at the inverse of 2 is 1
    assert_eq!(
        coefficients(&[0, 0, 1]).polynomial_evaluation(lib(-Fq::one())),
        lib(Fq::one())
    );
    let half = Fq::from(2).invert().unwrap();
    assert_eq!(
        coefficients(&[0, 2]).polynomial_evaluation(lib(half)),
        lib(Fq::one())
    );
}

#[test]
fn point_values_on_a_domain() {
    let domain = libs(&[Fq::from(0), Fq::from(1), Fq::from(2)]);
    let values = coefficients(&[1, 2, 3]).to_point_value(&domain);
    assert_eq!(
        values.get_values(),
        libs(&[Fq::from(1), Fq::from(6), Fq::from(17)])
    );
}

#[test]
fn pointwise_product() {
    let product = point_values(&[2, 3, 4]).point_multiply(point_values(&[5, 7, 11]));
    assert_eq!(
        product.get_values(),
        libs(&[Fq::from(10), Fq::from(21), Fq::from(44)])
    );
}

#[test]
fn product_of_coefficients() {
    // (1 + 2x)(3 + x) = 3 + 7x + 2x^2
    let product = coefficients(&[1, 2]).naive_multiply(coefficients(&[3, 1]));
    assert_eq!(
        product.get_values(),
        libs(&[Fq::from(3), Fq::from(7), Fq::from(2), Fq::zero()])
    );
    // (4)(5 + 6x + 7x^2)
    let scaled = coefficients(&[4]).naive_multiply(coefficients(&[5, 6, 7]));
    assert_eq!(
        scaled.get_values(),
        libs(&[Fq::from(20), Fq::from(24), Fq::from(28), Fq::zero()])
    );
    let nothing = coefficients(&[]).naive_multiply(coefficients(&[5, 6]));
    assert_eq!(nothing.get_values(), libs(&[Fq::zero(), Fq::zero()]));
}

#[test]
fn product_evaluates_to_the_product_of_the_evaluations() {
    for k in 0u32..5 {
        let a = arb_poly(k, 3);
        let b = arb_poly(k + 1, 5);
        let x = lib(Fq::from(123456789 + k as u64));
        let product = Polynomial::<Base, Coefficients>::new(
            a.clone().naive_multiply(b.clone()).get_values(),
        );
        let expected = Polynomial::<Base, Coefficients>::new(vec![a.polynomial_evaluation(x)])
            .naive_multiply(Polynomial::<Base, Coefficients>::new(vec![
                b.polynomial_evaluation(x),
            ]))
            .get_values()[0];
        assert_eq!(product.polynomial_evaluation(x), expected);
    }
}

#[test]
fn equality_is_by_value() {
    assert_eq!(coefficients(&[1, 2, 3]), coefficients(&[1, 2, 3]));
    assert_ne!(coefficients(&[1, 2, 3]), coefficients(&[1, 2, 4]));
    assert_ne!(coefficients(&[1, 2, 3]), coefficients(&[1, 2]));
    assert_eq!(coefficients(&[]), coefficients(&[]));
    assert_eq!(point_values(&[4, 9]), point_values(&[4, 9]));
    assert_ne!(point_values(&[4, 9]), point_values(&[9, 4]));
    let sum = Polynomial::<Base, Coefficients>::new(vec![lib(Fq::from(7) - Fq::from(9))]);
    assert_eq!(
        sum,
        Polynomial::<Base, Coefficients>::new(vec![lib(-Fq::from(2))])
    );
}
