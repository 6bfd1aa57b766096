use ecfft::bit_reverse::{bit_reverse, swap_bit_reverse};
use ecfft::classic_fft::utils::butterfly_arithmetic;
use ecfft::classic_fft::{classic_fft, ClassicFft};
use ecfft::polynomial::{Coefficients, Polynomial};
use ff::Field;
use pasta_curves::Fp;

fn sample(seed: u64, len: usize) -> Vec<Fp> {
    let mut state = seed;
    (0..len)
        .map(|_| {
            state = state
                .wrapping_mul(6364136223846793005)
                .wrapping_add(1442695040888963407);
            Fp::from(state) * Fp::from(state >> 7) + Fp::from(state >> 13)
        })
        .collect()
}

#[test]
fn transform_of_two_coefficients() {
    let mut coeffs = vec![Fp::from(3), Fp::from(5)];
    ClassicFft::<Fp>::new(1).fft(&mut coeffs);
    assert_eq!(coeffs, vec![Fp::from(8), -Fp::from(2)]);
}

#[test]
fn bit_reversal_of_eight() {
    let mut a: Vec<u32> = vec![0, 1, 2, 3, 4, 5, 6, 7];
    swap_bit_reverse(&mut a, 8, 3);
    assert_eq!(a, vec![0, 4, 2, 6, 1, 5, 3, 7]);
}

#[test]
fn transform_matches_naive_evaluation() {
    for k in 0..8u32 {
        let n = 1usize << k;
        let coeffs = sample(17 + k as u64, n);
        let generator = <Fp as ff::PrimeField>::root_of_unity().pow_vartime([1u64 << (32 - k)]);
        let mut domain = Vec::with_capacity(n);
        let mut x = Fp::one();
        for _ in 0..n {
            domain.push(x);
            x *= generator;
        }
        let expected = Polynomial::<Fp, Coefficients>::new(coeffs.clone())
            .to_point_value(&domain)
            .get_values();
        let mut transformed = coeffs;
        ClassicFft::<Fp>::new(k).fft(&mut transformed);
        assert_eq!(transformed, expected);
    }
}

#[test]
fn bit_reversal_twice_is_the_identity() {
    for k in 0..10u32 {
        let n = 1usize << k;
        let before: Vec<usize> = (0..n).map(|i| i * i + 3).collect();
        let mut a = before.clone();
        swap_bit_reverse(&mut a, n, k);
        if k >= 2 {
            assert_ne!(a, before);
        }
        swap_bit_reverse(&mut a, n, k);
        assert_eq!(a, before);
    }
}

#[test]
fn bit_reversal_of_small_arrays() {
    let mut one = vec!['a'];
    swap_bit_reverse(&mut one, 1, 0);
    assert_eq!(one, vec!['a']);
    let mut two = vec!['a', 'b'];
    swap_bit_reverse(&mut two, 2, 1);
    assert_eq!(two, vec!['a', 'b']);
    let mut four = vec!['a', 'b', 'c', 'd'];
    swap_bit_reverse(&mut four, 4, 2);
    assert_eq!(four, vec!['a', 'c', 'b', 'd']);
}

#[test]
fn reversed_indices() {
    assert_eq!(bit_reverse(0, 0), 0);
    assert_eq!(bit_reverse(1, 1), 1);
    assert_eq!(bit_reverse(1, 3), 4);
    assert_eq!(bit_reverse(3, 3), 6);
    assert_eq!(bit_reverse(6, 3), 3);
    assert_eq!(bit_reverse(0b0000_0000_0001, 12), 0b1000_0000_0000);
    assert_eq!(bit_reverse(0b1011_0000_0001, 12), 0b1000_0000_1101);
    assert_eq!(bit_reverse(5, 3), 5);
}

#[test]
fn butterfly_formula() {
    let mut left = vec![Fp::from(10), Fp::from(20)];
    let mut right = vec![Fp::from(3), Fp::from(4)];
    // the factors at the indices 0 and 2 are taken
    let twiddles = vec![Fp::from(1), Fp::from(1000), Fp::from(5), Fp::from(1000)];
    butterfly_arithmetic(&mut left, &mut right, 2, &twiddles);
    assert_eq!(left, vec![Fp::from(13), Fp::from(40)]);
    assert_eq!(right, vec![Fp::from(7), Fp::from(0)]);
}

#[test]
fn butterfly_round_trip() {
    let half = Fp::from(2).invert().unwrap();
    for (seed, w) in [(1u64, Fp::from(1)), (2, -Fp::from(1)), (3, Fp::from(987654321))] {
        let values = sample(seed, 2);
        let (a, b) = (values[0], values[1]);
        let mut left = vec![a];
        let mut right = vec![b];
        butterfly_arithmetic(&mut left, &mut right, 1, &[w]);
        assert_eq!(left[0], a + w * b);
        assert_eq!(right[0], a - w * b);
        let w_inv = w.invert().unwrap();
        assert_eq!(half * (left[0] + right[0]), a);
        assert_eq!(half * w_inv * (left[0] - right[0]), b);
    }
}

#[test]
fn transform_of_one_coefficient() {
    let mut coeffs = vec![Fp::from(42)];
    ClassicFft::<Fp>::new(0).fft(&mut coeffs);
    assert_eq!(coeffs, vec![Fp::from(42)]);
}

#[test]
fn transform_of_four_coefficients() {
    // the generator of order 4 is a square root of -1
    let i = <Fp as ff::PrimeField>::root_of_unity().pow_vartime([1u64 << 30]);
    assert_eq!(i * i, -Fp::from(1));
    let mut coeffs = vec![Fp::from(1), Fp::from(2), Fp::from(3), Fp::from(4)];
    ClassicFft::<Fp>::new(2).fft(&mut coeffs);
    assert_eq!(
        coeffs,
        vec![
            Fp::from(10),
            -Fp::from(2) - Fp::from(2) * i,
            -Fp::from(2),
            -Fp::from(2) + Fp::from(2) * i,
        ]
    );
}

#[test]
fn recursion_on_bit_reversed_input() {
    // 1 + 2x + 3x^2 + 4x^3 in bit-reversed order, with the table for 4 points
    let i = <Fp as ff::PrimeField>::root_of_unity().pow_vartime([1u64 << 30]);
    let mut coeffs = vec![Fp::from(1), Fp::from(3), Fp::from(2), Fp::from(4)];
    classic_fft(&mut coeffs, 4, 1, &[Fp::from(1), i]);
    assert_eq!(coeffs[0], Fp::from(10));
    assert_eq!(coeffs[2], -Fp::from(2));
    // on two values the step is the sum and the difference
    let mut pair = vec![Fp::from(9), Fp::from(4)];
    classic_fft(&mut pair, 2, 1, &[Fp::from(1)]);
    assert_eq!(pair, vec![Fp::from(13), Fp::from(5)]);
}

#[test]
fn transform_of_a_large_input() {
    let k = 12u32;
    let n = 1usize << k;
    let coeffs = sample(99, n);
    let generator = <Fp as ff::PrimeField>::root_of_unity().pow_vartime([1u64 << (32 - k)]);
    let mut transformed = coeffs.clone();
    ClassicFft::<Fp>::new(k).fft(&mut transformed);
    let poly = Polynomial::<Fp, Coefficients>::new(coeffs);
    for i in [0u64, 1, 2, 1000, 2048, 4095] {
        assert_eq!(
            transformed[i as usize],
            poly.evaluate_at(generator.pow_vartime([i]))
        );
    }
}

#[test]
fn recursion_reads_only_every_chunk_th_entry() {
    // the table for 8 points, with other entries in between
    let w = <Fp as ff::PrimeField>::root_of_unity().pow_vartime([1u64 << 29]);
    let junk = Fp::from(123456);
    let mut table = Vec::new();
    let mut x = Fp::one();
    for _ in 0..4 {
        table.push(x);
        table.push(junk);
        table.push(junk);
        x *= w;
    }
    table.truncate(10);
    let coeffs = sample(5, 8);
    let mut spread = coeffs.clone();
    swap_bit_reverse(&mut spread, 8, 3);
    classic_fft(&mut spread, 8, 3, &table);
    let mut expected = coeffs;
    ClassicFft::<Fp>::new(3).fft(&mut expected);
    assert_eq!(spread, expected);
}

#[test]
fn two_values_need_no_table() {
    let mut pair = vec![Fp::from(9), Fp::from(4)];
    classic_fft(&mut pair, 2, usize::MAX, &[]);
    assert_eq!(pair, vec![Fp::from(13), Fp::from(5)]);
    // four values with a table of one entry and any chunk
    let mut four = vec![Fp::from(1), Fp::from(2), Fp::from(3), Fp::from(4)];
    classic_fft(&mut four, 4, 0, &[Fp::from(10)]);
    // the halves give (3, -1) and (7, -1); the one factor combines both pairs
    assert_eq!(
        four,
        vec![Fp::from(73), -Fp::from(11), -Fp::from(67), Fp::from(9)]
    );
}
