use ecfft::ecfft::isogeny::{IsogenyProvider, Matrix};
use ecfft::ecfft::utils::{matrix_arithmetic, EcFftCache, FfTree};
use ecfft::ecfft::EcFft;
use ecfft::polynomial::{Coefficients, PointValue, Polynomial};
use ecfft::bn256::Base;
use halo2curves::bn256::Fq;
use halo2curves::ff::Field as _;
use pasta_curves::Fp;

/// The chain whose every isogeny is the squaring map, on cosets of the
/// two-power roots of unity of the Pallas base field. The first half of the
/// coset is the domain whose first point is `shift`.
struct SquaringChain {
    shift: Fp,
}

fn fp_pow(x: Fp, e: u64) -> Fp {
    ff::Field::pow_vartime(&x, [e])
}

fn fp_invert(x: Fp) -> Fp {
    ff::Field::invert(&x).unwrap()
}

impl IsogenyProvider<Fp> for SquaringChain {
    fn get_factor(
        &self,
        depth: usize,
        domain: &Vec<Fp>,
        half_n: usize,
        _exponent: u64,
    ) -> Vec<Matrix<Fp>> {
        let splits = domain[0] == fp_pow(self.shift, 1 << (depth - 1));
        (0..half_n)
            .map(|j| {
                let (s0, s1) = (domain[j], domain[j + half_n]);
                if splits {
                    let d = fp_invert(s1 - s0);
                    ((s1 * d, -s0 * d), (-d, d))
                } else {
                    ((Fp::one(), s0), (Fp::one(), s1))
                }
            })
            .collect()
    }

    fn domain_half_sizing(&self, _depth: usize, domain: Vec<Fp>, half_n: usize) -> Vec<Fp> {
        domain[..half_n].iter().map(|x| x * x).collect()
    }

    fn evaluate(&self, _depth: usize, point: Fp) -> Fp {
        point * point
    }
}

/// The library's element for one of `halo2curves`.
fn lib(x: Fq) -> Base {
    Base::from_bytes(&x.to_bytes()).unwrap()
}

/// The element of `halo2curves` for one of the library.
fn raw(x: Base) -> Fq {
    Fq::from_bytes(&x.to_bytes()).unwrap()
}

/// The same on two points of the BN256 base field, where no isogeny is
/// needed yet.
struct PairsOnly {
    first: Base,
}

impl IsogenyProvider<Base> for PairsOnly {
    fn get_factor(
        &self,
        _depth: usize,
        domain: &Vec<Base>,
        half_n: usize,
        _exponent: u64,
    ) -> Vec<Matrix<Base>> {
        let splits = domain[0] == self.first;
        (0..half_n)
            .map(|j| {
                let (s0, s1) = (raw(domain[j]), raw(domain[j + half_n]));
                if splits {
                    let d = (s1 - s0).invert().unwrap();
                    ((lib(s1 * d), lib(-s0 * d)), (lib(-d), lib(d)))
                } else {
                    ((lib(Fq::one()), lib(s0)), (lib(Fq::one()), lib(s1)))
                }
            })
            .collect()
    }

    fn domain_half_sizing(&self, _depth: usize, domain: Vec<Base>, half_n: usize) -> Vec<Base> {
        domain[..half_n]
            .iter()
            .map(|x| lib(raw(*x) * raw(*x)))
            .collect()
    }

    fn evaluate(&self, _depth: usize, point: Base) -> Base {
        lib(raw(point) * raw(point))
    }
}

const MAX_K: usize = 14;

fn shifts() -> (Fp, Fp) {
    (Fp::from(5), Fp::from(7))
}

/// The coset for `k = MAX_K - depth`: the two domains of that depth,
/// interleaved.
fn layer_coset(depth: usize) -> Vec<Fp> {
    let k = MAX_K - depth;
    let half = 1usize << (k - 1);
    let omega = fp_pow(
        <Fp as ff::PrimeField>::root_of_unity(),
        1u64 << (32 - (k as u32 - 1)),
    );
    let (c, c_prime) = shifts();
    let mut coset = Vec::with_capacity(2 * half);
    let mut w = Fp::one();
    for _ in 0..half {
        coset.push(fp_pow(c, 1 << depth) * w);
        coset.push(fp_pow(c_prime, 1 << depth) * w);
        w *= omega;
    }
    coset
}

fn layer_chain(depth: usize) -> SquaringChain {
    SquaringChain {
        shift: fp_pow(shifts().0, 1 << depth),
    }
}

fn arb_poly_fp(k: usize, seed: u64) -> Polynomial<Fp, Coefficients> {
    let mut state = seed;
    Polynomial::<Fp, Coefficients>::new(
        (0..(1usize << k))
            .map(|_| {
                state = state
                    .wrapping_mul(6364136223846793005)
                    .wrapping_add(1442695040888963407);
                Fp::from(state) * Fp::from(state >> 5) + Fp::from(state >> 11)
            })
            .collect(),
    )
}

fn arb_poly_fq(k: usize) -> Polynomial<Base, Coefficients> {
    let mut state = 0x9e3779b97f4a7c15u64;
    Polynomial::<Base, Coefficients>::new(
        (0..(1usize << k))
            .map(|_| {
                state = state
                    .wrapping_mul(6364136223846793005)
                    .wrapping_add(1442695040888963407);
                lib(Fq::from(state) * Fq::from(state >> 5) + Fq::from(state >> 11))
            })
            .collect(),
    )
}

fn coset_fq(k: usize) -> Vec<Base> {
    (0..(1u64 << k))
        .map(|i| lib(Fq::from(3 + 11 * i * i)))
        .collect()
}

#[test]
fn test_isogeny_and_domain() {
    let max_k = 14;

    for d in 0..max_k {
        let k = max_k - d;
        let coset = layer_coset(d);
        let chain = layer_chain(d);
        let ecfft_params = EcFftCache::new(k, coset, &chain).unwrap();
        let cache = ecfft_params.get_tree(0);
        let (mut s, mut s_prime) = cache.get_domain().clone();

        for i in 0..(k - 1) {
            let n = 1 << (k - (i + 1));
            let half_n = n / 2;

            s = s.iter().map(|coeff| chain.evaluate(i + 1, *coeff)).collect();
            s_prime = s_prime
                .iter()
                .map(|coeff| chain.evaluate(i + 1, *coeff))
                .collect();
            s.sort();
            s.dedup();
            s_prime.sort();
            s_prime.dedup();

            assert_eq!(half_n, s.len());
            assert_eq!(half_n, s_prime.len());

            let cache = ecfft_params.get_tree(i + 1);
            let (mut l, mut l_prime) = cache.get_domain().clone();
            l.sort();
            l_prime.sort();

            assert_eq!(s, l);
            assert_eq!(s_prime, l_prime);

            let (s, s_prime) = cache.get_domain().clone();
            s[..half_n]
                .iter()
                .zip(&s[half_n..])
                .zip(&s_prime[..half_n])
                .zip(&s_prime[half_n..])
                .for_each(|(((a, b), c), d)| {
                    assert_eq!(chain.evaluate(i + 1, *a), chain.evaluate(i + 1, *b));
                    assert_eq!(chain.evaluate(i + 1, *c), chain.evaluate(i + 1, *d));
                });
        }

        assert_eq!(s.len(), 1);
        assert_eq!(s_prime.len(), 1);
    }
}

#[test]
fn test_extend_operation() {
    let max_k = 3;
    for k in 1..max_k {
        let n = 1 << k;
        let coset = coset_fq(k);
        let cache = EcFftCache::new(k, coset.clone(), &PairsOnly { first: coset[0] }).unwrap();
        let tree = cache.get_tree(0);
        let (s, s_prime) = tree.get_domain();

        let coeff_a = arb_poly_fq(k - 1);
        let mut coeff_a_on_s = coeff_a.to_point_value(s);
        cache.extend(&mut coeff_a_on_s);
        let point_value_a_on_s_prime = coeff_a.to_point_value(s_prime);
        let (factor, inv_factor) = (tree.get_factor(), tree.get_inv_factor());

        assert_eq!(coeff_a.clone().get_values().len(), n / 2);
        assert_eq!(coset.len(), n);
        assert_eq!(cache.get_trees().len(), k);
        assert_eq!(s.len(), n / 2);
        assert_eq!(s_prime.len(), n / 2);
        assert_eq!(factor.len(), n / 4);
        assert_eq!(inv_factor.len(), n / 4);
        assert_eq!(coeff_a_on_s, point_value_a_on_s_prime);
    }
}

/// On every depth of the squaring chain, the pairs that the extension
/// combines are the pairs that the isogeny identifies.
#[test]
fn paired_positions_have_one_image() {
    let k = 9;
    let d = MAX_K - k;
    let chain = layer_chain(d);
    let cache = EcFftCache::new(k, layer_coset(d), &chain).unwrap();
    for depth in 0..(k - 1) {
        let (s, s_prime) = cache.get_tree(depth).get_domain();
        let half_n = s.len() / 2;
        assert_eq!(half_n, 1 << (k - 2 - depth));
        for j in 0..half_n {
            assert_ne!(s[j], s[j + half_n]);
            assert_eq!(
                chain.evaluate(depth + 1, s[j]),
                chain.evaluate(depth + 1, s[j + half_n])
            );
            assert_eq!(
                chain.evaluate(depth + 1, s_prime[j]),
                chain.evaluate(depth + 1, s_prime[j + half_n])
            );
        }
    }
}

#[test]
fn extension_on_the_squaring_chain() {
    for k in 1..=9usize {
        let d = MAX_K - k;
        let coset = layer_coset(d);
        let cache = EcFftCache::new(k, coset.clone(), &layer_chain(d)).unwrap();
        let (s, s_prime) = cache.get_tree(0).get_domain();
        let poly = arb_poly_fp(k - 1, 41 + k as u64);
        let mut extended = poly.to_point_value(s);
        cache.extend(&mut extended);
        assert_eq!(extended, poly.to_point_value(s_prime));
        assert_eq!(cache.get_coset(), &coset);
        assert_eq!(cache.get_trees().len(), k);
    }
}

#[test]
fn first_domain_is_the_coset_split() {
    let k = 4;
    let d = MAX_K - k;
    let coset = layer_coset(d);
    let cache = EcFftCache::new(k, coset.clone(), &layer_chain(d)).unwrap();
    let (s, s_prime) = cache.get_tree(0).get_domain();
    for i in 0..8 {
        assert_eq!(s[i], coset[2 * i]);
        assert_eq!(s_prime[i], coset[2 * i + 1]);
    }
    let last = cache.get_tree(k - 1);
    assert_eq!(last.get_domain().0.len(), 1);
    assert!(last.get_factor().is_empty());
    assert!(last.get_inv_factor().is_empty());
}

/// A chain whose answers are too short.
struct Truncating;

impl IsogenyProvider<Fp> for Truncating {
    fn get_factor(&self, _: usize, _: &Vec<Fp>, half_n: usize, _: u64) -> Vec<Matrix<Fp>> {
        vec![((Fp::one(), Fp::zero()), (Fp::zero(), Fp::one())); half_n - 1]
    }

    fn domain_half_sizing(&self, _: usize, domain: Vec<Fp>, half_n: usize) -> Vec<Fp> {
        domain[..half_n].to_vec()
    }

    fn evaluate(&self, _: usize, point: Fp) -> Fp {
        point
    }
}

/// A chain whose domains do not shrink.
struct NotHalving;

impl IsogenyProvider<Fp> for NotHalving {
    fn get_factor(&self, _: usize, _: &Vec<Fp>, half_n: usize, _: u64) -> Vec<Matrix<Fp>> {
        vec![((Fp::one(), Fp::zero()), (Fp::zero(), Fp::one())); half_n]
    }

    fn domain_half_sizing(&self, _: usize, domain: Vec<Fp>, _: usize) -> Vec<Fp> {
        domain
    }

    fn evaluate(&self, _: usize, point: Fp) -> Fp {
        point
    }
}

#[test]
fn answers_of_the_wrong_length_are_refused() {
    assert!(EcFftCache::new(3, layer_coset(MAX_K - 3), &Truncating).is_none());
    assert!(EcFftCache::new(3, layer_coset(MAX_K - 3), &NotHalving).is_none());
    // with one depth only, nothing is asked
    assert!(EcFftCache::new(1, layer_coset(MAX_K - 1), &Truncating).is_some());
}

#[test]
fn tree_from_parts() {
    let one = ((Fp::one(), Fp::zero()), (Fp::zero(), Fp::one()));
    let domain = || (vec![Fp::from(1), Fp::from(2)], vec![Fp::from(3), Fp::from(4)]);
    let tree = FfTree::new(domain(), vec![one], vec![one]).unwrap();
    assert_eq!(tree.get_domain(), &domain());
    assert_eq!(tree.get_factor(), &vec![one]);
    assert!(FfTree::new(domain(), vec![one, one], vec![one]).is_none());
    assert!(FfTree::new(domain(), vec![one], vec![]).is_none());
    assert!(FfTree::new((vec![Fp::one()], vec![]), vec![], vec![]).is_none());
    let last = FfTree::last_tree(vec![Fp::from(9)], vec![Fp::from(8)]);
    assert_eq!(last.get_domain(), &(vec![Fp::from(9)], vec![Fp::from(8)]));
    assert!(last.get_factor().is_empty());
}

#[test]
fn matrix_arithmetic_applies_each_matrix() {
    let mut left = vec![Fp::from(2), Fp::from(3)];
    let mut right = vec![Fp::from(5), Fp::from(7)];
    let factor = vec![
        ((Fp::from(1), Fp::from(2)), (Fp::from(3), Fp::from(4))),
        ((Fp::from(0), Fp::from(1)), (Fp::from(1), -Fp::from(1))),
    ];
    matrix_arithmetic(&mut left, &mut right, &factor);
    assert_eq!(left, vec![Fp::from(12), Fp::from(7)]);
    assert_eq!(right, vec![Fp::from(26), -Fp::from(4)]);
}

#[test]
fn inverse_then_factor_is_the_identity() {
    let m = ((Fp::from(1), Fp::from(2)), (Fp::from(3), Fp::from(4)));
    let d = fp_invert(-Fp::from(2));
    let m_inv = ((Fp::from(4) * d, -Fp::from(2) * d), (-Fp::from(3) * d, d));
    let mut left = vec![Fp::from(1234567)];
    let mut right = vec![-Fp::from(89)];
    matrix_arithmetic(&mut left, &mut right, &vec![m_inv]);
    assert_ne!(left, vec![Fp::from(1234567)]);
    matrix_arithmetic(&mut left, &mut right, &vec![m]);
    assert_eq!(left, vec![Fp::from(1234567)]);
    assert_eq!(right, vec![-Fp::from(89)]);
}

#[test]
fn transform_over_the_chain_reorders() {
    let coset = layer_coset(0);
    let params = EcFft::new(14, coset, &layer_chain(0)).unwrap();
    let mut values: Vec<Fp> = (0..(1u64 << 14)).map(Fp::from).collect();
    params.fft(&mut values);
    assert_eq!(values[1], Fp::from(1 << 13));
    assert_eq!(values[2], Fp::from(1 << 12));
    assert_eq!(values[(1 << 14) - 1], Fp::from((1 << 14) - 1));
    params.fft(&mut values);
    assert!(values.iter().enumerate().all(|(i, v)| *v == Fp::from(i as u64)));
}

#[test]
fn point_values_compare_by_value() {
    let a = Polynomial::<Base, Coefficients>::new(vec![lib(Fq::from(1)), lib(Fq::from(2))]);
    let at = vec![lib(Fq::from(0)), lib(Fq::from(1))];
    let values: Polynomial<Base, PointValue> = a.to_point_value(&at);
    assert_eq!(
        values.get_values(),
        vec![lib(Fq::from(1)), lib(Fq::from(3))]
    );
}

#[test]
fn parameters_around_a_cache() {
    let k = 3;
    let d = MAX_K - k;
    let cache = EcFftCache::new(k, layer_coset(d), &layer_chain(d));
    assert!(cache.is_some());
    let params = EcFft::from_cache(3, cache).unwrap();
    let mut values: Vec<Fp> = (0..8u64).map(Fp::from).collect();
    params.fft(&mut values);
    let expected: Vec<Fp> = [0u64, 4, 2, 6, 1, 5, 3, 7].iter().map(|v| Fp::from(*v)).collect();
    assert_eq!(values, expected);
    assert!(EcFft::<Fp>::from_cache(3, None).is_none());
    assert!(EcFft::new(14, layer_coset(0), &Truncating).is_none());
}

#[test]
fn parameters_for_a_smaller_size() {
    let k = 4;
    let d = MAX_K - k;
    let params = EcFft::new(4, layer_coset(d), &layer_chain(d)).unwrap();
    let mut values: Vec<Fp> = (0..16u64).map(Fp::from).collect();
    params.fft(&mut values);
    assert_eq!(values[1], Fp::from(8));
    assert!(EcFft::new(4, layer_coset(d), &NotHalving).is_none());
    assert!(EcFft::new(1, layer_coset(MAX_K - 1), &NotHalving).is_some());
}

#[test]
fn trees_hold_the_answers() {
    let k = 5;
    let d = MAX_K - k;
    let chain = layer_chain(d);
    let cache = EcFftCache::new(k, layer_coset(d), &chain).unwrap();
    for depth in 0..(k - 1) {
        let tree = cache.get_tree(depth);
        let (s, s_prime) = tree.get_domain();
        let half_n = s.len() / 2;
        assert_eq!(
            tree.get_inv_factor(),
            &chain.get_factor(depth + 1, s, half_n, half_n as u64 - 1)
        );
        assert_eq!(
            tree.get_factor(),
            &chain.get_factor(depth + 1, s_prime, half_n, half_n as u64 - 1)
        );
        assert_ne!(tree.get_factor(), tree.get_inv_factor());
        let below = cache.get_tree(depth + 1).get_domain();
        assert_eq!(below.0, chain.domain_half_sizing(depth + 1, s.clone(), half_n));
        assert_eq!(
            below.1,
            chain.domain_half_sizing(depth + 1, s_prime.clone(), half_n)
        );
    }
}

#[test]
fn extension_of_one_value_is_the_value() {
    let cache = EcFftCache::new(2, layer_coset(MAX_K - 2), &layer_chain(MAX_K - 2)).unwrap();
    let mut one = vec![Fp::from(77)];
    // whatever the depth, one value stays
    ecfft::ecfft::utils::low_degree_extention(&mut one, 1, 9, &cache);
    assert_eq!(one, vec![Fp::from(77)]);
    ecfft::ecfft::utils::low_degree_extention(&mut one, 1, 0, &cache);
    assert_eq!(one, vec![Fp::from(77)]);
}
