//! The cache of per-depth domains and matrices, and the low-degree
//! extension that runs on it.

use crate::ecfft::isogeny::{IsogenyProvider, Matrix};
use crate::modular::{lemma_add_congruent, lemma_mul_congruent};
use crate::polynomial::{PointValue, Polynomial};
use crate::scalar::{copy_of, values, Scalar};
use rayon::join;
use vstd::arithmetic::div_mod::{lemma_add_mod_noop, lemma_mod_twice, lemma_small_mod};
use vstd::arithmetic::mul::{
    lemma_mul_is_associative, lemma_mul_is_distributive_add,
    lemma_mul_is_distributive_add_other_way,
};
use vstd::arithmetic::power2::{lemma_pow2_pos, lemma_pow2_unfold, pow2};
use vstd::prelude::*;

verus! {

/// The largest size exponent that a cache is built for.
pub const MAX_K: usize = 14;

/// The elements of `s` at even positions.
pub open spec fn evens<T>(s: Seq<T>) -> Seq<T> {
    Seq::new(s.len() / 2, |i: int| s[2 * i])
}

/// The elements of `s` at odd positions.
pub open spec fn odds<T>(s: Seq<T>) -> Seq<T> {
    Seq::new(s.len() / 2, |i: int| s[2 * i + 1])
}

/// The two halves of the domain at depth `d`: the even and the odd
/// positions of the coset, halved by the isogenies of the depths 1 to `d`.
pub open spec fn domain_at<F: Scalar, I: IsogenyProvider<F>>(
    isogenies: &I,
    coset: Seq<F>,
    d: nat,
) -> (Seq<F>, Seq<F>)
    decreases d,
{
    if d == 0 {
        (evens(coset), odds(coset))
    } else {
        let above = domain_at(isogenies, coset, (d - 1) as nat);
        (isogenies.halved(d, above.0), isogenies.halved(d, above.1))
    }
}

/// What `isogenies` answers for the domain at depth `d` has the lengths
/// that the cache needs: each list of matrices and each halved domain is
/// half as long as a half of the domain.
pub open spec fn answers_fit<F: Scalar, I: IsogenyProvider<F>>(
    isogenies: &I,
    coset: Seq<F>,
    d: nat,
) -> bool {
    let domain = domain_at(isogenies, coset, d);
    let half = domain.0.len() / 2;
    &&& isogenies.factor_of(d + 1, domain.0).len() == half
    &&& isogenies.factor_of(d + 1, domain.1).len() == half
    &&& isogenies.halved(d + 1, domain.0).len() == half
    &&& isogenies.halved(d + 1, domain.1).len() == half
}

/// The answers fit at every depth at which a cache for `2^k` points asks.
pub open spec fn chain_fits<F: Scalar, I: IsogenyProvider<F>>(
    isogenies: &I,
    coset: Seq<F>,
    k: nat,
) -> bool {
    forall|d: nat| d + 1 < k ==> #[trigger] answers_fit(isogenies, coset, d)
}

/// What one depth of the recursion needs: the two halves of the domain at
/// that depth, and the matrices that split and recombine values there.
#[derive(Debug)]
pub struct FfTree<F> {
    // evaluation domain same size with polynomial
    domain: (Vec<F>, Vec<F>),
    // factor for performing multiplication
    factor: Vec<Matrix<F>>,
    // inverse factor for performing multiplication
    inv_factor: Vec<Matrix<F>>,
}

/// The trees of all depths for one coset of `2^k` points.
#[derive(Debug)]
pub struct EcFftCache<F> {
    pub(crate) k: usize,
    pub(crate) trees: Vec<FfTree<F>>,
    pub(crate) coset: Vec<F>,
}

impl<F: Scalar> Clone for FfTree<F> {
    fn clone(&self) -> (r: Self)
        ensures
            r.same_as(self),
    {
        FfTree {
            domain: (copy_of(&self.domain.0), copy_of(&self.domain.1)),
            factor: copy_of(&self.factor),
            inv_factor: copy_of(&self.inv_factor),
        }
    }
}

impl<F: Scalar> Clone for EcFftCache<F> {
    fn clone(&self) -> (r: Self)
        ensures
            r.k() == self.k(),
            r.coset() == self.coset(),
            r.trees().len() == self.trees().len(),
            forall|d: int|
                0 <= d < self.trees().len() ==> (#[trigger] r.trees()[d]).same_as(&self.trees()[d]),
            self.wf() ==> r.wf(),
    {
        let n: usize = self.trees.len();
        let mut trees: Vec<FfTree<F>> = Vec::with_capacity(n);
        let mut d: usize = 0;
        while d < n
            invariant
                n == self.trees@.len(),
                d <= n,
                trees@.len() == d,
                forall|e: int| 0 <= e < d ==> (#[trigger] trees@[e]).same_as(&self.trees@[e]),
            decreases n - d,
        {
            trees.push(self.trees[d].clone());
            d += 1;
        }
        EcFftCache { k: self.k, trees, coset: copy_of(&self.coset) }
    }
}

impl<F: Scalar> FfTree<F> {
    /// Both trees hold the same domain and the same matrices.
    pub open spec fn same_as(&self, other: &Self) -> bool {
        &&& self.domain() == other.domain()
        &&& self.factor() == other.factor()
        &&& self.inv_factor() == other.inv_factor()
    }

    /// The two halves of the domain.
    pub closed spec fn domain(&self) -> (Seq<F>, Seq<F>) {
        (self.domain.0@, self.domain.1@)
    }

    /// The matrices that recombine.
    pub closed spec fn factor(&self) -> Seq<Matrix<F>> {
        self.factor@
    }

    /// The matrices that split.
    pub closed spec fn inv_factor(&self) -> Seq<Matrix<F>> {
        self.inv_factor@
    }

    /// The halves of the domain are equally long, and there is one matrix of
    /// each kind for every two points of a half.
    pub open spec fn wf(&self) -> bool {
        &&& self.domain().0.len() == self.domain().1.len()
        &&& self.factor().len() == self.domain().0.len() / 2
        &&& self.inv_factor().len() == self.domain().0.len() / 2
    }

    /// The tree is the one of depth `d` for `coset`: it holds the domain of
    /// that depth, as matrices that split what `isogenies` answers for the
    /// first half of the domain, and as matrices that recombine what it
    /// answers for the second. The last tree holds no matrices.
    pub open spec fn holds_answers<I: IsogenyProvider<F>>(
        &self,
        isogenies: &I,
        coset: Seq<F>,
        d: nat,
        last: bool,
    ) -> bool {
        let domain = domain_at(isogenies, coset, d);
        &&& self.domain() == domain
        &&& last ==> self.factor().len() == 0 && self.inv_factor().len() == 0
        &&& !last ==> self.inv_factor() == isogenies.factor_of(d + 1, domain.0)
        &&& !last ==> self.factor() == isogenies.factor_of(d + 1, domain.1)
    }

    /// The tree of the given parts, if their lengths fit together.
    pub fn new(domain: (Vec<F>, Vec<F>), factor: Vec<Matrix<F>>, inv_factor: Vec<Matrix<F>>) -> (r:
        Option<Self>)
        ensures
            r is Some <==> {
                &&& domain.0@.len() == domain.1@.len()
                &&& factor@.len() == domain.0@.len() / 2
                &&& inv_factor@.len() == domain.0@.len() / 2
            },
            r matches Some(tree) ==> {
                &&& tree.wf()
                &&& tree.domain() == (domain.0@, domain.1@)
                &&& tree.factor() == factor@
                &&& tree.inv_factor() == inv_factor@
            },
    {
        let half: usize = domain.0.len() / 2;
        if domain.0.len() == domain.1.len() && factor.len() == half && inv_factor.len() == half {
            Some(FfTree { domain, factor, inv_factor })
        } else {
            None
        }
    }

    pub fn get_domain(&self) -> (r: &(Vec<F>, Vec<F>))
        ensures
            (r.0@, r.1@) == self.domain(),
    {
        &self.domain
    }

    pub fn get_factor(&self) -> (r: &Vec<Matrix<F>>)
        ensures
            r@ == self.factor(),
    {
        &self.factor
    }

    pub fn get_inv_factor(&self) -> (r: &Vec<Matrix<F>>)
        ensures
            r@ == self.inv_factor(),
    {
        &self.inv_factor
    }

    /// The tree of the last depth: a domain and no matrices.
    pub fn last_tree(s: Vec<F>, s_prime: Vec<F>) -> (r: Self)
        ensures
            r.domain() == (s@, s_prime@),
            r.factor() == Seq::<Matrix<F>>::empty(),
            r.inv_factor() == Seq::<Matrix<F>>::empty(),
    {
        FfTree { domain: (s, s_prime), factor: vec![], inv_factor: vec![] }
    }
}

impl<F: Scalar> EcFftCache<F> {
    /// The size exponent: the coset has `2^k` points.
    pub closed spec fn k(&self) -> nat {
        self.k as nat
    }

    /// The trees, by depth.
    pub closed spec fn trees(&self) -> Seq<FfTree<F>> {
        self.trees@
    }

    /// The coset that the cache was built for.
    pub closed spec fn coset(&self) -> Seq<F> {
        self.coset@
    }

    /// There is one tree for each depth below `k`; the domain of depth `d`
    /// has two halves of `2^(k-1-d)` points, the first of them the even and
    /// odd positions of the coset.
    pub open spec fn wf(&self) -> bool {
        &&& 1 <= self.k() <= MAX_K
        &&& self.coset().len() == pow2(self.k())
        &&& self.trees().len() == self.k()
        &&& forall|d: int|
            0 <= d < self.k() ==> {
                &&& (#[trigger] self.trees()[d]).wf()
                &&& self.trees()[d].domain().0.len() == pow2((self.k() - 1 - d) as nat)
            }
        &&& self.trees()[0].domain() == (evens(self.coset()), odds(self.coset()))
    }

    /// Every tree holds what `isogenies` answers for its depth.
    pub open spec fn built_from<I: IsogenyProvider<F>>(&self, isogenies: &I) -> bool {
        forall|d: int|
            0 <= d < self.k() ==> (#[trigger] self.trees()[d]).holds_answers(
                isogenies,
                self.coset(),
                d as nat,
                d == self.k() - 1,
            )
    }

    /// Builds the trees of all depths for `coset`, asking `isogenies` for
    /// the matrices and the halved domain of each depth in turn. The
    /// matrices that it answers for the first half of a domain are taken as
    /// those that split, the ones for the second half as those that
    /// recombine.
    ///
    /// The result is `None` where an answer of `isogenies` has not the
    /// length that its depth calls for.
    pub fn new<I: IsogenyProvider<F>>(k: usize, coset: Vec<F>, isogenies: &I) -> (r: Option<Self>)
        requires
            1 <= k <= MAX_K,
            coset@.len() == pow2(k as nat),
        ensures
            r is Some <==> chain_fits(isogenies, coset@, k as nat),
            r matches Some(cache) ==> {
                &&& cache.wf()
                &&& cache.k() == k
                &&& cache.coset() == coset@
                &&& cache.built_from(isogenies)
            },
    {
        let mut trees: Vec<FfTree<F>> = Vec::new();
        let half: usize = coset.len() / 2;
        let mut s: Vec<F> = Vec::with_capacity(half);
        let mut s_prime: Vec<F> = Vec::with_capacity(half);
        proof {
            lemma_pow2_unfold(k as nat);
        }
        let mut j: usize = 0;
        while j < half
            invariant
                coset@.len() == 2 * half,
                2 * half <= usize::MAX,
                j <= half,
                s@ == evens(coset@).subrange(0, j as int),
                s_prime@ == odds(coset@).subrange(0, j as int),
            decreases half - j,
        {
            s.push(coset[2 * j]);
            s_prime.push(coset[2 * j + 1]);
            j += 1;
            assert(s@ =~= evens(coset@).subrange(0, j as int));
            assert(s_prime@ =~= odds(coset@).subrange(0, j as int));
        }
        assert(s@ =~= evens(coset@));
        assert(s_prime@ =~= odds(coset@));

        let mut i: usize = 1;
        while i < k
            invariant
                1 <= i <= k <= MAX_K,
                coset@.len() == pow2(k as nat),
                trees@.len() == i - 1,
                s@.len() == pow2((k - i) as nat),
                s_prime@.len() == pow2((k - i) as nat),
                (s@, s_prime@) == domain_at(isogenies, coset@, (i - 1) as nat),
                forall|d: nat| d + 1 < i ==> #[trigger] answers_fit(isogenies, coset@, d),
                forall|d: int|
                    0 <= d < i - 1 ==> {
                        &&& (#[trigger] trees@[d]).wf()
                        &&& trees@[d].domain().0.len() == pow2((k - 1 - d) as nat)
                        &&& trees@[d].holds_answers(isogenies, coset@, d as nat, false)
                    },
            decreases k - i,
        {
            proof {
                lemma_pow2_unfold((k - i) as nat);
                lemma_pow2_pos((k - i - 1) as nat);
            }
            let n: usize = s.len();
            let half_n: usize = n / 2;
            let exp: u64 = (half_n - 1) as u64;
            let ghost depth = (i - 1) as nat;
            let ghost domain = (s@, s_prime@);

            let (inv_factor, factor) = join(
                || -> (r: Vec<Matrix<F>>)
                    ensures
                        r@ == isogenies.factor_of(i as nat, s@)
                    { isogenies.get_factor(i, &s, half_n, exp) },
                || -> (r: Vec<Matrix<F>>)
                    ensures
                        r@ == isogenies.factor_of(i as nat, s_prime@)
                    { isogenies.get_factor(i, &s_prime, half_n, exp) },
            );

            let ghost before = trees@;
            match FfTree::new((copy_of(&s), copy_of(&s_prime)), factor, inv_factor) {
                Some(tree) => trees.push(tree),
                None => {
                    assert(!answers_fit(isogenies, coset@, depth));
                    return None;
                },
            }

            let (new_s, new_s_prime) = join(
                || -> (r: Vec<F>)
                    ensures
                        r@ == isogenies.halved(i as nat, s@)
                    { isogenies.domain_half_sizing(i, s, half_n) },
                || -> (r: Vec<F>)
                    ensures
                        r@ == isogenies.halved(i as nat, s_prime@)
                    { isogenies.domain_half_sizing(i, s_prime, half_n) },
            );
            if new_s.len() != half_n || new_s_prime.len() != half_n {
                assert(!answers_fit(isogenies, coset@, depth));
                return None;
            }
            s = new_s;
            s_prime = new_s_prime;
            proof {
                assert(answers_fit(isogenies, coset@, depth));
                assert forall|d: int| 0 <= d < i implies {
                    &&& (#[trigger] trees@[d]).wf()
                    &&& trees@[d].domain().0.len() == pow2((k - 1 - d) as nat)
                    &&& trees@[d].holds_answers(isogenies, coset@, d as nat, false)
                } by {
                    if d < i - 1 {
                        assert(trees@[d] == before[d]);
                    }
                }
            }
            i += 1;
        }

        let ghost before = trees@;
        trees.push(FfTree::last_tree(s, s_prime));
        proof {
            vstd::arithmetic::power2::lemma2_to64();
            assert forall|d: int| 0 <= d < k implies {
                &&& (#[trigger] trees@[d]).wf()
                &&& trees@[d].domain().0.len() == pow2((k - 1 - d) as nat)
                &&& trees@[d].holds_answers(isogenies, coset@, d as nat, d == k - 1)
            } by {
                if d < k - 1 {
                    assert(trees@[d] == before[d]);
                }
            }
        }
        Some(EcFftCache { k, trees, coset })
    }

    pub fn get_tree(&self, depth: usize) -> (r: &FfTree<F>)
        requires
            depth < self.trees().len(),
        ensures
            *r == self.trees()[depth as int],
    {
        &self.trees[depth]
    }

    pub fn get_trees(&self) -> (r: &Vec<FfTree<F>>)
        ensures
            r@ == self.trees(),
    {
        &self.trees
    }

    pub fn get_coset(&self) -> (r: &Vec<F>)
        ensures
            r@ == self.coset(),
    {
        &self.coset
    }

    // evaluate n/2 size of polynomial on n size coset
    pub fn extend(&self, poly: &mut Polynomial<F, PointValue>)
        requires
            self.wf(),
            old(poly)@.len() == pow2((self.k() - 1) as nat),
        ensures
            final(poly)@.len() == old(poly)@.len(),
            values(final(poly)@) == extension(values(old(poly)@), self.trees(), 0),
    {
        let coeffs = poly.values_mut();
        let n: usize = coeffs.len();
        low_degree_extention(coeffs.as_mut_slice(), n, 0, &self)
    }
}

/// The first row of a matrix applied to the column `(a, b)`.
pub open spec fn matrix_row0<F: Scalar>(m: Matrix<F>, a: int, b: int) -> int {
    (m.0.0.value() * a + m.0.1.value() * b) % F::modulus()
}

/// The second row of a matrix applied to the column `(a, b)`.
pub open spec fn matrix_row1<F: Scalar>(m: Matrix<F>, a: int, b: int) -> int {
    (m.1.0.value() * a + m.1.1.value() * b) % F::modulus()
}

/// The values `v`, of even length, after the `i`-th matrix was applied to
/// the `i`-th value of the first half and the `i`-th of the second, for
/// every `i`.
pub open spec fn matrix_step<F: Scalar>(v: Seq<int>, factor: Seq<Matrix<F>>) -> Seq<int> {
    let h = v.len() / 2;
    Seq::new(
        v.len(),
        |i: int|
            if i < h {
                matrix_row0(factor[i], v[i], v[i + h])
            } else {
                matrix_row1(factor[i - h], v[i - h], v[i])
            },
    )
}

/// The low-degree extension of the values `v` at the given depth: split by
/// the depth's inverse matrices, extend both halves one depth further down,
/// recombine by the depth's matrices. A single value is its own extension.
pub open spec fn extension<F: Scalar>(v: Seq<int>, trees: Seq<FfTree<F>>, depth: int) -> Seq<int>
    decreases v.len(),
{
    if v.len() <= 1 {
        v
    } else {
        let h = v.len() as int / 2;
        let split = matrix_step(v, trees[depth].inv_factor());
        let left = extension(split.subrange(0, h), trees, depth + 1);
        let right = extension(split.subrange(h, v.len() as int), trees, depth + 1);
        matrix_step(left + right, trees[depth].factor())
    }
}

/// What a call of the extension at `depth` on `n` values needs: nothing
/// where `n` is 1; else a well-formed cache with a tree for that depth,
/// whose domain has `n` points in each half.
pub open spec fn extension_ready<F: Scalar>(
    caches: &EcFftCache<F>,
    len: nat,
    n: usize,
    depth: usize,
) -> bool {
    n == 1 || {
        &&& caches.wf()
        &&& depth < caches.k()
        &&& len == n
        &&& n == pow2((caches.k() - 1 - depth) as nat)
    }
}

/// What a call of the extension at `depth` with the size `n` does: nothing
/// where `n` is 1; else it replaces the values by their extension.
pub open spec fn extended<F: Scalar>(
    caches: &EcFftCache<F>,
    before: Seq<F>,
    after: Seq<F>,
    n: usize,
    depth: usize,
) -> bool {
    &&& after.len() == before.len()
    &&& n == 1 ==> after == before
    &&& before.len() == n ==> values(after) == extension(
        values(before),
        caches.trees(),
        depth as int,
    )
}

/// `rayon::join` on the extensions of two disjoint halves: both run to
/// completion, each as `low_degree_extention` does on its half. The
/// recursion of `low_degree_extention` passes through here.
#[verifier::external_body]
fn extend_halves<F: Scalar>(
    left: &mut [F],
    right: &mut [F],
    n: usize,
    depth: usize,
    caches: &EcFftCache<F>,
)
    requires
        extension_ready(caches, old(left)@.len(), n, depth),
        extension_ready(caches, old(right)@.len(), n, depth),
    ensures
        extended(caches, old(left)@, final(left)@, n, depth),
        extended(caches, old(right)@, final(right)@, n, depth),
{
    join(
        || low_degree_extention(left, n, depth, caches),
        || low_degree_extention(right, n, depth, caches),
    );
}

// low degree extention using divide and conquer algorithm
pub fn low_degree_extention<F: Scalar>(
    coeffs: &mut [F],
    n: usize,
    depth: usize,
    caches: &EcFftCache<F>,
)
    requires
        extension_ready(caches, old(coeffs)@.len(), n, depth),
    ensures
        extended(caches, old(coeffs)@, final(coeffs)@, n, depth),
{
    if n == 1 {
        return ;
    }
    proof {
        vstd::arithmetic::power2::lemma2_to64();
        lemma_pow2_unfold((caches.k() - 1 - depth) as nat);
    }
    let ghost before = values(coeffs@);
    let cache = caches.get_tree(depth);
    let (left, right) = coeffs.split_at_mut(n / 2);
    matrix_arithmetic(left, right, cache.get_inv_factor());
    let ghost split = values(left@ + right@);
    proof {
        assert(split =~= matrix_step(before, cache.inv_factor()));
        assert(values(left@) =~= split.subrange(0, n as int / 2));
        assert(values(right@) =~= split.subrange(n as int / 2, n as int));
    }
    extend_halves(left, right, n / 2, depth + 1, caches);
    let ghost extended = values(left@ + right@);
    proof {
        assert(extended =~= values(left@) + values(right@));
    }
    matrix_arithmetic(left, right, cache.get_factor());
    proof {
        assert(values(left@ + right@) =~= matrix_step(extended, cache.factor()));
    }
}

/// Applies the `i`-th matrix to the pair of the `i`-th values of `left` and
/// `right`, for every `i`.
pub fn matrix_arithmetic<F: Scalar>(left: &mut [F], right: &mut [F], factor: &Vec<Matrix<F>>)
    requires
        old(left)@.len() == factor@.len(),
        old(right)@.len() == factor@.len(),
    ensures
        final(left)@.len() == factor@.len(),
        final(right)@.len() == factor@.len(),
        forall|i: int|
            0 <= i < factor@.len() ==> (#[trigger] final(left)@[i]).value() == matrix_row0(
                factor@[i],
                old(left)@[i].value(),
                old(right)@[i].value(),
            ),
        forall|i: int|
            0 <= i < factor@.len() ==> (#[trigger] final(right)@[i]).value() == matrix_row1(
                factor@[i],
                old(left)@[i].value(),
                old(right)@[i].value(),
            ),
{
    let n: usize = factor.len();
    let ghost left_before = left@;
    let ghost right_before = right@;
    proof {
        F::lemma_modulus();
    }
    let mut i: usize = 0;
    while i < n
        invariant
            n == factor@.len(),
            left@.len() == n,
            right@.len() == n,
            left_before.len() == n,
            right_before.len() == n,
            i <= n,
            F::modulus() > 1,
            forall|j: int|
                i <= j < n ==> left@[j] == left_before[j] && right@[j] == right_before[j],
            forall|j: int|
                0 <= j < i ==> (#[trigger] left@[j]).value() == matrix_row0(
                    factor@[j],
                    left_before[j].value(),
                    right_before[j].value(),
                ),
            forall|j: int|
                0 <= j < i ==> (#[trigger] right@[j]).value() == matrix_row1(
                    factor@[j],
                    left_before[j].value(),
                    right_before[j].value(),
                ),
        decreases n - i,
    {
        let ((f0, f1), (f2, f3)) = factor[i];
        let a = left[i];
        let b = right[i];
        let x = f0.mul(&a).add(&f1.mul(&b));
        let y = f2.mul(&a).add(&f3.mul(&b));
        proof {
            lemma_add_mod_noop(f0.value() * a.value(), f1.value() * b.value(), F::modulus());
            lemma_add_mod_noop(f2.value() * a.value(), f3.value() * b.value(), F::modulus());
        }
        left[i] = x;
        right[i] = y;
        i += 1;
    }
}

/// The product of `m` and `m_inv` is the identity matrix modulo the
/// field's modulus.
pub open spec fn is_inverse_pair<F: Scalar>(m: Matrix<F>, m_inv: Matrix<F>) -> bool {
    let p = F::modulus();
    &&& (m.0.0.value() * m_inv.0.0.value() + m.0.1.value() * m_inv.1.0.value()) % p == 1
    &&& (m.0.0.value() * m_inv.0.1.value() + m.0.1.value() * m_inv.1.1.value()) % p == 0
    &&& (m.1.0.value() * m_inv.0.0.value() + m.1.1.value() * m_inv.1.0.value()) % p == 0
    &&& (m.1.0.value() * m_inv.0.1.value() + m.1.1.value() * m_inv.1.1.value()) % p == 1
}

/// One row of a matrix product applied to a column: with `x` and `y` the
/// rows of the inner matrix applied to `(a, b)`, and `u` and `v` the entries
/// of the product's row, `f0 * x + f1 * y` is `u * a + v * b`.
proof fn lemma_row_of_product(
    f0: int,
    f1: int,
    i00: int,
    i01: int,
    i10: int,
    i11: int,
    a: int,
    b: int,
    u: int,
    v: int,
    p: int,
)
    requires
        p > 1,
        (f0 * i00 + f1 * i10) % p == u % p,
        (f0 * i01 + f1 * i11) % p == v % p,
    ensures
        (f0 * ((i00 * a + i01 * b) % p) + f1 * ((i10 * a + i11 * b) % p)) % p == (u * a + v * b)
            % p,
{
    let x = i00 * a + i01 * b;
    let y = i10 * a + i11 * b;
    lemma_mod_twice(x, p);
    lemma_mod_twice(y, p);
    lemma_mul_congruent(f0, x % p, f0, x, p);
    lemma_mul_congruent(f1, y % p, f1, y, p);
    lemma_add_congruent(f0 * (x % p), f1 * (y % p), f0 * x, f1 * y, p);
    assert(f0 * x + f1 * y == (f0 * i00 + f1 * i10) * a + (f0 * i01 + f1 * i11) * b) by {
        lemma_mul_is_distributive_add(f0, i00 * a, i01 * b);
        lemma_mul_is_distributive_add(f1, i10 * a, i11 * b);
        lemma_mul_is_associative(f0, i00, a);
        lemma_mul_is_associative(f0, i01, b);
        lemma_mul_is_associative(f1, i10, a);
        lemma_mul_is_associative(f1, i11, b);
        lemma_mul_is_distributive_add_other_way(a, f0 * i00, f1 * i10);
        lemma_mul_is_distributive_add_other_way(b, f0 * i01, f1 * i11);
    }
    lemma_mul_congruent(f0 * i00 + f1 * i10, a, u, a, p);
    lemma_mul_congruent(f0 * i01 + f1 * i11, b, v, b, p);
    lemma_add_congruent(
        (f0 * i00 + f1 * i10) * a,
        (f0 * i01 + f1 * i11) * b,
        u * a,
        v * b,
        p,
    );
}

/// Applying a matrix's inverse and then the matrix to a pair of values
/// gives the pair back, reduced.
pub proof fn lemma_factor_round_trip<F: Scalar>(
    factor: Matrix<F>,
    inv_factor: Matrix<F>,
    a: int,
    b: int,
)
    requires
        is_inverse_pair(factor, inv_factor),
    ensures
        matrix_row0(factor, matrix_row0(inv_factor, a, b), matrix_row1(inv_factor, a, b)) == a
            % F::modulus(),
        matrix_row1(factor, matrix_row0(inv_factor, a, b), matrix_row1(inv_factor, a, b)) == b
            % F::modulus(),
{
    let p = F::modulus();
    F::lemma_modulus();
    lemma_small_mod(1, p as nat);
    lemma_small_mod(0, p as nat);
    lemma_row_of_product(
        factor.0.0.value(),
        factor.0.1.value(),
        inv_factor.0.0.value(),
        inv_factor.0.1.value(),
        inv_factor.1.0.value(),
        inv_factor.1.1.value(),
        a,
        b,
        1,
        0,
        p,
    );
    lemma_row_of_product(
        factor.1.0.value(),
        factor.1.1.value(),
        inv_factor.0.0.value(),
        inv_factor.0.1.value(),
        inv_factor.1.0.value(),
        inv_factor.1.1.value(),
        a,
        b,
        0,
        1,
        p,
    );
    assert(1 * a + 0 * b == a && 0 * a + 1 * b == b);
}

/// Where the matrices of a depth are inverse to each other pair by pair,
/// splitting reduced values by the one kind and recombining them by the
/// other gives the values back.
pub proof fn lemma_matrix_step_round_trip<F: Scalar>(
    v: Seq<int>,
    factor: Seq<Matrix<F>>,
    inv_factor: Seq<Matrix<F>>,
)
    requires
        v.len() == 2 * factor.len(),
        inv_factor.len() == factor.len(),
        forall|i: int|
            0 <= i < factor.len() ==> is_inverse_pair(#[trigger] factor[i], inv_factor[i]),
        forall|i: int| 0 <= i < v.len() ==> 0 <= #[trigger] v[i] < F::modulus(),
    ensures
        matrix_step(matrix_step(v, inv_factor), factor) == v,
{
    let h = factor.len() as int;
    let split = matrix_step(v, inv_factor);
    let back = matrix_step(split, factor);
    assert forall|i: int| 0 <= i < v.len() implies back[i] == v[i] by {
        let low = if i < h {
            i
        } else {
            i - h
        };
        assert(is_inverse_pair(factor[low], inv_factor[low]));
        lemma_factor_round_trip(factor[low], inv_factor[low], v[low], v[low + h]);
        lemma_small_mod(v[low] as nat, F::modulus() as nat);
        lemma_small_mod(v[low + h] as nat, F::modulus() as nat);
    }
    assert(back =~= v);
}

/// Where, from `depth` on, the matrices of every depth are inverse to each
/// other pair by pair, the extension gives reduced values back as they are:
/// a cache that extends to another domain cannot have such matrices.
pub proof fn lemma_extension_round_trip<F: Scalar>(cache: &EcFftCache<F>, v: Seq<int>, depth: int)
    requires
        cache.wf(),
        0 <= depth < cache.k(),
        v.len() == pow2((cache.k() - 1 - depth) as nat),
        forall|i: int| 0 <= i < v.len() ==> 0 <= #[trigger] v[i] < F::modulus(),
        forall|d: int, i: int|
            depth <= d < cache.k() && 0 <= i < cache.trees()[d].factor().len() ==> is_inverse_pair(
                #[trigger] cache.trees()[d].factor()[i],
                cache.trees()[d].inv_factor()[i],
            ),
    ensures
        extension(v, cache.trees(), depth) == v,
    decreases v.len(),
{
    if v.len() > 1 {
        let tree = cache.trees()[depth];
        let h = v.len() as int / 2;
        vstd::arithmetic::power2::lemma2_to64();
        lemma_pow2_unfold((cache.k() - 1 - depth) as nat);
        F::lemma_modulus();
        assert(tree.wf());
        let split = matrix_step(v, tree.inv_factor());
        let first = split.subrange(0, h);
        let second = split.subrange(h, v.len() as int);
        assert(cache.trees()[depth + 1].wf());
        lemma_extension_round_trip(cache, first, depth + 1);
        lemma_extension_round_trip(cache, second, depth + 1);
        assert(first + second =~= split);
        assert forall|i: int| 0 <= i < tree.factor().len() implies is_inverse_pair(
            #[trigger] tree.factor()[i],
            tree.inv_factor()[i],
        ) by {
            assert(is_inverse_pair(
                cache.trees()[depth].factor()[i],
                cache.trees()[depth].inv_factor()[i],
            ));
        }
        lemma_matrix_step_round_trip(v, tree.factor(), tree.inv_factor());
    }
}

} // verus!
