//! The isogenies between the curves of the chain, as the transform sees
//! them.

use crate::scalar::Scalar;
use vstd::prelude::*;

verus! {

/// A 2-by-2 matrix of field elements, row by row: `((m00, m01), (m10, m11))`.
pub type Matrix<F> = ((F, F), (F, F));

/// The chain of isogenies, one for each depth from 1 on.
///
/// The isogeny of a depth maps a domain two-to-one onto the domain of the
/// next depth. An answer depends on the depth and the domain alone: it has a
/// name, and that is all that is said of it. The cache checks the shape of
/// every answer.
pub trait IsogenyProvider<F: Scalar>: Sync + Sized {
    /// What `get_factor` answers at `depth` for `domain`. An implementation
    /// that says no more of its answers leaves this some function of the
    /// provider, the depth and the domain.
    open spec fn factor_of(&self, depth: nat, domain: Seq<F>) -> Seq<Matrix<F>> {
        arbitrary::<spec_fn(Self, nat, Seq<F>) -> Seq<Matrix<F>>>()(*self, depth, domain)
    }

    /// What `domain_half_sizing` answers at `depth` for `domain`; as above.
    open spec fn halved(&self, depth: nat, domain: Seq<F>) -> Seq<F> {
        arbitrary::<spec_fn(Self, nat, Seq<F>) -> Seq<F>>()(*self, depth, domain)
    }

    /// The matrices that combine the two halves of a polynomial's values on
    /// `domain`, one for each pair of points that the isogeny identifies.
    fn get_factor(&self, depth: usize, domain: &Vec<F>, half_n: usize, exponent: u64) -> (factor:
        Vec<Matrix<F>>)
        requires
            depth >= 1,
            half_n >= 1,
            domain@.len() == 2 * half_n,
            exponent == half_n - 1,
        ensures
            factor@ == self.factor_of(depth as nat, domain@),
    ;

    /// The image of `domain` under the isogeny, half as long.
    fn domain_half_sizing(&self, depth: usize, domain: Vec<F>, half_n: usize) -> (half: Vec<F>)
        requires
            depth >= 1,
            half_n >= 1,
            domain@.len() == 2 * half_n,
        ensures
            half@ == self.halved(depth as nat, domain@),
    ;

    /// The image of one point under the isogeny.
    fn evaluate(&self, depth: usize, point: F) -> (image: F)
        requires
            depth >= 1,
    ;
}

} // verus!
