//! Fork-join parallelism.

use vstd::prelude::*;

verus! {

/// `rayon::join` runs both closures to completion, possibly in parallel, and
/// returns what they returned.
pub assume_specification<A, B, RA, RB>[ rayon::join::<A, B, RA, RB> ](oper_a: A, oper_b: B) -> (r: (
    RA,
    RB,
))
    where A: FnOnce() -> RA + Send, B: FnOnce() -> RB + Send, RA: Send, RB: Send
    requires
        call_requires(oper_a, ()),
        call_requires(oper_b, ()),
    ensures
        call_ensures(oper_a, (), r.0),
        call_ensures(oper_b, (), r.1),
;

} // verus!
