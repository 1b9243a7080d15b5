//! The three-point sampler abstraction.
//!
//! A sampler turns an (optimistic, most likely, pessimistic) triplet into
//! one duration or quantity. It is a trait rather than a concrete random
//! generator so that deterministic samplers can stand in during tests; the
//! Beta-PERT sampler that draws from a random generator implements this
//! trait outside the verified library.

use vstd::prelude::*;

verus! {

/// A triplet is valid when optimistic <= most likely <= pessimistic.
pub open spec fn valid_triplet(optimistic: u32, most_likely: u32, pessimistic: u32) -> bool {
    optimistic <= most_likely <= pessimistic
}

/// Draws one value from a three-point estimate.
///
/// On a valid triplet a sampler must succeed and stay within the triplet's
/// bounds; in particular a triplet collapsed to a single point samples as
/// that point. A sampler whose `always_most_likely` holds hands back the
/// most likely value on every call.
pub trait ThreePointSampler {
    /// True of samplers that always return the most likely value.
    open spec fn always_most_likely(&self) -> bool {
        false
    }

    /// Draws one value from the triplet.
    fn sample(&mut self, optimistic: u32, most_likely: u32, pessimistic: u32) -> (r: Result<
        u32,
        (),
    >)
        ensures
            valid_triplet(optimistic, most_likely, pessimistic) ==> r is Ok,
            r matches Ok(v) ==> (valid_triplet(optimistic, most_likely, pessimistic)
                ==> optimistic <= v <= pessimistic),
            old(self).always_most_likely() ==> r == Ok::<u32, ()>(most_likely) && final (self)
                .always_most_likely(),
    ;
}

/// A sampler that always returns the most likely value.
pub struct MockSampler;

impl ThreePointSampler for MockSampler {
    open spec fn always_most_likely(&self) -> bool {
        true
    }

    fn sample(&mut self, optimistic: u32, most_likely: u32, pessimistic: u32) -> (r: Result<
        u32,
        (),
    >) {
        Ok(most_likely)
    }
}

} // verus!
