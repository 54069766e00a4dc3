use vstd::prelude::*;
use rand::RngExt;

verus! {

/// A byte drawn uniformly from `0..=255` by the thread-local generator of the
/// `rand` crate (`rand::rng().random_range`). Nothing is promised of its value:
/// every byte may come back.
#[verifier::external_body]
pub(crate) fn random_byte() -> u8 {
    rand::rng().random_range(0..=255u8)
}

} // verus!
