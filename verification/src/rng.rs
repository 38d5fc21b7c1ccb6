//! The source of randomness: the thread-local generator of the `rand` crate.
use rand::rngs::ThreadRng;
use rand::Rng;
use vstd::prelude::*;

verus! {

/// `rand::rngs::ThreadRng`, a handle to the generator of the current thread.
/// Nothing is known of its state.
#[verifier::external_type_specification]
#[verifier::external_body]
pub struct ExThreadRng(ThreadRng);

/// `rand::thread_rng` hands out the handle. System entropy seeds the
/// generator, so nothing is claimed of what it will produce. The first call
/// on a thread panics if the system has no entropy to give.
pub assume_specification[ rand::thread_rng ]() -> (rng: ThreadRng)
;

/// `Rng::gen_range` on the inclusive range `low..=high`: the sample lies in
/// the range. An empty range makes it panic, so `low <= high` is required.
/// Which value of the range comes back is left open; that the samples are
/// uniform and independent is the generator's promise, not a proved fact.
#[verifier::external_body]
pub(crate) fn gen_range_inclusive(rng: &mut ThreadRng, low: i32, high: i32) -> (sample: i32)
    requires
        low <= high,
    ensures
        low <= sample <= high,
{
    rng.gen_range(low..=high)
}

} // verus!
