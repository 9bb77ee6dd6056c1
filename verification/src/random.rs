use rand::seq::SliceRandom;
use vstd::prelude::*;

verus! {

/// `rand::rngs::ThreadRng`, the handle to the generator of the current
/// thread. Nothing is known of its state.
#[verifier::external_type_specification]
#[verifier::external_body]
pub struct ExThreadRng(rand::rngs::ThreadRng);

/// `rand::thread_rng` hands out the generator of the current thread. Nothing
/// is claimed of it. It panics where the system cannot seed the generator,
/// which no caller can rule out.
pub assume_specification[ rand::thread_rng ]() -> (rng: rand::rngs::ThreadRng)
;

/// `SliceRandom::shuffle` on the slice of `order`. It only swaps entries of
/// the slice with one another, so what comes back holds the same values as
/// often as before; in which order is left open.
#[verifier::external_body]
pub(crate) fn shuffle(order: &mut Vec<usize>, rng: &mut rand::rngs::ThreadRng)
    ensures
        final(order)@.to_multiset() == old(order)@.to_multiset(),
{
    order.shuffle(rng);
}

} // verus!
