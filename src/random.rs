use vstd::prelude::*;

verus! {

/// rand's per-thread generator, carried through opaque.
#[verifier::external_type_specification]
#[verifier::external_body]
pub struct ExThreadRng(rand::ThreadRng);

/// Relies on rand::thread_rng: a handle on the thread's generator. Nothing is
/// promised of what it will draw.
pub assume_specification[ rand::thread_rng ]() -> rand::ThreadRng;

/// Relies on rand::seq::sample_indices: exactly `amount` non-repeating
/// indices drawn from `0..length`, in random order. It panics only when
/// `amount > length`.
#[verifier::external_body]
pub(crate) fn sample_indices(rng: &mut rand::ThreadRng, length: usize, amount: usize) -> (r: Vec<
    usize,
>)
    requires
        amount <= length,
    ensures
        r@.len() == amount,
        r@.no_duplicates(),
        forall|i: int| 0 <= i < r@.len() ==> r@[i] < length,
{
    rand::seq::sample_indices(rng, length, amount)
}

} // verus!
