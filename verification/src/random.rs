//! The random draws the environments and action spaces make, through `rand`.

use rand::rngs::ThreadRng;
use rand::Rng;
use vstd::prelude::*;

verus! {

/// `rand::rngs::ThreadRng`, the generator that each thread keeps and that the
/// system seeds. Its state is not visible to the contracts.
#[verifier::external_type_specification]
#[verifier::external_body]
pub struct ExThreadRng(rand::rngs::ThreadRng);

/// Calls `rand::thread_rng`, which hands out this thread's generator. Nothing is
/// stated of the result: its state comes from the system's entropy. (The
/// function panics only when the system cannot give a seed.)
#[verifier::external_body]
pub(crate) fn thread_rng() -> ThreadRng {
    rand::thread_rng()
}

/// Calls `rand::Rng::gen_range` with the half-open range `low..high` of `usize`.
/// The contract states what rand documents of every outcome: the value lies in
/// the range. Which value comes out rests on the generator and is not stated.
/// The range must not be empty: `gen_range` panics on an empty one.
#[verifier::external_body]
pub(crate) fn gen_range(rng: &mut ThreadRng, low: usize, high: usize) -> (value: usize)
    requires
        low < high,
    ensures
        low <= value < high,
{
    rng.gen_range(low..high)
}

} // verus!
