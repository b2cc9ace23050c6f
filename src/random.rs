//! Random bit sequences, to drive the encoder with arbitrary input.
use rand::rngs::ThreadRng;
use rand::Rng;
use vstd::prelude::*;

verus! {

#[verifier::external_type_specification]
#[verifier::external_body]
pub struct ExThreadRng(ThreadRng);

/// Relies on rand::thread_rng: it hands out the generator of the calling
/// thread, and promises nothing of the values it will draw.
pub assume_specification[ rand::thread_rng ]() -> ThreadRng;

/// Relies on rand's `Rng::gen_range` over the inclusive range `0..=1`: the
/// value drawn lies in that range.
#[verifier::external_body]
fn random_bit(rng: &mut ThreadRng) -> (r: i32)
    ensures
        0 <= r <= 1,
{
    rng.gen_range(0..=1)
}

/// A sequence of `length` random bits.
pub fn create_random_message(length: usize) -> (r: Vec<i32>)
    ensures
        r@.len() == length,
        forall|k: int| 0 <= k < length ==> r@[k] == 0 || r@[k] == 1,
{
    let mut rng = rand::thread_rng();
    let mut r: Vec<i32> = Vec::new();
    let mut i: usize = 0;
    while i < length
        invariant
            i <= length,
            r@.len() == i,
            forall|k: int| 0 <= k < i ==> r@[k] == 0 || r@[k] == 1,
        decreases length - i,
    {
        let bit = random_bit(&mut rng);
        r.push(bit);
        i = i + 1;
    }
    r
}

} // verus!
