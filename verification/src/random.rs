//! Random numbers.

use vstd::prelude::*;
use rand::Rng;

verus! {

/// `Rng::gen_range` on `rand::thread_rng()`: a number drawn from the half-open
/// range that starts at `min` and ends before `max`. The call panics on an
/// empty range, which the precondition excludes.
#[verifier::external_body]
fn thread_rng_gen_range(min: u32, max: u32) -> (number: u32)
    requires
        min < max,
    ensures
        min <= number < max,
{
    rand::thread_rng().gen_range(min, max)
}

/// A random number that is at least `min` and less than `max`.
pub fn rand(min: u32, max: u32) -> (number: u32)
    requires
        min < max,
    ensures
        min <= number < max,
{
    thread_rng_gen_range(min, max)
}

} // verus!
