//! The simulation's source of randomness: small jitters for projectile
//! deflection and for the scatter of split-spawned adversaries.
//!
//! This is the single random boundary: nothing is known of a drawn
//! value beyond its range, so every caller's contract states what holds
//! of every outcome, and the work done with a drawn value sits in
//! functions that take it as an argument.

use rand::Rng;
use vstd::prelude::*;

verus! {

/// Relies on rand's `Rng::gen_range` on the thread-local generator: for
/// a non-empty half-open range it returns a value in the range, and
/// nothing more is promised of it.
#[verifier::external_body]
pub fn random_in_range(lo: i64, hi: i64) -> (r: i64)
    requires
        lo < hi,
    ensures
        lo <= r < hi,
{
    rand::thread_rng().gen_range(lo..hi)
}

} // verus!
