//! Random numbers, drawn from the thread's generator.

use vstd::prelude::*;
use rand::Rng;

verus! {

/// A number drawn from `lo..=hi` by `rand::Rng::gen_range` on
/// `rand::thread_rng()`. Nothing is proved of it: that the number lies in
/// the range is what the generator's documentation promises. Which number
/// comes differs from call to call. An empty range would make the generator
/// panic, so it is not accepted. The generator seeds itself from the
/// operating system when a thread first uses it, and panics where the
/// system has no randomness to give; no argument brings that about.
#[verifier::external_body]
pub(crate) fn random_between(lo: i64, hi: i64) -> (n: i64)
    requires
        lo <= hi,
    ensures
        lo <= n <= hi,
{
    rand::thread_rng().gen_range(lo..=hi)
}

} // verus!
