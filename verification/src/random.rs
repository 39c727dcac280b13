use vstd::prelude::*;

verus! {

/// A number drawn by `rand::Rng::gen_range` over `low..high` from the thread's
/// generator: rand documents that it lies in the range, and panics on an empty range,
/// which `requires` leaves out. Which number it is depends on chance.
#[verifier::external_body]
pub(crate) fn gen_range(low: u64, high: u64) -> (r: u64)
    requires
        low < high,
    ensures
        low <= r < high,
{
    rand::Rng::gen_range(&mut rand::thread_rng(), low..high)
}

/// A number drawn by `rand::Rng::gen` from the thread's generator: any `u32` can come,
/// so nothing is said of it.
#[verifier::external_body]
pub(crate) fn gen_u32() -> u32 {
    rand::Rng::gen(&mut rand::thread_rng())
}

} // verus!
