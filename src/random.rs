use vstd::prelude::*;

verus! {

/// Relies on rand's `Rng::gen_range` on `thread_rng()`: it returns a value of
/// the half-open range `low..high` and panics when that range is empty.
#[verifier::external_body]
pub(crate) fn random_range(low: usize, high: usize) -> (r: usize)
    requires
        low < high,
    ensures
        low <= r < high,
{
    rand::Rng::gen_range(&mut rand::thread_rng(), low..high)
}

} // verus!
