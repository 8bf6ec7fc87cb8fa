use vstd::prelude::*;

verus! {

/// Relies on rand 0.8's `Rng::gen_range` on `thread_rng()`: it returns a value of
/// the half-open range `lo..hi`, and panics when that range is empty.
#[verifier::external_body]
pub(crate) fn random_in(lo: u16, hi: u16) -> (r: u16)
    requires
        lo < hi,
    ensures
        lo <= r < hi,
{
    rand::Rng::gen_range(&mut rand::thread_rng(), lo..hi)
}

} // verus!
