use vstd::prelude::*;

verus! {

/// Relies on rand::random_range: a uniformly distributed value in the given
/// range, here [0, bound). It panics only on an empty range, which the
/// precondition rules out.
#[verifier::external_body]
pub(crate) fn draw_below(bound: u32) -> (r: u32)
    requires
        1 <= bound,
    ensures
        r < bound,
{
    rand::random_range(0..bound)
}

} // verus!
