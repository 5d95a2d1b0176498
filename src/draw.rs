use vstd::prelude::*;

verus! {

/// Relies on rand::random_range: a value of the half-open range, drawn from
/// the thread's generator; it panics on an empty range.
#[verifier::external_body]
pub(crate) fn draw_below(lo: usize, hi: usize) -> (r: usize)
    requires
        lo < hi,
    ensures
        lo <= r < hi,
{
    rand::random_range(lo..hi)
}

/// Relies on rand::random_ratio: true with chance `numerator / denominator`,
/// always true when the two are equal and never when the numerator is zero; it
/// panics when the denominator is zero or below the numerator.
#[verifier::external_body]
pub(crate) fn draw_ratio(numerator: u32, denominator: u32) -> (r: bool)
    requires
        0 < denominator,
        numerator <= denominator,
    ensures
        numerator == denominator ==> r,
        numerator == 0 ==> !r,
{
    rand::random_ratio(numerator, denominator)
}

} // verus!
