//! Random draws. The generator is the thread-local one of `fastrand`; a
//! fraction of `[0, 1)` is drawn as a 32-bit numerator over `2^32`, so that
//! every decision taken on a draw is integer arithmetic.

use vstd::prelude::*;

verus! {

/// Denominator of a drawn fraction: the draw `d` stands for `d / 2^32`.
pub const FRACTION_SCALE: u64 = 0x1_0000_0000;

/// Draws from `fastrand::u32` over the inclusive range `low..=high`.
///
/// Trusted: the generator answers inside the range it is given. It panics on
/// an empty range, which `low <= high` rules out.
#[verifier::external_body]
pub(crate) fn random_u32(low: u32, high: u32) -> (r: u32)
    requires
        low <= high,
    ensures
        low <= r <= high,
{
    fastrand::u32(low..=high)
}

/// Draws from `fastrand::usize` over the inclusive range `low..=high`.
///
/// Trusted: the generator answers inside the range it is given. It panics on
/// an empty range, which `low <= high` rules out.
#[verifier::external_body]
pub(crate) fn random_usize(low: usize, high: usize) -> (r: usize)
    requires
        low <= high,
    ensures
        low <= r <= high,
{
    fastrand::usize(low..=high)
}

/// Draws from `fastrand::isize` over the inclusive range `low..=high`.
///
/// Trusted: the generator answers inside the range it is given. It panics on
/// an empty range, which `low <= high` rules out.
#[verifier::external_body]
pub(crate) fn random_isize(low: isize, high: isize) -> (r: isize)
    requires
        low <= high,
    ensures
        low <= r <= high,
{
    fastrand::isize(low..=high)
}

/// The fraction `draw / 2^32` lies strictly below `1 / n`.
pub open spec fn below_one_in(draw: u32, n: u32) -> bool {
    draw * n < FRACTION_SCALE
}

/// Decides whether an event of probability `1 / n` happens on the fraction
/// that `draw` stands for. A fraction is drawn uniformly from `[0, 1)` as
/// `random_u32(0, u32::MAX)`.
pub fn falls_below_one_in(draw: u32, n: u32) -> (hit: bool)
    ensures
        hit == below_one_in(draw, n),
{
    assert(draw * n <= 0xFFFF_FFFF * 0xFFFF_FFFF) by (nonlinear_arith)
        requires
            0 <= draw <= 0xFFFF_FFFF,
            0 <= n <= 0xFFFF_FFFF,
    ;
    (draw as u64) * (n as u64) < FRACTION_SCALE
}

} // verus!
