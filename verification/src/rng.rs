//! Thin trusted surface over the `fastrand` pseudo-random generator.
//!
//! Randomness only steers choices here (shuffle draws, axis picks); every
//! contract downstream holds for every value these calls may return.

use vstd::prelude::*;

verus! {

/// `fastrand::Rng` carried as an opaque pseudo-random source.
#[verifier::external_type_specification]
#[verifier::external_body]
pub struct ExRng(fastrand::Rng);

/// Relies on `fastrand::Rng::new`: a fresh generator forked from the
/// thread-local state.  Nothing is promised of the values it will yield.
#[verifier::external_body]
pub(crate) fn rng_new() -> fastrand::Rng {
    fastrand::Rng::new()
}

/// Relies on `fastrand::Rng::u8` over `0..=hi`: the result never exceeds
/// `hi`, whatever the generator state.
#[verifier::external_body]
pub(crate) fn rng_u8_bounded(rng: &mut fastrand::Rng, hi: u8) -> (r: u8)
    ensures
        r <= hi,
{
    rng.u8(0..=hi)
}

/// Relies on `fastrand::Rng::usize` over `0..n`: the result is below `n`.
/// The call panics on an empty range, so `n` must be positive.
#[verifier::external_body]
pub(crate) fn rng_index(rng: &mut fastrand::Rng, n: usize) -> (r: usize)
    requires
        n >= 1,
    ensures
        r < n,
{
    rng.usize(0..n)
}

} // verus!
