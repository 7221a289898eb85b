//! In-flight permits.
//!
//! A resolver's permits are counted by a [`tokio::sync::Semaphore`] that its
//! owner alone reaches: it is only ever called through a mutable borrow, so no
//! task waits on it and its count is what the last call left.

use vstd::prelude::*;

verus! {

/// [`tokio::sync::Semaphore`].
#[verifier::external_type_specification]
#[verifier::external_body]
pub struct ExSemaphore(tokio::sync::Semaphore);

/// The number of permits that `semaphore` has to give.
pub uninterp spec fn free_permits(semaphore: tokio::sync::Semaphore) -> nat;

/// The most permits that a semaphore can hold.
pub open spec fn max_permits() -> int {
    usize::MAX as int / 8
}

/// [`tokio::sync::Semaphore::new`] makes an open semaphore with this many permits.
/// It panics above `Semaphore::MAX_PERMITS`, which is `usize::MAX >> 3`.
#[verifier::external_body]
pub(crate) fn new_semaphore(permits: usize) -> (semaphore: tokio::sync::Semaphore)
    requires
        permits <= max_permits(),
    ensures
        free_permits(semaphore) == permits,
{
    tokio::sync::Semaphore::new(permits)
}

/// [`tokio::sync::Semaphore::try_acquire`] takes one permit where there is one and
/// fails otherwise; the semaphores of this crate are never closed. The permit is
/// forgotten, so that it is returned by [`return_permit`] alone.
#[verifier::external_body]
pub(crate) fn take_permit(semaphore: &mut tokio::sync::Semaphore) -> (taken: bool)
    ensures
        taken == (free_permits(*old(semaphore)) > 0),
        free_permits(*final(semaphore)) == free_permits(*old(semaphore)) - (if taken {
            1int
        } else {
            0int
        }),
{
    match semaphore.try_acquire() {
        Ok(permit) => {
            permit.forget();
            true
        },
        Err(_) => false,
    }
}

/// [`tokio::sync::Semaphore::available_permits`] returns the number of permits that
/// there are to give.
#[verifier::external_body]
pub(crate) fn count_permits(semaphore: &tokio::sync::Semaphore) -> (permits: usize)
    ensures
        permits == free_permits(*semaphore),
{
    semaphore.available_permits()
}

/// [`tokio::sync::Semaphore::add_permits`] adds permits, one here. It panics where
/// that would exceed `Semaphore::MAX_PERMITS`.
#[verifier::external_body]
pub(crate) fn return_permit(semaphore: &mut tokio::sync::Semaphore)
    requires
        free_permits(*old(semaphore)) < max_permits(),
    ensures
        free_permits(*final(semaphore)) == free_permits(*old(semaphore)) + 1,
{
    semaphore.add_permits(1)
}

} // verus!
