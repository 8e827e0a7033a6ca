//! The system clock. Board ids, creation stamps and update stamps are epoch
//! milliseconds read here; the store's logic itself takes the time as an
//! argument, so everything downstream of this one call is verified for
//! every value the clock may produce.
use vstd::prelude::*;

verus! {

/// Relies on std::time::SystemTime::now, SystemTime::duration_since with
/// the Unix epoch, and Duration::as_millis: the milliseconds elapsed since
/// the epoch, truncated to 64 bits. Nothing is promised of the value — the
/// clock may move arbitrarily between calls. Panics only when the system
/// clock reads before the epoch.
#[verifier::external_body]
fn system_millis() -> u64 {
    std::time::SystemTime::now().duration_since(std::time::UNIX_EPOCH).unwrap().as_millis() as u64
}

/// The current time in epoch milliseconds: what new board ids, creation
/// stamps and update stamps are made of.
pub fn now_millis() -> u64 {
    system_millis()
}

} // verus!
