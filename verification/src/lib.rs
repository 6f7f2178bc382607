//! Core logic of an ephemeral link-sharing service.
//!
//! The crate has two consistency-critical pieces: a ledger of short-lived
//! link entries with atomic view consumption and burn-on-exhaustion
//! ([`ledger`]), and a registry of ephemeral broadcast chat rooms with
//! idle-based sweeping and terminal-burn semantics ([`hub`]).  Around them
//! stand the pure helpers that request handlers use: option cleaning,
//! time-to-live parsing, tag selection, slug generation and the wire
//! encoding of room events.

use vstd::prelude::*;

pub mod assoc;
pub mod codec;
pub mod dispatch;
pub mod hub;
pub mod ledger;
pub mod slug;
pub mod relay;
pub mod text;
pub mod ttl;
pub mod vibe;

verus! {

/// The failure taxonomy of the core.  Absent, time-expired and
/// view-exhausted entries are deliberately indistinguishable: all three
/// surface as `NotFound`.
#[derive(Clone, Copy, Debug, PartialEq, Eq, Structural)]
pub enum CoreError {
    /// Slug or room absent, logically expired, or exhausted.
    NotFound,
    /// The slug already exists on insert.
    Conflict,
    /// Datastore failure, surfaced verbatim and never retried here.
    Storage,
    /// The room is absent or burned, for attach attempts.
    RoomGone,
    /// Bounded slug retries exhausted on creation.
    CreateFailed,
}

/// Relies on `std::time::SystemTime::now`: the seconds since the Unix
/// epoch by the system clock.  Every arm yields a non-negative reading: a
/// clock before the epoch reads as zero, and one beyond the signed range
/// as the bound itself.
#[verifier::external_body]
pub fn now_unix() -> (r: i64)
    ensures
        0 <= r,
{
    match std::time::SystemTime::now().duration_since(std::time::UNIX_EPOCH) {
        Ok(d) => i64::try_from(d.as_secs()).unwrap_or(i64::MAX),
        Err(_) => 0,
    }
}

} // verus!
