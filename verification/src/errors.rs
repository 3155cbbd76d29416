//! The error taxonomy.  Every operation either returns its structured
//! payload or exactly one of these typed errors; nothing is retried and
//! nothing is repaired silently.

use vstd::prelude::*;

verus! {

/// Why an operation was refused or failed.
#[derive(Clone, Copy, Debug, PartialEq, Eq, Structural)]
pub enum TicketError {
    /// The input was rejected before any mutation (an empty title).
    Validation,
    /// A mention payload matched the token shape but did not fit an
    /// unsigned 64-bit identifier.  Defensive: the token shape caps the
    /// payload at nineteen digits, so this is never actually produced.
    Parse,
    /// The actor lacks the moderator capability; no state was changed.
    Unauthorized,
    /// The store could not persist the change.
    Store,
    /// The chat platform call failed; surfaced, never retried here.
    Provision,
    /// The ticket record and its channel field disagree: the record is
    /// marked closed but no channel was ever attached.
    InconsistentState,
}

} // verus!
