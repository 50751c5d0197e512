//! Pairing approval. A `pairing.request` is handed to the UI, which answers
//! approve or reject; the handler waits a bounded time so that a missing or
//! closed UI cannot hang the peer. Every outcome but an explicit approval
//! is a rejection.
use vstd::prelude::*;

verus! {

/// How long, in seconds, `pairing.request` waits for the user's decision:
/// long enough to walk back to the host, short enough that clients do not
/// hold a connection forever.
pub const APPROVAL_TIMEOUT_SECS: u64 = 120;

/// What became of one approval request.
pub enum ApprovalOutcome {
    /// The request could not be handed to the UI (its queue is closed).
    NotDelivered,
    /// The UI answered: `true` approves, `false` rejects.
    Answered(bool),
    /// The UI dropped the request without answering.
    Dropped,
    /// No answer came within [`APPROVAL_TIMEOUT_SECS`].
    TimedOut,
}

/// Whether the device is approved: only an explicit approval counts;
/// callers map `false` to `PAIRING_REJECTED`.
pub fn approval_decision(outcome: &ApprovalOutcome) -> (approved: bool)
    ensures
        approved <==> (*outcome matches ApprovalOutcome::Answered(a) && a),
{
    match outcome {
        ApprovalOutcome::Answered(a) => *a,
        _ => false,
    }
}

} // verus!
