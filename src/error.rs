//! Errors of the threshold signing protocol.

use vstd::prelude::*;

verus! {

/// Identity of a signer within one protocol run.
pub type ParticipantId = u16;

#[derive(Debug, PartialEq, Eq)]
pub enum BBSPlusError {
    /// A signature share was asked for with no message.
    NoMessageToSign,
    /// The number of messages (first) differs from what the parameters support (second).
    MessageCountIncompatibleWithSigParams(usize, usize),
    /// A message index is out of range or given twice.
    InvalidMessageIndex(usize),
    /// The signature index is beyond the batch.
    IndexOutOfBatch(usize),
    /// This participant's share carries another `e` than the first share.
    IncorrectEByParticipant(ParticipantId),
    /// This participant's share carries another `s` than the first share.
    IncorrectSByParticipant(ParticipantId),
    /// The `u` values of the shares sum to zero, which has no inverse.
    DegenerateAggregate,
    /// Shares were received from this participant before its commitment.
    ProtocolOrderViolation(ParticipantId),
    /// This participant contributed twice.
    DuplicateParticipant(ParticipantId),
    /// This participant is not one of the expected peers.
    UnknownParticipant(ParticipantId),
    /// This participant revealed another number of values than were asked for.
    IncorrectNumberOfShares(ParticipantId),
    /// What this participant revealed does not match its commitment.
    CommitmentMismatch(ParticipantId),
    /// Not every expected peer has contributed yet.
    IncompleteRound,
}

} // verus!
