//! Semantic validation failures of the one-round simulator profile.

use vstd::prelude::*;
use vstd::std_specs::cmp::PartialEqSpecImpl;

use crate::negotiation::{state_name, NegotiationState};
use crate::text::{decimal, push_decimal};

verus! {

/// Maximum disclosure in the one-round simulator profile.
pub const MAX_CANDIDATES: usize = 3;

/// Semantic validation failures.
#[derive(Debug, Eq)]
pub enum RendezvousError {
    /// A protocol-scoped identifier was malformed.
    InvalidIdentifier(&'static str),
    /// The coordinator and invitee must be different people.
    SameParticipant,
    /// The request duration was zero.
    ZeroDuration,
    /// Consent expiry must be later than request opening.
    InvalidExpiry,
    /// The round disclosed zero or more than three candidates.
    InvalidCandidateCount(usize),
    /// Candidate IDs must be unique within the round.
    DuplicateCandidateId(String),
    /// Different candidate IDs may not alias the same exact interval.
    DuplicateCandidateInterval(String),
    /// Every candidate must have the request's exact duration.
    CandidateDurationMismatch(String),
    /// Every candidate must be inside the approved horizon.
    CandidateOutsideHorizon(String),
    /// A candidate must still be in the future when a stage executes.
    CandidateAlreadyStarted(String),
    /// The request was not yet valid or had expired.
    Expired,
    /// A sender was not one of the two required participants.
    UnknownParticipant(String),
    /// An envelope was produced for different exact request/options data.
    EnvelopeScopeMismatch,
    /// A response did not contain the exact candidate IDs in exact order.
    CandidateVectorMismatch,
    /// A participant resent a different envelope for the same stage.
    ConflictingReplay(String),
    /// The message was not allowed in the current state.
    InvalidState {
        /// State required by this message.
        expected: NegotiationState,
        /// Actual state when it arrived.
        actual: NegotiationState,
    },
}

/// Mathematical model of a [`RendezvousError`]: text payloads as character sequences.
#[verifier::ext_equal]
pub enum SpecRendezvousError {
    InvalidIdentifier(Seq<char>),
    SameParticipant,
    ZeroDuration,
    InvalidExpiry,
    InvalidCandidateCount(nat),
    DuplicateCandidateId(Seq<char>),
    DuplicateCandidateInterval(Seq<char>),
    CandidateDurationMismatch(Seq<char>),
    CandidateOutsideHorizon(Seq<char>),
    CandidateAlreadyStarted(Seq<char>),
    Expired,
    UnknownParticipant(Seq<char>),
    EnvelopeScopeMismatch,
    CandidateVectorMismatch,
    ConflictingReplay(Seq<char>),
    InvalidState { expected: NegotiationState, actual: NegotiationState },
}

impl View for RendezvousError {
    type V = SpecRendezvousError;

    open spec fn view(&self) -> SpecRendezvousError {
        match self {
            RendezvousError::InvalidIdentifier(kind) => SpecRendezvousError::InvalidIdentifier(
                kind@,
            ),
            RendezvousError::SameParticipant => SpecRendezvousError::SameParticipant,
            RendezvousError::ZeroDuration => SpecRendezvousError::ZeroDuration,
            RendezvousError::InvalidExpiry => SpecRendezvousError::InvalidExpiry,
            RendezvousError::InvalidCandidateCount(n) => SpecRendezvousError::InvalidCandidateCount(
                *n as nat,
            ),
            RendezvousError::DuplicateCandidateId(id) => SpecRendezvousError::DuplicateCandidateId(
                id@,
            ),
            RendezvousError::DuplicateCandidateInterval(id) =>
                SpecRendezvousError::DuplicateCandidateInterval(id@),
            RendezvousError::CandidateDurationMismatch(id) =>
                SpecRendezvousError::CandidateDurationMismatch(id@),
            RendezvousError::CandidateOutsideHorizon(id) =>
                SpecRendezvousError::CandidateOutsideHorizon(id@),
            RendezvousError::CandidateAlreadyStarted(id) =>
                SpecRendezvousError::CandidateAlreadyStarted(id@),
            RendezvousError::Expired => SpecRendezvousError::Expired,
            RendezvousError::UnknownParticipant(id) => SpecRendezvousError::UnknownParticipant(id@),
            RendezvousError::EnvelopeScopeMismatch => SpecRendezvousError::EnvelopeScopeMismatch,
            RendezvousError::CandidateVectorMismatch => SpecRendezvousError::CandidateVectorMismatch,
            RendezvousError::ConflictingReplay(id) => SpecRendezvousError::ConflictingReplay(id@),
            RendezvousError::InvalidState { expected, actual } =>
                SpecRendezvousError::InvalidState { expected: *expected, actual: *actual },
        }
    }
}

/// Character-wise equality of two string slices.
pub fn str_equal(a: &str, b: &str) -> (r: bool)
    ensures
        r == (a@ == b@),
{
    let n = a.unicode_len();
    if n != b.unicode_len() {
        return false;
    }
    let mut i: usize = 0;
    while i < n
        invariant
            n == a@.len(),
            n == b@.len(),
            i <= n,
            forall|j: int| 0 <= j < i ==> a@[j] == b@[j],
        decreases n - i,
    {
        if a.get_char(i) != b.get_char(i) {
            return false;
        }
        i = i + 1;
    }
    assert(a@ =~= b@);
    true
}

impl Clone for RendezvousError {
    fn clone(&self) -> (r: Self)
        ensures
            r@ == self@,
    {
        match self {
            RendezvousError::InvalidIdentifier(kind) => RendezvousError::InvalidIdentifier(kind),
            RendezvousError::SameParticipant => RendezvousError::SameParticipant,
            RendezvousError::ZeroDuration => RendezvousError::ZeroDuration,
            RendezvousError::InvalidExpiry => RendezvousError::InvalidExpiry,
            RendezvousError::InvalidCandidateCount(n) => RendezvousError::InvalidCandidateCount(*n),
            RendezvousError::DuplicateCandidateId(id) => RendezvousError::DuplicateCandidateId(
                id.clone(),
            ),
            RendezvousError::DuplicateCandidateInterval(id) =>
                RendezvousError::DuplicateCandidateInterval(id.clone()),
            RendezvousError::CandidateDurationMismatch(id) =>
                RendezvousError::CandidateDurationMismatch(id.clone()),
            RendezvousError::CandidateOutsideHorizon(id) => RendezvousError::CandidateOutsideHorizon(
                id.clone(),
            ),
            RendezvousError::CandidateAlreadyStarted(id) => RendezvousError::CandidateAlreadyStarted(
                id.clone(),
            ),
            RendezvousError::Expired => RendezvousError::Expired,
            RendezvousError::UnknownParticipant(id) => RendezvousError::UnknownParticipant(
                id.clone(),
            ),
            RendezvousError::EnvelopeScopeMismatch => RendezvousError::EnvelopeScopeMismatch,
            RendezvousError::CandidateVectorMismatch => RendezvousError::CandidateVectorMismatch,
            RendezvousError::ConflictingReplay(id) => RendezvousError::ConflictingReplay(id.clone()),
            RendezvousError::InvalidState { expected, actual } => RendezvousError::InvalidState {
                expected: *expected,
                actual: *actual,
            },
        }
    }
}

impl PartialEq for RendezvousError {
    fn eq(&self, other: &Self) -> (r: bool) {
        match (self, other) {
            (RendezvousError::InvalidIdentifier(a), RendezvousError::InvalidIdentifier(b)) => {
                str_equal(a, b)
            },
            (RendezvousError::SameParticipant, RendezvousError::SameParticipant) => true,
            (RendezvousError::ZeroDuration, RendezvousError::ZeroDuration) => true,
            (RendezvousError::InvalidExpiry, RendezvousError::InvalidExpiry) => true,
            (
                RendezvousError::InvalidCandidateCount(a),
                RendezvousError::InvalidCandidateCount(b),
            ) => *a == *b,
            (
                RendezvousError::DuplicateCandidateId(a),
                RendezvousError::DuplicateCandidateId(b),
            ) => *a == *b,
            (
                RendezvousError::DuplicateCandidateInterval(a),
                RendezvousError::DuplicateCandidateInterval(b),
            ) => *a == *b,
            (
                RendezvousError::CandidateDurationMismatch(a),
                RendezvousError::CandidateDurationMismatch(b),
            ) => *a == *b,
            (
                RendezvousError::CandidateOutsideHorizon(a),
                RendezvousError::CandidateOutsideHorizon(b),
            ) => *a == *b,
            (
                RendezvousError::CandidateAlreadyStarted(a),
                RendezvousError::CandidateAlreadyStarted(b),
            ) => *a == *b,
            (RendezvousError::Expired, RendezvousError::Expired) => true,
            (RendezvousError::UnknownParticipant(a), RendezvousError::UnknownParticipant(b)) => {
                *a == *b
            },
            (RendezvousError::EnvelopeScopeMismatch, RendezvousError::EnvelopeScopeMismatch) => {
                true
            },
            (RendezvousError::CandidateVectorMismatch, RendezvousError::CandidateVectorMismatch) => {
                true
            },
            (RendezvousError::ConflictingReplay(a), RendezvousError::ConflictingReplay(b)) => {
                *a == *b
            },
            (
                RendezvousError::InvalidState { expected: e1, actual: a1 },
                RendezvousError::InvalidState { expected: e2, actual: a2 },
            ) => *e1 == *e2 && *a1 == *a2,
            _ => false,
        }
    }
}

impl PartialEqSpecImpl for RendezvousError {
    open spec fn obeys_eq_spec() -> bool {
        true
    }

    open spec fn eq_spec(&self, other: &Self) -> bool {
        self@ == other@
    }
}

/// Human-readable text of an error.
pub open spec fn error_message(e: SpecRendezvousError) -> Seq<char> {
    match e {
        SpecRendezvousError::InvalidIdentifier(kind) => kind
            + " identifier must be 1..=64 ASCII letters, digits, '.', '_', or '-'"@,
        SpecRendezvousError::SameParticipant => "the two participants must be distinct"@,
        SpecRendezvousError::ZeroDuration => "meeting duration must be non-zero"@,
        SpecRendezvousError::InvalidExpiry => "expiry must be later than opening time"@,
        SpecRendezvousError::InvalidCandidateCount(count) => "candidate count must be 1..="@
            + decimal(3) + ", got "@ + decimal(count),
        SpecRendezvousError::DuplicateCandidateId(id) => "duplicate candidate ID: "@ + id,
        SpecRendezvousError::DuplicateCandidateInterval(id) => "candidate "@ + id
            + " duplicates an exact interval"@,
        SpecRendezvousError::CandidateDurationMismatch(id) => "candidate "@ + id
            + " has the wrong duration"@,
        SpecRendezvousError::CandidateOutsideHorizon(id) => "candidate "@ + id
            + " is outside the approved horizon"@,
        SpecRendezvousError::CandidateAlreadyStarted(id) => "candidate "@ + id
            + " has already started"@,
        SpecRendezvousError::Expired => "the negotiation is not currently active"@,
        SpecRendezvousError::UnknownParticipant(id) => "unknown participant: "@ + id,
        SpecRendezvousError::EnvelopeScopeMismatch =>
            "response is bound to a different request or option set"@,
        SpecRendezvousError::CandidateVectorMismatch =>
            "response candidate vector does not match exact proposal order"@,
        SpecRendezvousError::ConflictingReplay(id) => "participant "@ + id
            + " sent a conflicting replay"@,
        SpecRendezvousError::InvalidState { expected, actual } => "expected state "@ + state_name(
            expected,
        ) + ", current state is "@ + state_name(actual),
    }
}

impl RendezvousError {
    /// Human-readable description of the error.
    pub fn message(&self) -> (s: String)
        ensures
            s@ == error_message(self@),
    {
        let mut out = String::new();
        match self {
            RendezvousError::InvalidIdentifier(kind) => {
                out.append(kind);
                out.append(" identifier must be 1..=64 ASCII letters, digits, '.', '_', or '-'");
            },
            RendezvousError::SameParticipant => {
                out.append("the two participants must be distinct");
            },
            RendezvousError::ZeroDuration => {
                out.append("meeting duration must be non-zero");
            },
            RendezvousError::InvalidExpiry => {
                out.append("expiry must be later than opening time");
            },
            RendezvousError::InvalidCandidateCount(count) => {
                out.append("candidate count must be 1..=");
                push_decimal(&mut out, MAX_CANDIDATES as u64);
                out.append(", got ");
                push_decimal(&mut out, *count as u64);
            },
            RendezvousError::DuplicateCandidateId(id) => {
                out.append("duplicate candidate ID: ");
                out.append(id.as_str());
            },
            RendezvousError::DuplicateCandidateInterval(id) => {
                out.append("candidate ");
                out.append(id.as_str());
                out.append(" duplicates an exact interval");
            },
            RendezvousError::CandidateDurationMismatch(id) => {
                out.append("candidate ");
                out.append(id.as_str());
                out.append(" has the wrong duration");
            },
            RendezvousError::CandidateOutsideHorizon(id) => {
                out.append("candidate ");
                out.append(id.as_str());
                out.append(" is outside the approved horizon");
            },
            RendezvousError::CandidateAlreadyStarted(id) => {
                out.append("candidate ");
                out.append(id.as_str());
                out.append(" has already started");
            },
            RendezvousError::Expired => {
                out.append("the negotiation is not currently active");
            },
            RendezvousError::UnknownParticipant(id) => {
                out.append("unknown participant: ");
                out.append(id.as_str());
            },
            RendezvousError::EnvelopeScopeMismatch => {
                out.append("response is bound to a different request or option set");
            },
            RendezvousError::CandidateVectorMismatch => {
                out.append("response candidate vector does not match exact proposal order");
            },
            RendezvousError::ConflictingReplay(id) => {
                out.append("participant ");
                out.append(id.as_str());
                out.append(" sent a conflicting replay");
            },
            RendezvousError::InvalidState { expected, actual } => {
                out.append("expected state ");
                out.append(expected.as_str());
                out.append(", current state is ");
                out.append(actual.as_str());
            },
        }
        assert(out@ =~= error_message(self@));
        out
    }
}

} // verus!
