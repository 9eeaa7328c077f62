//! Core domain library for the Personal Knowledge Fabric: checked calendar
//! intervals and the deterministic two-agent Rendezvous agreement semantics.

pub mod calendar;
pub mod error;
pub mod identifier;
pub mod laws;
pub mod negotiation;
pub mod rendezvous;
pub mod text;
pub mod transcript;

pub use calendar::{CalendarError, LocalCalendar, UtcInterval};
pub use error::{RendezvousError, MAX_CANDIDATES};
pub use identifier::{CandidateId, MemberId, NegotiationId};
pub use negotiation::{NegotiationState, SubmissionOutcome, TwoAgentNegotiation};
pub use transcript::{format_decisions, format_eligibility};
pub use rendezvous::{
    Candidate, CandidateRound, DecisionResponse, Eligibility, EligibilityResponse,
    MeetingAgreement, MeetingRequest, MutualOptions, OwnerDecision, ProjectionProfile,
    SchedulingAgent,
};

use vstd::prelude::*;

verus! {

/// Returns a diagnostic string used by the command-line smoke check.
pub fn status() -> (s: &'static str)
    ensures
        s@ == "Personal Knowledge Fabric Rendezvous simulator is ready."@,
{
    "Personal Knowledge Fabric Rendezvous simulator is ready."
}

} // verus!
