//! The deterministic two-agent transcript reducer.

use vstd::prelude::*;

use crate::error::{RendezvousError, SpecRendezvousError};
use crate::identifier::MemberId;
use crate::rendezvous::{
    candidate_ids, candidate_views, decision_ids, decision_views, eligibility_ids,
    eligibility_views, first_true, lemma_first_true, participant_slot, projection_name,
    round_inactive, same_order_decisions, same_order_eligibility, valid_candidate, valid_round,
    view_option,
    Candidate, CandidateRound, DecisionResponse, Eligibility, EligibilityResponse,
    MeetingAgreement, MutualOptions, OwnerDecision, SpecAgreement, SpecCandidate, SpecDecision,
    SpecDecisionResponse, SpecEligibility, SpecEligibilityResponse, SpecMutualOptions, SpecRound,
};
use crate::text::{
    length_prefixed, number_field, push_length_prefixed, push_number_field,
};

verus! {

/// Observable state of the one-round semantic state machine.
#[derive(Clone, Copy, Debug, PartialEq, Eq, Structural)]
pub enum NegotiationState {
    /// Waiting for one eligibility vector from each participant.
    AwaitingEligibility,
    /// Waiting for one explicit decision vector from each participant.
    AwaitingDecisions,
    /// An exact option was unanimously accepted.
    Agreed,
    /// No mutually eligible and unanimously accepted option exists.
    NoMatch,
}

/// Name of a state as it appears in transcripts.
pub open spec fn state_name(state: NegotiationState) -> Seq<char> {
    match state {
        NegotiationState::AwaitingEligibility => "awaiting_eligibility"@,
        NegotiationState::AwaitingDecisions => "awaiting_decisions"@,
        NegotiationState::Agreed => "agreed"@,
        NegotiationState::NoMatch => "no_match"@,
    }
}

impl NegotiationState {
    /// Transcript name of the state.
    pub fn as_str(&self) -> (s: &'static str)
        ensures
            s@ == state_name(*self),
    {
        match self {
            NegotiationState::AwaitingEligibility => "awaiting_eligibility",
            NegotiationState::AwaitingDecisions => "awaiting_decisions",
            NegotiationState::Agreed => "agreed",
            NegotiationState::NoMatch => "no_match",
        }
    }
}

/// Result of submitting an envelope to the idempotent in-memory state machine.
#[derive(Clone, Copy, Debug, PartialEq, Eq, Structural)]
pub enum SubmissionOutcome {
    /// The envelope was new and recorded.
    Recorded,
    /// The exact same participant envelope was already recorded.
    DuplicateIgnored,
}

/// Model of a submission result.
pub open spec fn view_outcome(r: Result<SubmissionOutcome, RendezvousError>) -> Result<
    SubmissionOutcome,
    SpecRendezvousError,
> {
    match r {
        Ok(o) => Ok(o),
        Err(e) => Err(e@),
    }
}

// ---------------------------------------------------------------------------
// Agreement key
// ---------------------------------------------------------------------------

/// Entry of one proposed candidate in the agreement key.
pub open spec fn candidate_entry(c: SpecCandidate) -> Seq<char> {
    length_prefixed(c.id) + number_field(c.interval.start() as int) + number_field(
        c.interval.duration() as int,
    )
}

/// Entries of all proposed candidates, in proposal order.
pub open spec fn candidate_entries(cs: Seq<SpecCandidate>) -> Seq<char>
    decreases cs.len(),
{
    if cs.len() == 0 {
        Seq::empty()
    } else {
        candidate_entries(cs.drop_last()) + candidate_entry(cs.last())
    }
}

/// The request and round header of the agreement key.
pub open spec fn key_header(r: SpecRound) -> Seq<char> {
    let q = r.request;
    "fabric-schedule-sim/0;"@ + length_prefixed(q.negotiation_id) + length_prefixed(q.coordinator)
        + length_prefixed(q.invitee) + length_prefixed(projection_name(q.projection))
        + length_prefixed("first_unanimous_in_proposal_order"@) + number_field(
        q.horizon.start() as int,
    ) + number_field(q.horizon.duration() as int) + number_field(q.duration_seconds as int)
        + number_field(q.opened_at as int) + number_field(q.expires_at as int) + number_field(
        r.round as int,
    ) + number_field(r.candidates.len() as int)
}

/// Stable, length-prefixed comparison key of an agreement on `selected` in round `r`.
pub open spec fn agreement_key_text(r: SpecRound, selected: SpecCandidate) -> Seq<char> {
    key_header(r) + candidate_entries(r.candidates) + length_prefixed(selected.id)
}

/// Builds the comparison key of an agreement on `candidate` in `round`.
pub fn canonical_agreement_key(round: &CandidateRound, candidate: &Candidate) -> (key: String)
    ensures
        key@ == agreement_key_text(round@, candidate@),
        valid_round(round@),
        valid_candidate(candidate@),
{
    proof {
        use_type_invariant(round);
        use_type_invariant(candidate);
    }
    let request = round.request();
    let horizon = request.horizon();
    let mut out = String::new();
    out.append("fabric-schedule-sim/0;");
    push_length_prefixed(&mut out, request.negotiation_id().as_str());
    let participants = request.participants();
    push_length_prefixed(&mut out, participants[0].as_str());
    push_length_prefixed(&mut out, participants[1].as_str());
    push_length_prefixed(&mut out, request.projection().as_str());
    push_length_prefixed(&mut out, "first_unanimous_in_proposal_order");
    push_number_field(&mut out, horizon.start_utc_ms());
    push_number_field(&mut out, horizon.duration_seconds() as i64);
    push_number_field(&mut out, request.duration_seconds() as i64);
    push_number_field(&mut out, request.opened_at_utc_ms());
    push_number_field(&mut out, request.expires_at_utc_ms());
    push_number_field(&mut out, round.round() as i64);
    let candidates = round.candidates();
    let n = candidates.len();
    proof {
        use_type_invariant(round);
    }
    assert(n <= 3);
    push_number_field(&mut out, n as i64);
    assert(out@ =~= key_header(round@));
    let ghost cs = round@.candidates;
    let mut i: usize = 0;
    while i < n
        invariant
            n == candidates@.len(),
            i <= n,
            cs == candidate_views(candidates@),
            out@ == key_header(round@) + candidate_entries(cs.take(i as int)),
        decreases n - i,
    {
        let c = &candidates[i];
        let ghost before = out@;
        push_length_prefixed(&mut out, c.id().as_str());
        push_number_field(&mut out, c.interval().start_utc_ms());
        push_number_field(&mut out, c.interval().duration_seconds() as i64);
        assert(cs.take(i + 1).drop_last() =~= cs.take(i as int));
        assert(cs.take(i + 1).last() == cs[i as int]);
        assert(out@ =~= before + candidate_entry(cs[i as int]));
        i = i + 1;
    }
    assert(cs.take(n as int) =~= cs);
    push_length_prefixed(&mut out, candidate.id().as_str());
    assert(out@ =~= agreement_key_text(round@, candidate@));
    out
}


// ---------------------------------------------------------------------------
// Negotiation model
// ---------------------------------------------------------------------------

/// The value held for participant slot `k` (0: coordinator, 1: invitee).
pub open spec fn slot<A>(pair: (Option<A>, Option<A>), k: int) -> Option<A> {
    if k == 0 {
        pair.0
    } else {
        pair.1
    }
}

/// `pair` with slot `k` set to `v`.
pub open spec fn with_slot<A>(pair: (Option<A>, Option<A>), k: int, v: A) -> (Option<A>, Option<A>) {
    if k == 0 {
        (Some(v), pair.1)
    } else {
        (pair.0, Some(v))
    }
}

/// Model of a [`TwoAgentNegotiation`].
pub struct SpecNegotiation {
    pub round: SpecRound,
    pub state: NegotiationState,
    pub eligibility: (Option<SpecEligibilityResponse>, Option<SpecEligibilityResponse>),
    pub mutual_options: Option<SpecMutualOptions>,
    pub decisions: (Option<SpecDecisionResponse>, Option<SpecDecisionResponse>),
    pub agreement: Option<SpecAgreement>,
}

/// A freshly opened negotiation.
pub open spec fn initial(round: SpecRound) -> SpecNegotiation {
    SpecNegotiation {
        round,
        state: NegotiationState::AwaitingEligibility,
        eligibility: (None, None),
        mutual_options: None,
        decisions: (None, None),
        agreement: None,
    }
}

/// Candidates, in proposal order, that both eligibility vectors mark available.
pub open spec fn mutual_candidates(
    cs: Seq<SpecCandidate>,
    a: Seq<SpecEligibility>,
    b: Seq<SpecEligibility>,
) -> Seq<SpecCandidate>
    decreases cs.len(),
{
    if cs.len() == 0 {
        Seq::empty()
    } else {
        let n = cs.len() - 1;
        let prev = mutual_candidates(cs.drop_last(), a, b);
        if a[n].available && b[n].available {
            prev.push(cs[n])
        } else {
            prev
        }
    }
}

/// Flags, per mutual option, whether both owners accepted it.
pub open spec fn unanimous_flags(n: nat, a: Seq<SpecDecision>, b: Seq<SpecDecision>) -> Seq<bool> {
    Seq::new(n, |i: int| a[i].accepted && b[i].accepted)
}

/// The agreement reached on `selected` in round `r`.
pub open spec fn agreement_on(r: SpecRound, selected: SpecCandidate) -> SpecAgreement {
    SpecAgreement { round: r, selected, key: agreement_key_text(r, selected) }
}

/// An eligibility vector fits slot `k`: it is bound to the round, comes from
/// the participant of slot `k`, and names the round's candidates in order.
pub open spec fn eligibility_fits(round: SpecRound, r: SpecEligibilityResponse, k: int) -> bool {
    &&& r.scope == round
    &&& participant_slot(round.request, r.member_id) == Some(k)
    &&& eligibility_ids(r.values) == candidate_ids(round.candidates)
}

/// A decision vector fits slot `k` of these options.
pub open spec fn decision_fits(
    round: SpecRound,
    options: SpecMutualOptions,
    r: SpecDecisionResponse,
    k: int,
) -> bool {
    &&& r.scope == options
    &&& participant_slot(round.request, r.member_id) == Some(k)
    &&& decision_ids(r.values) == candidate_ids(options.candidates)
}

/// State, options and agreement as functions of the recorded envelopes.
pub open spec fn settled(m: SpecNegotiation) -> bool {
    match m.eligibility {
        (Some(e0), Some(e1)) => {
            let mutual = mutual_candidates(m.round.candidates, e0.values, e1.values);
            if mutual.len() == 0 {
                &&& m.state == NegotiationState::NoMatch
                &&& m.mutual_options is None
                &&& m.decisions == (None::<SpecDecisionResponse>, None::<SpecDecisionResponse>)
                &&& m.agreement is None
            } else {
                &&& m.mutual_options == Some(
                    SpecMutualOptions { scope: m.round, candidates: mutual },
                )
                &&& match m.decisions {
                    (Some(d0), Some(d1)) => match first_true(
                        unanimous_flags(mutual.len(), d0.values, d1.values),
                    ) {
                        Some(i) => m.state == NegotiationState::Agreed && m.agreement == Some(
                            agreement_on(m.round, mutual[i]),
                        ),
                        None => m.state == NegotiationState::NoMatch && m.agreement is None,
                    },
                    _ => m.state == NegotiationState::AwaitingDecisions && m.agreement is None,
                }
            }
        },
        _ => {
            &&& m.state == NegotiationState::AwaitingEligibility
            &&& m.mutual_options is None
            &&& m.decisions == (None::<SpecDecisionResponse>, None::<SpecDecisionResponse>)
            &&& m.agreement is None
        },
    }
}

/// Invariant of every reachable negotiation: a valid round, envelopes that
/// fit their slots, and a state [`settled`] by those envelopes.
pub open spec fn negotiation_inv(m: SpecNegotiation) -> bool {
    &&& valid_round(m.round)
    &&& forall|k: int|
        (k == 0 || k == 1) && (#[trigger] slot(m.eligibility, k)) is Some ==> eligibility_fits(
            m.round,
            slot(m.eligibility, k).unwrap(),
            k,
        )
    &&& forall|k: int|
        (k == 0 || k == 1) && (#[trigger] slot(m.decisions, k)) is Some ==> m.mutual_options is Some
            && decision_fits(m.round, m.mutual_options.unwrap(), slot(m.decisions, k).unwrap(), k)
    &&& settled(m)
}

/// `m` after recording eligibility vector `r` in slot `k`.
pub open spec fn after_eligibility(m: SpecNegotiation, k: int, r: SpecEligibilityResponse) -> SpecNegotiation {
    let slots = with_slot(m.eligibility, k, r);
    match slots {
        (Some(e0), Some(e1)) => {
            let mutual = mutual_candidates(m.round.candidates, e0.values, e1.values);
            if mutual.len() == 0 {
                SpecNegotiation {
                    round: m.round,
                    state: NegotiationState::NoMatch,
                    eligibility: slots,
                    mutual_options: m.mutual_options,
                    decisions: m.decisions,
                    agreement: m.agreement,
                }
            } else {
                SpecNegotiation {
                    round: m.round,
                    state: NegotiationState::AwaitingDecisions,
                    eligibility: slots,
                    mutual_options: Some(SpecMutualOptions { scope: m.round, candidates: mutual }),
                    decisions: m.decisions,
                    agreement: m.agreement,
                }
            }
        },
        _ => SpecNegotiation {
            round: m.round,
            state: m.state,
            eligibility: slots,
            mutual_options: m.mutual_options,
            decisions: m.decisions,
            agreement: m.agreement,
        },
    }
}

/// One eligibility submission: checks, in order, the exact round scope, the
/// sender, the candidate order, a replay of the sender's slot (an identical
/// replay is ignored at any time, a different one refused), the round's
/// activity at `now`, and the state; a refused submission changes nothing.
pub open spec fn eligibility_step(m: SpecNegotiation, r: SpecEligibilityResponse, now: i64) -> (
    SpecNegotiation,
    Result<SubmissionOutcome, SpecRendezvousError>,
) {
    if r.scope != m.round {
        (m, Err(SpecRendezvousError::EnvelopeScopeMismatch))
    } else {
        match participant_slot(m.round.request, r.member_id) {
            None => (m, Err(SpecRendezvousError::UnknownParticipant(r.member_id))),
            Some(k) => if eligibility_ids(r.values) != candidate_ids(m.round.candidates) {
                (m, Err(SpecRendezvousError::CandidateVectorMismatch))
            } else {
                match slot(m.eligibility, k) {
                    Some(existing) => if existing == r {
                        (m, Ok(SubmissionOutcome::DuplicateIgnored))
                    } else {
                        (m, Err(SpecRendezvousError::ConflictingReplay(r.member_id)))
                    },
                    None => match round_inactive(m.round, now) {
                        Some(e) => (m, Err(e)),
                        None => if m.state != NegotiationState::AwaitingEligibility {
                            (
                                m,
                                Err(
                                    SpecRendezvousError::InvalidState {
                                        expected: NegotiationState::AwaitingEligibility,
                                        actual: m.state,
                                    },
                                ),
                            )
                        } else {
                            (after_eligibility(m, k, r), Ok(SubmissionOutcome::Recorded))
                        },
                    },
                }
            },
        }
    }
}

/// `m` after recording decision vector `r` in slot `k`.
pub open spec fn after_decision(m: SpecNegotiation, k: int, r: SpecDecisionResponse) -> SpecNegotiation {
    let slots = with_slot(m.decisions, k, r);
    let options = m.mutual_options.unwrap();
    match slots {
        (Some(d0), Some(d1)) => match first_true(
            unanimous_flags(options.candidates.len(), d0.values, d1.values),
        ) {
            Some(i) => SpecNegotiation {
                round: m.round,
                state: NegotiationState::Agreed,
                eligibility: m.eligibility,
                mutual_options: m.mutual_options,
                decisions: slots,
                agreement: Some(agreement_on(m.round, options.candidates[i])),
            },
            None => SpecNegotiation {
                round: m.round,
                state: NegotiationState::NoMatch,
                eligibility: m.eligibility,
                mutual_options: m.mutual_options,
                decisions: slots,
                agreement: m.agreement,
            },
        },
        _ => SpecNegotiation {
            round: m.round,
            state: m.state,
            eligibility: m.eligibility,
            mutual_options: m.mutual_options,
            decisions: slots,
            agreement: m.agreement,
        },
    }
}

/// One decision submission: there must be mutual options; then checks, in
/// order, the exact options scope, the sender, the candidate order, a replay
/// of the sender's slot, the round's activity at `now`, and the state.
pub open spec fn decision_step(m: SpecNegotiation, r: SpecDecisionResponse, now: i64) -> (
    SpecNegotiation,
    Result<SubmissionOutcome, SpecRendezvousError>,
) {
    match m.mutual_options {
        None => (
            m,
            Err(
                SpecRendezvousError::InvalidState {
                    expected: NegotiationState::AwaitingDecisions,
                    actual: m.state,
                },
            ),
        ),
        Some(options) => if r.scope != options {
            (m, Err(SpecRendezvousError::EnvelopeScopeMismatch))
        } else {
            match participant_slot(m.round.request, r.member_id) {
                None => (m, Err(SpecRendezvousError::UnknownParticipant(r.member_id))),
                Some(k) => if decision_ids(r.values) != candidate_ids(options.candidates) {
                    (m, Err(SpecRendezvousError::CandidateVectorMismatch))
                } else {
                    match slot(m.decisions, k) {
                        Some(existing) => if existing == r {
                            (m, Ok(SubmissionOutcome::DuplicateIgnored))
                        } else {
                            (m, Err(SpecRendezvousError::ConflictingReplay(r.member_id)))
                        },
                        None => match round_inactive(m.round, now) {
                            Some(e) => (m, Err(e)),
                            None => if m.state != NegotiationState::AwaitingDecisions {
                                (
                                    m,
                                    Err(
                                        SpecRendezvousError::InvalidState {
                                            expected: NegotiationState::AwaitingDecisions,
                                            actual: m.state,
                                        },
                                    ),
                                )
                            } else {
                                (after_decision(m, k, r), Ok(SubmissionOutcome::Recorded))
                            },
                        },
                    }
                },
            }
        },
    }
}


/// Recording a fitting eligibility vector while awaiting eligibility keeps the invariant.
pub proof fn lemma_after_eligibility_inv(m: SpecNegotiation, k: int, r: SpecEligibilityResponse)
    requires
        negotiation_inv(m),
        m.state == NegotiationState::AwaitingEligibility,
        k == 0 || k == 1,
        slot(m.eligibility, k) is None,
        eligibility_fits(m.round, r, k),
    ensures
        negotiation_inv(after_eligibility(m, k, r)),
{
    let post = after_eligibility(m, k, r);
    assert(slot(m.decisions, 0) is None);
    assert(slot(m.decisions, 1) is None);
    assert forall|j: int|
        (j == 0 || j == 1) && (#[trigger] slot(post.eligibility, j)) is Some implies eligibility_fits(
        post.round,
        slot(post.eligibility, j).unwrap(),
        j,
    ) by {
        if j != k {
            assert(slot(post.eligibility, j) == slot(m.eligibility, j));
        }
    }
    assert forall|j: int|
        (j == 0 || j == 1) && (#[trigger] slot(post.decisions, j)) is Some implies post.mutual_options is Some
        && decision_fits(post.round, post.mutual_options.unwrap(), slot(post.decisions, j).unwrap(), j) by {
        assert(slot(m.decisions, j) is None);
    }
}

/// Recording a fitting decision vector while awaiting decisions keeps the invariant.
pub proof fn lemma_after_decision_inv(m: SpecNegotiation, k: int, r: SpecDecisionResponse)
    requires
        negotiation_inv(m),
        m.state == NegotiationState::AwaitingDecisions,
        m.mutual_options is Some,
        k == 0 || k == 1,
        slot(m.decisions, k) is None,
        decision_fits(m.round, m.mutual_options.unwrap(), r, k),
    ensures
        negotiation_inv(after_decision(m, k, r)),
{
    let post = after_decision(m, k, r);
    assert forall|j: int|
        (j == 0 || j == 1) && (#[trigger] slot(post.eligibility, j)) is Some implies eligibility_fits(
        post.round,
        slot(post.eligibility, j).unwrap(),
        j,
    ) by {
        assert(slot(post.eligibility, j) == slot(m.eligibility, j));
    }
    assert forall|j: int|
        (j == 0 || j == 1) && (#[trigger] slot(post.decisions, j)) is Some implies post.mutual_options is Some
        && decision_fits(post.round, post.mutual_options.unwrap(), slot(post.decisions, j).unwrap(), j) by {
        if j != k {
            assert(slot(post.decisions, j) == slot(m.decisions, j));
        }
    }
}

/// Every eligibility submission keeps the invariant.
pub proof fn lemma_eligibility_step_inv(m: SpecNegotiation, r: SpecEligibilityResponse, now: i64)
    requires
        negotiation_inv(m),
    ensures
        negotiation_inv(eligibility_step(m, r, now).0),
{
    if eligibility_step(m, r, now).1 == Ok::<SubmissionOutcome, SpecRendezvousError>(SubmissionOutcome::Recorded) {
        let k = participant_slot(m.round.request, r.member_id).unwrap();
        lemma_after_eligibility_inv(m, k, r);
    }
}

/// Every decision submission keeps the invariant.
pub proof fn lemma_decision_step_inv(m: SpecNegotiation, r: SpecDecisionResponse, now: i64)
    requires
        negotiation_inv(m),
    ensures
        negotiation_inv(decision_step(m, r, now).0),
{
    if decision_step(m, r, now).1 == Ok::<SubmissionOutcome, SpecRendezvousError>(SubmissionOutcome::Recorded) {
        let k = participant_slot(m.round.request, r.member_id).unwrap();
        lemma_after_decision_inv(m, k, r);
    }
}


// ---------------------------------------------------------------------------
// Executable reducer
// ---------------------------------------------------------------------------

/// Candidates, in proposal order, that both eligibility vectors mark available.
fn mutual_of(candidates: &[Candidate], a: &[Eligibility], b: &[Eligibility]) -> (r: Vec<Candidate>)
    requires
        a@.len() == candidates@.len(),
        b@.len() == candidates@.len(),
    ensures
        candidate_views(r@) == mutual_candidates(
            candidate_views(candidates@),
            eligibility_views(a@),
            eligibility_views(b@),
        ),
{
    let ghost cs = candidate_views(candidates@);
    let ghost av = eligibility_views(a@);
    let ghost bv = eligibility_views(b@);
    let mut out: Vec<Candidate> = Vec::new();
    let n = candidates.len();
    let mut i: usize = 0;
    while i < n
        invariant
            n == candidates@.len(),
            n == a@.len(),
            n == b@.len(),
            i <= n,
            cs == candidate_views(candidates@),
            av == eligibility_views(a@),
            bv == eligibility_views(b@),
            candidate_views(out@) == mutual_candidates(cs.take(i as int), av, bv),
        decreases n - i,
    {
        let ghost before = out@;
        assert(cs.take(i + 1).drop_last() =~= cs.take(i as int));
        assert(cs.take(i + 1)[i as int] == cs[i as int]);
        if a[i].is_available() && b[i].is_available() {
            out.push(candidates[i].clone());
            assert(candidate_views(out@) =~= candidate_views(before).push(cs[i as int]));
        }
        i = i + 1;
    }
    assert(cs.take(n as int) =~= cs);
    out
}

/// The fields of a negotiation; [`TwoAgentNegotiation`] keeps them well formed.
struct Reducer {
    round: CandidateRound,
    state: NegotiationState,
    coordinator_eligibility: Option<EligibilityResponse>,
    invitee_eligibility: Option<EligibilityResponse>,
    mutual_options: Option<MutualOptions>,
    coordinator_decisions: Option<DecisionResponse>,
    invitee_decisions: Option<DecisionResponse>,
    agreement: Option<MeetingAgreement>,
}

impl View for Reducer {
    type V = SpecNegotiation;

    closed spec fn view(&self) -> SpecNegotiation {
        SpecNegotiation {
            round: self.round@,
            state: self.state,
            eligibility: (
                view_option(self.coordinator_eligibility),
                view_option(self.invitee_eligibility),
            ),
            mutual_options: view_option(self.mutual_options),
            decisions: (view_option(self.coordinator_decisions), view_option(self.invitee_decisions)),
            agreement: view_option(self.agreement),
        }
    }
}

impl Reducer {
    /// The reducer's invariant holds.
    spec fn wf(&self) -> bool {
        negotiation_inv(self@)
    }

    /// The state in which a negotiation on `round` starts.
    fn fresh(round: CandidateRound) -> (r: Self)
        ensures
            r@ == initial(round@),
            r.wf(),
    {
        proof {
            use_type_invariant(&round);
        }
        Reducer {
            round,
            state: NegotiationState::AwaitingEligibility,
            coordinator_eligibility: None,
            invitee_eligibility: None,
            mutual_options: None,
            coordinator_decisions: None,
            invitee_decisions: None,
            agreement: None,
        }
    }

    /// Slot of `member` in this negotiation's request, or `UnknownParticipant`.
    fn participant_index(&self, member: &MemberId) -> (r: Result<usize, RendezvousError>)
        ensures
            match participant_slot(self@.round.request, member@) {
                Some(k) => r == Ok::<usize, RendezvousError>(k as usize) && (k == 0 || k == 1),
                None => r matches Err(e) && e@ == SpecRendezvousError::UnknownParticipant(member@),
            },
    {
        match self.round.request().participant_index(member) {
            Some(k) => Ok(k),
            None => Err(RendezvousError::UnknownParticipant(member.to_string())),
        }
    }

    /// Checks scope, sender and candidate order of an eligibility vector.
    fn validate_eligibility(&self, response: &EligibilityResponse, Ghost(now): Ghost<i64>) -> (r: Result<
        usize,
        RendezvousError,
    >)
        ensures
            ({
                let (post, out) = eligibility_step(self@, response@, now);
                let k = participant_slot(self@.round.request, response@.member_id);
                &&& r is Ok <==> (response@.scope == self@.round && k is Some
                    && eligibility_ids(response@.values) == candidate_ids(self@.round.candidates))
                &&& r matches Ok(i) ==> k == Some(i as int) && (i == 0 || i == 1)
                &&& r matches Err(e) ==> out == Err::<SubmissionOutcome, SpecRendezvousError>(e@)
            }),
    {
        if *response.scope() != self.round {
            return Err(RendezvousError::EnvelopeScopeMismatch);
        }
        let index = match self.participant_index(response.member_id()) {
            Ok(k) => k,
            Err(e) => {
                return Err(e);
            },
        };
        if !same_order_eligibility(self.round.candidates(), response.values()) {
            return Err(RendezvousError::CandidateVectorMismatch);
        }
        Ok(index)
    }

    /// Checks scope, sender and candidate order of a decision vector.
    fn validate_decisions(
        &self,
        response: &DecisionResponse,
        options: &MutualOptions,
        Ghost(now): Ghost<i64>,
    ) -> (r: Result<
        usize,
        RendezvousError,
    >)
        requires
            self@.mutual_options == Some(options@),
        ensures
            ({
                let (post, out) = decision_step(self@, response@, now);
                let k = participant_slot(self@.round.request, response@.member_id);
                &&& r is Ok <==> (response@.scope == options@ && k is Some && decision_ids(
                    response@.values,
                ) == candidate_ids(options@.candidates))
                &&& r matches Ok(i) ==> k == Some(i as int) && (i == 0 || i == 1)
                &&& r matches Err(e) ==> out == Err::<SubmissionOutcome, SpecRendezvousError>(e@)
            }),
    {
        if *response.scope() != *options {
            return Err(RendezvousError::EnvelopeScopeMismatch);
        }
        let index = match self.participant_index(response.member_id()) {
            Ok(k) => k,
            Err(e) => {
                return Err(e);
            },
        };
        if !same_order_decisions(options.candidates(), response.values()) {
            return Err(RendezvousError::CandidateVectorMismatch);
        }
        Ok(index)
    }

    /// Records one candidate-specific eligibility vector.
    fn submit_eligibility(&mut self, response: EligibilityResponse, now_utc_ms: i64) -> (res:
        Result<SubmissionOutcome, RendezvousError>)
        requires
            old(self).wf(),
        ensures
            final(self).wf(),
            (final(self)@, view_outcome(res)) == eligibility_step(old(self)@, response@, now_utc_ms),
    {
        let ghost m = self@;
        let index = match self.validate_eligibility(&response, Ghost(now_utc_ms)) {
            Ok(k) => k,
            Err(e) => {
                return Err(e);
            },
        };
        let existing = if index == 0 {
            &self.coordinator_eligibility
        } else {
            &self.invitee_eligibility
        };
        assert(view_option(*existing) == slot(m.eligibility, index as int));
        match existing {
            Some(previous) => {
                if *previous == response {
                    return Ok(SubmissionOutcome::DuplicateIgnored);
                } else {
                    return Err(RendezvousError::ConflictingReplay(response.member_id().to_string()));
                }
            },
            None => {},
        }
        match self.round.ensure_active(now_utc_ms) {
            Err(e) => {
                return Err(e);
            },
            Ok(()) => {},
        }
        if self.state != NegotiationState::AwaitingEligibility {
            return Err(
                RendezvousError::InvalidState {
                    expected: NegotiationState::AwaitingEligibility,
                    actual: self.state,
                },
            );
        }
        let ghost rv = response@;
        proof {
            assert(eligibility_fits(m.round, rv, index as int));
            assert(slot(m.eligibility, 0) is Some ==> eligibility_fits(
                m.round,
                slot(m.eligibility, 0).unwrap(),
                0,
            ));
            assert(slot(m.eligibility, 1) is Some ==> eligibility_fits(
                m.round,
                slot(m.eligibility, 1).unwrap(),
                1,
            ));
            lemma_after_eligibility_inv(m, index as int, rv);
        }
        if index == 0 {
            self.coordinator_eligibility = Some(response);
        } else {
            self.invitee_eligibility = Some(response);
        }
        match (&self.coordinator_eligibility, &self.invitee_eligibility) {
            (Some(first), Some(second)) => {
                proof {
                    if index == 0 {
                        assert(first@ == rv);
                    } else {
                        assert(Some(first@) == slot(m.eligibility, 0));
                    }
                    if index == 1 {
                        assert(second@ == rv);
                    } else {
                        assert(Some(second@) == slot(m.eligibility, 1));
                    }
                    assert(eligibility_fits(m.round, first@, 0));
                    assert(eligibility_fits(m.round, second@, 1));
                    assert(eligibility_ids(first@.values).len() == first@.values.len());
                    assert(eligibility_ids(second@.values).len() == second@.values.len());
                    assert(candidate_ids(m.round.candidates).len() == m.round.candidates.len());
                }
                let candidates = mutual_of(
                    self.round.candidates(),
                    first.values(),
                    second.values(),
                );
                if candidates.len() == 0 {
                    self.state = NegotiationState::NoMatch;
                } else {
                    self.mutual_options = Some(
                        MutualOptions::from_parts(self.round.clone(), candidates),
                    );
                    self.state = NegotiationState::AwaitingDecisions;
                }
            },
            _ => {},
        }
        assert(self@ == after_eligibility(m, index as int, rv));
        Ok(SubmissionOutcome::Recorded)
    }
}


/// Position of the first option that both decision vectors accept.
fn first_unanimous(a: &[OwnerDecision], b: &[OwnerDecision]) -> (r: Option<usize>)
    requires
        a@.len() == b@.len(),
    ensures
        ({
            let flags = unanimous_flags(
                a@.len(),
                decision_views(a@),
                decision_views(b@),
            );
            match r {
                Some(i) => first_true(flags) == Some(i as int),
                None => first_true(flags) is None,
            }
        }),
{
    let ghost flags = unanimous_flags(a@.len(), decision_views(a@), decision_views(b@));
    proof {
        lemma_first_true(flags);
    }
    let n = a.len();
    let mut i: usize = 0;
    while i < n
        invariant
            n == a@.len(),
            n == b@.len(),
            i <= n,
            flags == unanimous_flags(a@.len(), decision_views(a@), decision_views(b@)),
            forall|k: int| 0 <= k < i ==> !flags[k],
            match first_true(flags) {
                Some(f) => 0 <= f < flags.len() && flags[f] && forall|j: int|
                    0 <= j < f ==> !flags[j],
                None => forall|j: int| 0 <= j < flags.len() ==> !flags[j],
            },
        decreases n - i,
    {
        if a[i].is_accepted() && b[i].is_accepted() {
            assert(flags[i as int]);
            return Some(i);
        }
        assert(!flags[i as int]);
        i = i + 1;
    }
    None
}

impl Reducer {
    /// Records one owner's exact decisions and selects deterministically when
    /// both are present: the first option, in proposal order, that both accept.
    fn submit_decisions(&mut self, response: DecisionResponse, now_utc_ms: i64) -> (res: Result<
        SubmissionOutcome,
        RendezvousError,
    >)
        requires
            old(self).wf(),
        ensures
            final(self).wf(),
            (final(self)@, view_outcome(res)) == decision_step(old(self)@, response@, now_utc_ms),
    {
        let ghost m = self@;
        let options = match &self.mutual_options {
            Some(o) => o,
            None => {
                return Err(
                    RendezvousError::InvalidState {
                        expected: NegotiationState::AwaitingDecisions,
                        actual: self.state,
                    },
                );
            },
        };
        let ghost ov = options@;
        let index = match self.validate_decisions(&response, options, Ghost(now_utc_ms)) {
            Ok(k) => k,
            Err(e) => {
                return Err(e);
            },
        };
        let existing = if index == 0 {
            &self.coordinator_decisions
        } else {
            &self.invitee_decisions
        };
        assert(view_option(*existing) == slot(m.decisions, index as int));
        match existing {
            Some(previous) => {
                if *previous == response {
                    return Ok(SubmissionOutcome::DuplicateIgnored);
                } else {
                    return Err(RendezvousError::ConflictingReplay(response.member_id().to_string()));
                }
            },
            None => {},
        }
        match self.round.ensure_active(now_utc_ms) {
            Err(e) => {
                return Err(e);
            },
            Ok(()) => {},
        }
        if self.state != NegotiationState::AwaitingDecisions {
            return Err(
                RendezvousError::InvalidState {
                    expected: NegotiationState::AwaitingDecisions,
                    actual: self.state,
                },
            );
        }
        let ghost rv = response@;
        proof {
            assert(decision_fits(m.round, ov, rv, index as int));
            assert(slot(m.decisions, 0) is Some ==> decision_fits(
                m.round,
                ov,
                slot(m.decisions, 0).unwrap(),
                0,
            ));
            assert(slot(m.decisions, 1) is Some ==> decision_fits(
                m.round,
                ov,
                slot(m.decisions, 1).unwrap(),
                1,
            ));
            lemma_after_decision_inv(m, index as int, rv);
        }
        if index == 0 {
            self.coordinator_decisions = Some(response);
        } else {
            self.invitee_decisions = Some(response);
        }
        match (&self.coordinator_decisions, &self.invitee_decisions, &self.mutual_options) {
            (Some(first), Some(second), Some(options)) => {
                proof {
                    if index == 0 {
                        assert(first@ == rv);
                    } else {
                        assert(Some(first@) == slot(m.decisions, 0));
                    }
                    if index == 1 {
                        assert(second@ == rv);
                    } else {
                        assert(Some(second@) == slot(m.decisions, 1));
                    }
                    assert(decision_fits(m.round, ov, first@, 0));
                    assert(decision_fits(m.round, ov, second@, 1));
                    assert(decision_ids(first@.values).len() == first@.values.len());
                    assert(decision_ids(second@.values).len() == second@.values.len());
                    assert(candidate_ids(ov.candidates).len() == ov.candidates.len());
                }
                match first_unanimous(first.values(), second.values()) {
                    Some(i) => {
                        proof {
                            lemma_first_true(
                                unanimous_flags(first@.values.len(), first@.values, second@.values),
                            );
                            assert(options@ == ov);
                        }
                        let selected = options.candidates()[i].clone();
                        let key = canonical_agreement_key(&self.round, &selected);
                        self.agreement = Some(
                            MeetingAgreement::from_parts(self.round.clone(), selected, key),
                        );
                        self.state = NegotiationState::Agreed;
                    },
                    None => {
                        self.state = NegotiationState::NoMatch;
                    },
                }
            },
            _ => {},
        }
        assert(self@ == after_decision(m, index as int, rv));
        Ok(SubmissionOutcome::Recorded)
    }
}


/// Deterministic transcript reducer for exactly two required agents.
///
/// One instance may run per endpoint; each derives the same state from the
/// same envelopes, whatever order they arrive in. Every value satisfies
/// [`negotiation_inv`].
pub struct TwoAgentNegotiation {
    inner: Reducer,
}

impl View for TwoAgentNegotiation {
    type V = SpecNegotiation;

    closed spec fn view(&self) -> SpecNegotiation {
        self.inner@
    }
}

impl TwoAgentNegotiation {
    #[verifier::type_invariant]
    spec fn well_formed(self) -> bool {
        self.inner.wf()
    }

    /// Opens a negotiation on a round that is active at `now`.
    pub fn new(round: CandidateRound, now_utc_ms: i64) -> (res: Result<Self, RendezvousError>)
        ensures
            match round_inactive(round@, now_utc_ms) {
                Some(e) => res matches Err(x) && x@ == e,
                None => res matches Ok(n) && n@ == initial(round@) && negotiation_inv(n@),
            },
    {
        match round.ensure_active(now_utc_ms) {
            Err(e) => {
                return Err(e);
            },
            Ok(()) => {},
        }
        Ok(TwoAgentNegotiation { inner: Reducer::fresh(round) })
    }

    /// Current state.
    pub fn state(&self) -> (r: NegotiationState)
        ensures
            r == self@.state,
            negotiation_inv(self@),
    {
        proof {
            use_type_invariant(self);
        }
        self.inner.state
    }

    /// Mutual options once both eligibility vectors have arrived and some
    /// candidate is eligible for both.
    pub fn mutual_options(&self) -> (r: Option<&MutualOptions>)
        ensures
            view_option(r) == self@.mutual_options,
            negotiation_inv(self@),
    {
        proof {
            use_type_invariant(self);
        }
        match &self.inner.mutual_options {
            Some(o) => Some(o),
            None => None,
        }
    }

    /// Final agreement when the state is [`NegotiationState::Agreed`].
    pub fn agreement(&self) -> (r: Option<&MeetingAgreement>)
        ensures
            view_option(r) == self@.agreement,
            negotiation_inv(self@),
    {
        proof {
            use_type_invariant(self);
        }
        match &self.inner.agreement {
            Some(a) => Some(a),
            None => None,
        }
    }

    /// Records one candidate-specific eligibility vector.
    pub fn submit_eligibility(&mut self, response: EligibilityResponse, now_utc_ms: i64) -> (res:
        Result<SubmissionOutcome, RendezvousError>)
        ensures
            negotiation_inv(final(self)@),
            (final(self)@, view_outcome(res)) == eligibility_step(old(self)@, response@, now_utc_ms),
    {
        proof {
            use_type_invariant(&*self);
        }
        let mut working = Reducer::fresh(self.inner.round.clone());
        std::mem::swap(&mut working, &mut self.inner);
        let res = working.submit_eligibility(response, now_utc_ms);
        self.inner = working;
        res
    }

    /// Records one owner's exact decisions and selects deterministically when
    /// both are present: the first option, in proposal order, that both accept.
    pub fn submit_decisions(&mut self, response: DecisionResponse, now_utc_ms: i64) -> (res: Result<
        SubmissionOutcome,
        RendezvousError,
    >)
        ensures
            negotiation_inv(final(self)@),
            (final(self)@, view_outcome(res)) == decision_step(old(self)@, response@, now_utc_ms),
    {
        proof {
            use_type_invariant(&*self);
        }
        let mut working = Reducer::fresh(self.inner.round.clone());
        std::mem::swap(&mut working, &mut self.inner);
        let res = working.submit_decisions(response, now_utc_ms);
        self.inner = working;
        res
    }
}

} // verus!
