use fabric_core::{
    format_decisions, format_eligibility, CalendarError, Candidate, CandidateId, CandidateRound,
    LocalCalendar, MeetingRequest, MemberId, NegotiationId, NegotiationState, OwnerDecision,
    ProjectionProfile, RendezvousError, SchedulingAgent, SubmissionOutcome, TwoAgentNegotiation,
    UtcInterval, MAX_CANDIDATES,
};

const OPENED_AT: i64 = 1_800_000_000_000;
const NOW: i64 = OPENED_AT + 1_000;
const EXPIRES_AT: i64 = OPENED_AT + 86_400_000;
const HORIZON_SECONDS: u32 = 7 * 24 * 60 * 60;
const MEETING_SECONDS: u32 = 30 * 60;

fn member(value: &str) -> MemberId {
    MemberId::new(value).expect("member")
}

fn cid(value: &str) -> CandidateId {
    CandidateId::new(value).expect("candidate")
}

fn request(negotiation: &str) -> MeetingRequest {
    MeetingRequest::new(
        NegotiationId::new(negotiation).expect("negotiation"),
        member("alice"),
        member("bob"),
        UtcInterval::new(OPENED_AT, HORIZON_SECONDS).expect("horizon"),
        MEETING_SECONDS,
        ProjectionProfile::FabricOnly,
        OPENED_AT,
        EXPIRES_AT,
    )
    .expect("request")
}

fn candidate(name: &str, offset: i64) -> Candidate {
    Candidate::new(
        cid(name),
        UtcInterval::new(OPENED_AT + offset, MEETING_SECONDS).expect("interval"),
    )
}

fn three_round(negotiation: &str) -> CandidateRound {
    CandidateRound::new(
        request(negotiation),
        vec![
            candidate("c1", 3_600_000),
            candidate("c2", 7_200_000),
            candidate("c3", 10_800_000),
        ],
    )
    .expect("round")
}

/// An agent that is busy exactly during the candidates whose bit is clear.
fn agent(name: &str, round: &CandidateRound, bits: u8) -> SchedulingAgent {
    let busy = round
        .candidates()
        .iter()
        .enumerate()
        .filter(|(index, _)| bits & (1 << index) == 0)
        .map(|(_, c)| c.interval())
        .collect();
    SchedulingAgent::new(member(name), LocalCalendar::from_busy(busy))
}

fn decisions(options: &[Candidate], accepted: &[&str]) -> Vec<OwnerDecision> {
    options
        .iter()
        .map(|c| OwnerDecision::new(c.id().clone(), accepted.contains(&c.id().as_str())))
        .collect()
}

// ----- intervals -----------------------------------------------------------

#[test]
fn interval_construction_errors_and_boundaries() {
    assert_eq!(UtcInterval::new(0, 0), Err(CalendarError::ZeroDuration));
    assert_eq!(
        UtcInterval::new(i64::MAX - 999, 1),
        Err(CalendarError::IntervalOverflow)
    );
    let last = UtcInterval::new(i64::MAX - 1_000, 1).expect("end exactly at i64::MAX");
    assert_eq!(last.end_utc_ms(), i64::MAX);
    let widest = UtcInterval::new(i64::MIN, u32::MAX).expect("huge but representable");
    assert_eq!(widest.end_utc_ms(), i64::MIN + i64::from(u32::MAX) * 1_000);
    assert_eq!(widest.duration_seconds(), u32::MAX);
    assert_eq!(widest.start_utc_ms(), i64::MIN);
    assert_eq!(
        CalendarError::ZeroDuration.message(),
        "an interval must have non-zero duration"
    );
    assert_eq!(
        CalendarError::IntervalOverflow.message(),
        "the interval end overflows UTC milliseconds"
    );
}

#[test]
fn overlap_is_symmetric_reflexive_and_implied_by_containment() {
    let outer = UtcInterval::new(0, 100).unwrap();
    let inner = UtcInterval::new(10_000, 5).unwrap();
    let touching = UtcInterval::new(100_000, 5).unwrap();
    assert!(outer.overlaps(outer));
    assert!(outer.contains(outer));
    assert!(outer.contains(inner));
    assert!(!inner.contains(outer));
    assert!(outer.overlaps(inner) && inner.overlaps(outer));
    assert!(!outer.overlaps(touching) && !touching.overlaps(outer));
    assert!(!outer.contains(touching));
}

#[test]
fn availability_checks_every_busy_interval() {
    let free = UtcInterval::new(50_000, 10).unwrap();
    let calendar = LocalCalendar::from_busy(vec![
        UtcInterval::new(0, 10).unwrap(),
        UtcInterval::new(40_000, 10).unwrap(),
        UtcInterval::new(55_000, 1).unwrap(),
    ]);
    assert!(!calendar.is_available(free));
    assert!(LocalCalendar::default().is_available(free));
    assert!(LocalCalendar::from_busy(vec![UtcInterval::new(60_000, 1).unwrap()]).is_available(free));
}

// ----- identifiers ---------------------------------------------------------

#[test]
fn identifier_alphabet_and_length() {
    assert_eq!(cid("A.b_c-9").as_str(), "A.b_c-9");
    assert_eq!(cid("A.b_c-9").to_string(), "A.b_c-9".to_owned());
    assert!(CandidateId::new(&"z".repeat(64)).is_ok());
    assert_eq!(
        CandidateId::new(""),
        Err(RendezvousError::InvalidIdentifier("candidate"))
    );
    assert_eq!(
        NegotiationId::new("semi;colon"),
        Err(RendezvousError::InvalidIdentifier("negotiation"))
    );
    assert_eq!(
        MemberId::new("caf\u{e9}"),
        Err(RendezvousError::InvalidIdentifier("member"))
    );
    assert_eq!(
        MemberId::new("with space"),
        Err(RendezvousError::InvalidIdentifier("member"))
    );
    assert_eq!(cid("same"), cid("same"));
    assert_ne!(cid("same"), cid("Same"));
}

#[test]
fn error_messages_are_exact() {
    assert_eq!(
        RendezvousError::InvalidIdentifier("member").message(),
        "member identifier must be 1..=64 ASCII letters, digits, '.', '_', or '-'"
    );
    assert_eq!(
        RendezvousError::InvalidCandidateCount(4).message(),
        format!("candidate count must be 1..={MAX_CANDIDATES}, got 4")
    );
    assert_eq!(
        RendezvousError::InvalidCandidateCount(0).message(),
        "candidate count must be 1..=3, got 0"
    );
    assert_eq!(
        RendezvousError::DuplicateCandidateInterval("b".to_owned()).message(),
        "candidate b duplicates an exact interval"
    );
    assert_eq!(
        RendezvousError::ConflictingReplay("alice".to_owned()).message(),
        "participant alice sent a conflicting replay"
    );
    assert_eq!(
        RendezvousError::InvalidState {
            expected: NegotiationState::AwaitingDecisions,
            actual: NegotiationState::AwaitingEligibility,
        }
        .message(),
        "expected state awaiting_decisions, current state is awaiting_eligibility"
    );
    assert_eq!(RendezvousError::Expired.message(), "the negotiation is not currently active");
    assert_eq!(NegotiationState::NoMatch.as_str(), "no_match");
    assert_eq!(NegotiationState::Agreed.as_str(), "agreed");
    assert_eq!(ProjectionProfile::OpaqueBusy.as_str(), "opaque_busy");
}

// ----- requests and rounds -------------------------------------------------

#[test]
fn request_rejections_in_order() {
    let horizon = UtcInterval::new(OPENED_AT, HORIZON_SECONDS).unwrap();
    let build = |coordinator: &str, duration: u32, expires: i64| {
        MeetingRequest::new(
            NegotiationId::new("n").unwrap(),
            member("alice"),
            member(coordinator),
            horizon,
            duration,
            ProjectionProfile::OpaqueBusy,
            OPENED_AT,
            expires,
        )
    };
    assert_eq!(build("alice", 0, OPENED_AT).unwrap_err(), RendezvousError::SameParticipant);
    assert_eq!(build("bob", 0, OPENED_AT).unwrap_err(), RendezvousError::ZeroDuration);
    assert_eq!(build("bob", 60, OPENED_AT).unwrap_err(), RendezvousError::InvalidExpiry);
    let ok = build("bob", 60, OPENED_AT + 1).unwrap();
    assert_eq!(ok.participants()[0].as_str(), "alice");
    assert_eq!(ok.participants()[1].as_str(), "bob");
    assert_eq!(ok.duration_seconds(), 60);
    assert_eq!(ok.projection(), ProjectionProfile::OpaqueBusy);
    assert_eq!(ok.negotiation_id().as_str(), "n");
}

#[test]
fn round_rejections_name_the_first_faulty_candidate() {
    assert_eq!(
        CandidateRound::new(request("r"), vec![]).unwrap_err(),
        RendezvousError::InvalidCandidateCount(0)
    );
    assert_eq!(
        CandidateRound::new(
            request("r"),
            vec![candidate("a", 60_000), candidate("a", 60_000)]
        )
        .unwrap_err(),
        RendezvousError::DuplicateCandidateId("a".to_owned())
    );
    let short = Candidate::new(cid("short"), UtcInterval::new(OPENED_AT + 60_000, 60).unwrap());
    assert_eq!(
        CandidateRound::new(request("r"), vec![candidate("a", 60_000), short]).unwrap_err(),
        RendezvousError::CandidateDurationMismatch("short".to_owned())
    );
    let late = candidate("late", i64::from(HORIZON_SECONDS) * 1_000);
    assert_eq!(
        CandidateRound::new(request("r"), vec![late]).unwrap_err(),
        RendezvousError::CandidateOutsideHorizon("late".to_owned())
    );
    let round = three_round("r");
    assert_eq!(round.round(), 1);
    assert_eq!(round.candidates().len(), 3);
    assert_eq!(round.request().negotiation_id().as_str(), "r");
}

// ----- agents --------------------------------------------------------------

#[test]
fn evaluation_discloses_one_bit_per_candidate_in_order() {
    let round = three_round("bits");
    let bob = agent("bob", &round, 0b101);
    let response = bob.evaluate(&round, NOW).unwrap();
    assert_eq!(response.member_id().as_str(), "bob");
    assert_eq!(format_eligibility(response.values()), "c1:yes,c2:no,c3:yes");
    assert_eq!(response.values()[1].candidate_id().as_str(), "c2");
    assert!(!response.values()[1].is_available());

    let carol = agent("carol", &round, 0b111);
    assert_eq!(
        carol.evaluate(&round, NOW).unwrap_err(),
        RendezvousError::UnknownParticipant("carol".to_owned())
    );
    assert_eq!(
        bob.evaluate(&round, OPENED_AT - 1).unwrap_err(),
        RendezvousError::Expired
    );
    assert_eq!(format_eligibility(&[]), "");
}

#[test]
fn decisions_render_and_require_membership() {
    let round = three_round("decide");
    let alice = agent("alice", &round, 0b110);
    let bob = agent("bob", &round, 0b111);
    let mut negotiation = TwoAgentNegotiation::new(round.clone(), NOW).unwrap();
    negotiation.submit_eligibility(alice.evaluate(&round, NOW).unwrap(), NOW).unwrap();
    negotiation.submit_eligibility(bob.evaluate(&round, NOW).unwrap(), NOW).unwrap();
    let options = negotiation.mutual_options().unwrap().clone();
    let recorded = bob
        .record_owner_decisions(&options, &decisions(options.candidates(), &["c3"]), NOW)
        .unwrap();
    assert_eq!(recorded.member_id().as_str(), "bob");
    assert_eq!(format_decisions(recorded.values()), "c2:no,c3:yes");
    assert!(recorded.values()[1].is_accepted());
    assert_eq!(recorded.values()[0].candidate_id().as_str(), "c2");
    let carol = agent("carol", &round, 0b111);
    assert_eq!(
        carol
            .record_owner_decisions(&options, &decisions(options.candidates(), &[]), NOW)
            .unwrap_err(),
        RendezvousError::UnknownParticipant("carol".to_owned())
    );
    assert_eq!(
        bob.record_owner_decisions(&options, &decisions(options.candidates(), &[]), EXPIRES_AT)
            .unwrap_err(),
        RendezvousError::Expired
    );
}

// ----- the reducer ---------------------------------------------------------

#[test]
fn no_mutual_candidate_ends_in_no_match() {
    let round = three_round("none");
    let alice = agent("alice", &round, 0b011);
    let bob = agent("bob", &round, 0b100);
    let mut negotiation = TwoAgentNegotiation::new(round.clone(), NOW).unwrap();
    assert_eq!(negotiation.state(), NegotiationState::AwaitingEligibility);
    negotiation.submit_eligibility(alice.evaluate(&round, NOW).unwrap(), NOW).unwrap();
    assert_eq!(negotiation.state(), NegotiationState::AwaitingEligibility);
    negotiation.submit_eligibility(bob.evaluate(&round, NOW).unwrap(), NOW).unwrap();
    assert_eq!(negotiation.state(), NegotiationState::NoMatch);
    assert!(negotiation.mutual_options().is_none());
    assert!(negotiation.agreement().is_none());
}

#[test]
fn decisions_before_mutual_options_are_refused() {
    let round = three_round("early");
    let alice = agent("alice", &round, 0b111);
    let bob = agent("bob", &round, 0b111);
    let mut ahead = TwoAgentNegotiation::new(round.clone(), NOW).unwrap();
    let mut behind = TwoAgentNegotiation::new(round.clone(), NOW).unwrap();
    ahead.submit_eligibility(alice.evaluate(&round, NOW).unwrap(), NOW).unwrap();
    ahead.submit_eligibility(bob.evaluate(&round, NOW).unwrap(), NOW).unwrap();
    let options = ahead.mutual_options().unwrap().clone();
    let response = alice
        .record_owner_decisions(&options, &decisions(options.candidates(), &["c1"]), NOW)
        .unwrap();
    assert_eq!(
        behind.submit_decisions(response, NOW).unwrap_err(),
        RendezvousError::InvalidState {
            expected: NegotiationState::AwaitingDecisions,
            actual: NegotiationState::AwaitingEligibility,
        }
    );
    assert_eq!(behind.state(), NegotiationState::AwaitingEligibility);
}

#[test]
fn new_envelopes_after_expiry_are_refused_but_replays_are_ignored() {
    let round = three_round("late");
    let alice = agent("alice", &round, 0b111);
    let bob = agent("bob", &round, 0b111);
    let mut negotiation = TwoAgentNegotiation::new(round.clone(), NOW).unwrap();
    let first = alice.evaluate(&round, NOW).unwrap();
    assert_eq!(
        negotiation.submit_eligibility(first.clone(), NOW).unwrap(),
        SubmissionOutcome::Recorded
    );
    assert_eq!(
        negotiation.submit_eligibility(first, EXPIRES_AT + 5).unwrap(),
        SubmissionOutcome::DuplicateIgnored
    );
    assert_eq!(
        negotiation
            .submit_eligibility(bob.evaluate(&round, NOW).unwrap(), EXPIRES_AT)
            .unwrap_err(),
        RendezvousError::Expired
    );
    assert_eq!(negotiation.state(), NegotiationState::AwaitingEligibility);
    assert!(TwoAgentNegotiation::new(round, EXPIRES_AT).is_err());
}

#[test]
fn decision_arrival_order_does_not_change_the_agreement() {
    let round = three_round("order");
    let alice = agent("alice", &round, 0b111);
    let bob = agent("bob", &round, 0b111);
    let mut first = TwoAgentNegotiation::new(round.clone(), NOW).unwrap();
    let mut second = TwoAgentNegotiation::new(round.clone(), NOW).unwrap();
    let ae = alice.evaluate(&round, NOW).unwrap();
    let be = bob.evaluate(&round, NOW).unwrap();
    first.submit_eligibility(ae.clone(), NOW).unwrap();
    first.submit_eligibility(be.clone(), NOW).unwrap();
    second.submit_eligibility(be, NOW).unwrap();
    second.submit_eligibility(ae, NOW).unwrap();
    let options = first.mutual_options().unwrap().clone();
    assert_eq!(second.mutual_options(), Some(&options));
    let ad = alice
        .record_owner_decisions(&options, &decisions(options.candidates(), &["c2", "c3"]), NOW)
        .unwrap();
    let bd = bob
        .record_owner_decisions(&options, &decisions(options.candidates(), &["c1", "c3"]), NOW)
        .unwrap();
    first.submit_decisions(ad.clone(), NOW).unwrap();
    assert_eq!(first.state(), NegotiationState::AwaitingDecisions);
    first.submit_decisions(bd.clone(), NOW).unwrap();
    second.submit_decisions(bd, NOW).unwrap();
    second.submit_decisions(ad, NOW).unwrap();
    assert_eq!(first.state(), NegotiationState::Agreed);
    assert_eq!(first.agreement(), second.agreement());
    let agreement = first.agreement().unwrap();
    assert_eq!(agreement.selected_candidate().id().as_str(), "c3");
    assert_eq!(agreement.candidate_round(), &round);
    assert_eq!(agreement.request(), round.request());
}

#[test]
fn agreement_key_has_the_exact_length_prefixed_form() {
    let round = CandidateRound::new(
        MeetingRequest::new(
            NegotiationId::new("key-scope").unwrap(),
            member("alice"),
            member("bob"),
            UtcInterval::new(OPENED_AT, HORIZON_SECONDS).unwrap(),
            MEETING_SECONDS,
            ProjectionProfile::FabricOnly,
            OPENED_AT,
            EXPIRES_AT,
        )
        .unwrap(),
        vec![candidate("c1", 3_600_000)],
    )
    .unwrap();
    let alice = agent("alice", &round, 0b1);
    let bob = agent("bob", &round, 0b1);
    let mut negotiation = TwoAgentNegotiation::new(round.clone(), NOW).unwrap();
    negotiation.submit_eligibility(alice.evaluate(&round, NOW).unwrap(), NOW).unwrap();
    negotiation.submit_eligibility(bob.evaluate(&round, NOW).unwrap(), NOW).unwrap();
    let options = negotiation.mutual_options().unwrap().clone();
    for owner in [&alice, &bob] {
        let response = owner
            .record_owner_decisions(&options, &decisions(options.candidates(), &["c1"]), NOW)
            .unwrap();
        negotiation.submit_decisions(response, NOW).unwrap();
    }
    assert_eq!(
        negotiation.agreement().unwrap().agreement_key(),
        "fabric-schedule-sim/0;9:key-scope;5:alice;3:bob;11:fabric_only;\
         33:first_unanimous_in_proposal_order;1800000000000;604800;1800;1800000000000;\
         1800086400000;1;1;2:c1;1800003600000;1800;2:c1;"
    );
}

#[test]
fn agreement_key_spells_negative_times() {
    let min = i64::MIN;
    let request = MeetingRequest::new(
        NegotiationId::new("neg").unwrap(),
        member("a.b"),
        member("c_d"),
        UtcInterval::new(min, 100).unwrap(),
        10,
        ProjectionProfile::OpaqueBusy,
        min,
        -1,
    )
    .unwrap();
    let round = CandidateRound::new(
        request,
        vec![
            Candidate::new(cid("x-1"), UtcInterval::new(min + 1_000, 10).unwrap()),
            Candidate::new(cid("y"), UtcInterval::new(min + 20_000, 10).unwrap()),
        ],
    )
    .unwrap();
    let now = min + 500;
    let first = SchedulingAgent::new(member("a.b"), LocalCalendar::default());
    let second = SchedulingAgent::new(member("c_d"), LocalCalendar::default());
    let mut negotiation = TwoAgentNegotiation::new(round.clone(), now).unwrap();
    negotiation.submit_eligibility(second.evaluate(&round, now).unwrap(), now).unwrap();
    negotiation.submit_eligibility(first.evaluate(&round, now).unwrap(), now).unwrap();
    let options = negotiation.mutual_options().unwrap().clone();
    for owner in [&first, &second] {
        let response = owner
            .record_owner_decisions(&options, &decisions(options.candidates(), &["y"]), now)
            .unwrap();
        negotiation.submit_decisions(response, now).unwrap();
    }
    assert_eq!(
        negotiation.agreement().unwrap().agreement_key(),
        "fabric-schedule-sim/0;3:neg;3:a.b;3:c_d;11:opaque_busy;\
         33:first_unanimous_in_proposal_order;-9223372036854775808;100;10;\
         -9223372036854775808;-1;1;2;3:x-1;-9223372036854774808;10;1:y;\
         -9223372036854755808;10;1:y;"
    );
}

#[test]
fn refused_submissions_leave_the_state_unchanged() {
    let round = three_round("refusal");
    let alice = agent("alice", &round, 0b111);
    let other = three_round("other");
    let mut negotiation = TwoAgentNegotiation::new(round.clone(), NOW).unwrap();
    let foreign = agent("alice", &other, 0b111).evaluate(&other, NOW).unwrap();
    assert_eq!(
        negotiation.submit_eligibility(foreign, NOW).unwrap_err(),
        RendezvousError::EnvelopeScopeMismatch
    );
    assert_eq!(negotiation.state(), NegotiationState::AwaitingEligibility);
    negotiation.submit_eligibility(alice.evaluate(&round, NOW).unwrap(), NOW).unwrap();
    assert_eq!(negotiation.state(), NegotiationState::AwaitingEligibility);
    assert!(negotiation.mutual_options().is_none());
}
