//! Properties of the reducer that span submissions.

use vstd::prelude::*;

use crate::calendar::{free_of, UtcInterval};
use crate::error::SpecRendezvousError;
use crate::identifier::valid_identifier;
use crate::text::{
    free_of_char, length_prefixed, length_token, lemma_length_token_injective,
    lemma_length_token_plain, lemma_signed_decimal_injective, lemma_signed_decimal_plain,
    lemma_terminated_append, lemma_terminated_injective, number_field, signed_decimal,
    terminated,
};
use crate::negotiation::{
    agreement_key_text, agreement_on, candidate_entries, candidate_entry, decision_step,
    eligibility_step, initial, key_header, lemma_decision_step_inv, lemma_eligibility_step_inv,
    mutual_candidates, negotiation_inv, unanimous_flags, NegotiationState, SpecNegotiation,
    SubmissionOutcome,
};
use crate::rendezvous::{
    candidate_ids, decision_ids, decision_recording, eligibility_ids, eligibility_values,
    evaluation, first_true, lemma_first_true, participant_slot, projection_name, round_fault,
    round_inactive,
    valid_round, SpecAgent, SpecCandidate, SpecDecision, SpecDecisionResponse, SpecEligibility,
    SpecEligibilityResponse, SpecMutualOptions, SpecRequest, SpecRound,
};

verus! {

/// Two negotiations on the same round that hold the same envelopes in each
/// participant slot are in the same state, with the same mutual options and
/// the same agreement: the state does not depend on how the envelopes arrived.
pub proof fn lemma_state_determined_by_envelopes(a: SpecNegotiation, b: SpecNegotiation)
    requires
        negotiation_inv(a),
        negotiation_inv(b),
        a.round == b.round,
        a.eligibility == b.eligibility,
        a.decisions == b.decisions,
    ensures
        a == b,
{
}

/// A submission that is not recorded (refused, or an identical replay)
/// leaves the negotiation unchanged.
pub proof fn lemma_unrecorded_changes_nothing(
    m: SpecNegotiation,
    e: SpecEligibilityResponse,
    d: SpecDecisionResponse,
    now: i64,
)
    ensures
        eligibility_step(m, e, now).1 != Ok::<SubmissionOutcome, SpecRendezvousError>(
            SubmissionOutcome::Recorded,
        ) ==> eligibility_step(m, e, now).0 == m,
        decision_step(m, d, now).1 != Ok::<SubmissionOutcome, SpecRendezvousError>(
            SubmissionOutcome::Recorded,
        ) ==> decision_step(m, d, now).0 == m,
{
}

/// Resubmitting a recorded eligibility vector is ignored, at any later time.
pub proof fn lemma_eligibility_replay_ignored(
    m: SpecNegotiation,
    r: SpecEligibilityResponse,
    now: i64,
    later: i64,
)
    requires
        negotiation_inv(m),
        eligibility_step(m, r, now).1 == Ok::<SubmissionOutcome, SpecRendezvousError>(
            SubmissionOutcome::Recorded,
        ),
    ensures
        eligibility_step(eligibility_step(m, r, now).0, r, later) == (
            eligibility_step(m, r, now).0,
            Ok::<SubmissionOutcome, SpecRendezvousError>(SubmissionOutcome::DuplicateIgnored),
        ),
{
}

/// Resubmitting a recorded decision vector is ignored, at any later time.
pub proof fn lemma_decision_replay_ignored(
    m: SpecNegotiation,
    r: SpecDecisionResponse,
    now: i64,
    later: i64,
)
    requires
        negotiation_inv(m),
        decision_step(m, r, now).1 == Ok::<SubmissionOutcome, SpecRendezvousError>(
            SubmissionOutcome::Recorded,
        ),
    ensures
        decision_step(decision_step(m, r, now).0, r, later) == (
            decision_step(m, r, now).0,
            Ok::<SubmissionOutcome, SpecRendezvousError>(SubmissionOutcome::DuplicateIgnored),
        ),
{
}

/// Arrival order of the two eligibility vectors does not matter: if both are
/// recorded in one order, both are recorded in the other order too, with the
/// same resulting negotiation.
pub proof fn lemma_eligibility_order_irrelevant(
    m: SpecNegotiation,
    a: SpecEligibilityResponse,
    a_at: i64,
    b: SpecEligibilityResponse,
    b_at: i64,
)
    requires
        negotiation_inv(m),
        eligibility_step(m, a, a_at).1 == Ok::<SubmissionOutcome, SpecRendezvousError>(
            SubmissionOutcome::Recorded,
        ),
        eligibility_step(eligibility_step(m, a, a_at).0, b, b_at).1 == Ok::<
            SubmissionOutcome,
            SpecRendezvousError,
        >(SubmissionOutcome::Recorded),
    ensures
        eligibility_step(m, b, b_at).1 == Ok::<SubmissionOutcome, SpecRendezvousError>(
            SubmissionOutcome::Recorded,
        ),
        eligibility_step(eligibility_step(m, b, b_at).0, a, a_at).1 == Ok::<
            SubmissionOutcome,
            SpecRendezvousError,
        >(SubmissionOutcome::Recorded),
        eligibility_step(eligibility_step(m, b, b_at).0, a, a_at).0 == eligibility_step(
            eligibility_step(m, a, a_at).0,
            b,
            b_at,
        ).0,
{
}

/// Arrival order of the two decision vectors does not matter.
pub proof fn lemma_decision_order_irrelevant(
    m: SpecNegotiation,
    a: SpecDecisionResponse,
    a_at: i64,
    b: SpecDecisionResponse,
    b_at: i64,
)
    requires
        negotiation_inv(m),
        decision_step(m, a, a_at).1 == Ok::<SubmissionOutcome, SpecRendezvousError>(
            SubmissionOutcome::Recorded,
        ),
        decision_step(decision_step(m, a, a_at).0, b, b_at).1 == Ok::<
            SubmissionOutcome,
            SpecRendezvousError,
        >(SubmissionOutcome::Recorded),
    ensures
        decision_step(m, b, b_at).1 == Ok::<SubmissionOutcome, SpecRendezvousError>(
            SubmissionOutcome::Recorded,
        ),
        decision_step(decision_step(m, b, b_at).0, a, a_at).1 == Ok::<
            SubmissionOutcome,
            SpecRendezvousError,
        >(SubmissionOutcome::Recorded),
        decision_step(decision_step(m, b, b_at).0, a, a_at).0 == decision_step(
            decision_step(m, a, a_at).0,
            b,
            b_at,
        ).0,
{
}


/// Round candidate `j` is marked available in both eligibility vectors.
pub open spec fn both_available(a: Seq<SpecEligibility>, b: Seq<SpecEligibility>, j: int) -> bool {
    a[j].available && b[j].available
}

/// The decision vector accepts the candidate with this ID.
pub open spec fn accepts(d: SpecDecisionResponse, id: Seq<char>) -> bool {
    exists|p: int| 0 <= p < d.values.len() && d.values[p].candidate_id == id && #[trigger] d.values[p].accepted
}

/// Round candidate `j` is eligible for both agents and accepted by both owners.
pub open spec fn unanimous_at(m: SpecNegotiation, j: int) -> bool {
    &&& both_available(m.eligibility.0.unwrap().values, m.eligibility.1.unwrap().values, j)
    &&& accepts(m.decisions.0.unwrap(), m.round.candidates[j].id)
    &&& accepts(m.decisions.1.unwrap(), m.round.candidates[j].id)
}

/// The mutual candidates are exactly the round candidates that both
/// eligibility vectors mark available, in proposal order: the returned
/// positions are increasing, each marked available by both, and cover every
/// candidate marked available by both.
pub proof fn lemma_mutual_positions(
    cs: Seq<SpecCandidate>,
    a: Seq<SpecEligibility>,
    b: Seq<SpecEligibility>,
) -> (idx: Seq<int>)
    ensures
        idx.len() == mutual_candidates(cs, a, b).len(),
        forall|p: int|
            0 <= p < idx.len() ==> 0 <= #[trigger] idx[p] < cs.len() && both_available(a, b, idx[p])
                && mutual_candidates(cs, a, b)[p] == cs[idx[p]],
        forall|p: int, q: int| 0 <= p < q < idx.len() ==> #[trigger] idx[p] < #[trigger] idx[q],
        forall|j: int|
            0 <= j < cs.len() && #[trigger] both_available(a, b, j) ==> exists|p: int|
                0 <= p < idx.len() && #[trigger] idx[p] == j,
    decreases cs.len(),
{
    if cs.len() == 0 {
        Seq::empty()
    } else {
        let n = cs.len() - 1;
        let prev = lemma_mutual_positions(cs.drop_last(), a, b);
        assert forall|j: int| 0 <= j < n implies cs.drop_last()[j] == cs[j] by {}
        if both_available(a, b, n) {
            let idx = prev.push(n);
            assert forall|j: int|
                0 <= j < cs.len() && #[trigger] both_available(a, b, j) implies exists|p: int|
                0 <= p < idx.len() && #[trigger] idx[p] == j by {
                if j == n {
                    assert(idx[idx.len() - 1] == j);
                } else {
                    let p = choose|p: int| 0 <= p < prev.len() && #[trigger] prev[p] == j;
                    assert(idx[p] == j);
                }
            }
            idx
        } else {
            assert forall|j: int|
                0 <= j < cs.len() && #[trigger] both_available(a, b, j) implies exists|p: int|
                0 <= p < prev.len() && #[trigger] prev[p] == j by {
                assert(j != n);
            }
            prev
        }
    }
}

/// Once both owners have decided, the negotiation is `Agreed` exactly when
/// some candidate is eligible for both agents and accepted by both owners,
/// and the agreement is on the first such candidate in proposal order;
/// otherwise it is `NoMatch`.
pub proof fn lemma_agreement_is_first_unanimous(m: SpecNegotiation)
    requires
        negotiation_inv(m),
        m.decisions.0 is Some,
        m.decisions.1 is Some,
    ensures
        m.state == NegotiationState::Agreed || m.state == NegotiationState::NoMatch,
        m.state == NegotiationState::NoMatch ==> forall|j: int|
            0 <= j < m.round.candidates.len() ==> !#[trigger] unanimous_at(m, j),
        m.state == NegotiationState::Agreed ==> exists|j: int|
            {
                &&& 0 <= j < m.round.candidates.len()
                &&& unanimous_at(m, j)
                &&& forall|i: int| 0 <= i < j ==> !#[trigger] unanimous_at(m, i)
                &&& m.agreement == Some(agreement_on(m.round, m.round.candidates[j]))
            },
{
    let e0 = m.eligibility.0.unwrap();
    let e1 = m.eligibility.1.unwrap();
    let d0 = m.decisions.0.unwrap();
    let d1 = m.decisions.1.unwrap();
    let cs = m.round.candidates;
    let mutual = mutual_candidates(cs, e0.values, e1.values);
    let idx = lemma_mutual_positions(cs, e0.values, e1.values);
    let flags = unanimous_flags(mutual.len(), d0.values, d1.values);
    lemma_first_true(flags);
    assert(crate::negotiation::slot(m.decisions, 0) is Some);
    assert(crate::negotiation::slot(m.decisions, 1) is Some);
    assert(decision_ids(d0.values) == candidate_ids(mutual));
    assert(decision_ids(d1.values) == candidate_ids(mutual));
    assert(d0.values.len() == mutual.len());
    assert(d1.values.len() == mutual.len());
    // A round candidate is unanimous exactly when its mutual position is flagged.
    assert forall|j: int| 0 <= j < cs.len() implies #[trigger] unanimous_at(m, j) <==> exists|p: int|
        0 <= p < idx.len() && idx[p] == j && #[trigger] flags[p] by {
        if unanimous_at(m, j) {
            let p = choose|p: int| 0 <= p < idx.len() && #[trigger] idx[p] == j;
            let p0 = choose|p0: int|
                0 <= p0 < d0.values.len() && d0.values[p0].candidate_id == cs[j].id
                    && #[trigger] d0.values[p0].accepted;
            let p1 = choose|p1: int|
                0 <= p1 < d1.values.len() && d1.values[p1].candidate_id == cs[j].id
                    && #[trigger] d1.values[p1].accepted;
            assert(decision_ids(d0.values)[p0] == candidate_ids(mutual)[p0]);
            assert(decision_ids(d1.values)[p1] == candidate_ids(mutual)[p1]);
            assert(cs[idx[p0]].id == cs[j].id);
            assert(cs[idx[p1]].id == cs[j].id);
            assert(idx[p0] == j);
            assert(idx[p1] == j);
            if p0 < p {
                assert(idx[p0] < idx[p]);
            }
            if p < p0 {
                assert(idx[p] < idx[p0]);
            }
            if p1 < p {
                assert(idx[p1] < idx[p]);
            }
            if p < p1 {
                assert(idx[p] < idx[p1]);
            }
            assert(flags[p]);
        }
        if exists|p: int| 0 <= p < idx.len() && idx[p] == j && #[trigger] flags[p] {
            let p = choose|p: int| 0 <= p < idx.len() && idx[p] == j && #[trigger] flags[p];
            assert(decision_ids(d0.values)[p] == candidate_ids(mutual)[p]);
            assert(decision_ids(d1.values)[p] == candidate_ids(mutual)[p]);
            assert(d0.values[p].accepted);
            assert(d1.values[p].accepted);
        }
    }
    match first_true(flags) {
        Some(q) => {
            let j = idx[q];
            assert(unanimous_at(m, j)) by {
                assert(flags[q]);
            }
            assert forall|i: int| 0 <= i < j implies !#[trigger] unanimous_at(m, i) by {
                if unanimous_at(m, i) {
                    let p = choose|p: int| 0 <= p < idx.len() && idx[p] == i && #[trigger] flags[p];
                    if q <= p {
                        if q < p {
                            assert(idx[q] < idx[p]);
                        }
                    }
                }
            }
        },
        None => {
            assert forall|j: int| 0 <= j < cs.len() implies !#[trigger] unanimous_at(m, j) by {
                if unanimous_at(m, j) {
                    let p = choose|p: int| 0 <= p < idx.len() && idx[p] == j && #[trigger] flags[p];
                }
            }
        },
    }
}

/// Once both agents have answered, the negotiation stops at `NoMatch`
/// exactly when no candidate is eligible for both; otherwise it awaits or
/// has taken the owners' decisions.
pub proof fn lemma_no_mutual_option_means_no_match(m: SpecNegotiation)
    requires
        negotiation_inv(m),
        m.eligibility.0 is Some,
        m.eligibility.1 is Some,
    ensures
        m.mutual_options is None <==> forall|j: int|
            0 <= j < m.round.candidates.len() ==> !#[trigger] both_available(
                m.eligibility.0.unwrap().values,
                m.eligibility.1.unwrap().values,
                j,
            ),
        m.mutual_options is None ==> m.state == NegotiationState::NoMatch,
{
    let e0 = m.eligibility.0.unwrap();
    let e1 = m.eligibility.1.unwrap();
    let idx = lemma_mutual_positions(m.round.candidates, e0.values, e1.values);
    if m.mutual_options is Some {
        assert(idx.len() > 0);
        assert(both_available(e0.values, e1.values, idx[0]));
    }
}


/// Owner choices over the mutual options: each option is accepted exactly
/// when its ID is in `yes`.
pub open spec fn owner_choices(options: Seq<SpecCandidate>, yes: Set<Seq<char>>) -> Seq<SpecDecision> {
    options.map_values(
        |c: SpecCandidate| SpecDecision { candidate_id: c.id, accepted: yes.contains(c.id) },
    )
}

/// Round candidate `j` is free in both calendars.
pub open spec fn free_for_both(r: SpecRound, busy_a: Seq<UtcInterval>, busy_b: Seq<UtcInterval>, j: int) -> bool {
    free_of(busy_a, r.candidates[j].interval) && free_of(busy_b, r.candidates[j].interval)
}

/// Round candidate `j` is free in both calendars and accepted by both owners.
pub open spec fn agreeable(
    r: SpecRound,
    busy_a: Seq<UtcInterval>,
    busy_b: Seq<UtcInterval>,
    yes_a: Set<Seq<char>>,
    yes_b: Set<Seq<char>>,
    j: int,
) -> bool {
    &&& free_for_both(r, busy_a, busy_b, j)
    &&& yes_a.contains(r.candidates[j].id)
    &&& yes_b.contains(r.candidates[j].id)
}

/// A whole two-agent meeting on an active round: the coordinator's agent
/// (busy intervals `busy_a`, accepting the IDs in `yes_a`) and the invitee's
/// agent (`busy_b`, `yes_b`) each evaluate the round, and both eligibility
/// vectors are recorded. When no candidate is free for both, the negotiation
/// ends in `NoMatch`. Otherwise both owners' decisions over the mutual
/// options are recorded, and the negotiation is `Agreed` exactly when some
/// candidate is free for both and accepted by both, with the agreement on
/// the first such candidate in proposal order; else it is `NoMatch`.
pub proof fn lemma_two_agent_meeting(
    r: SpecRound,
    now: i64,
    busy_a: Seq<UtcInterval>,
    yes_a: Set<Seq<char>>,
    busy_b: Seq<UtcInterval>,
    yes_b: Set<Seq<char>>,
)
    requires
        valid_round(r),
        round_inactive(r, now) is None,
    ensures
        ({
            let alice = SpecAgent { member_id: r.request.coordinator, busy: busy_a };
            let bob = SpecAgent { member_id: r.request.invitee, busy: busy_b };
            let n = r.candidates.len() as int;
            &&& evaluation(alice, r, now) matches Ok(ea) && evaluation(bob, r, now) matches Ok(eb) && {
                let (m1, o1) = eligibility_step(initial(r), ea, now);
                let (m2, o2) = eligibility_step(m1, eb, now);
                &&& o1 == Ok::<SubmissionOutcome, SpecRendezvousError>(SubmissionOutcome::Recorded)
                &&& o2 == Ok::<SubmissionOutcome, SpecRendezvousError>(SubmissionOutcome::Recorded)
                &&& match m2.mutual_options {
                    None => {
                        &&& m2.state == NegotiationState::NoMatch
                        &&& forall|j: int| 0 <= j < n ==> !#[trigger] free_for_both(r, busy_a, busy_b, j)
                    },
                    Some(o) => {
                        &&& decision_recording(alice, o, owner_choices(o.candidates, yes_a), now) matches Ok(da)
                        &&& decision_recording(bob, o, owner_choices(o.candidates, yes_b), now) matches Ok(db)
                        &&& {
                            let (m3, o3) = decision_step(m2, da, now);
                            let (m4, o4) = decision_step(m3, db, now);
                            &&& o3 == Ok::<SubmissionOutcome, SpecRendezvousError>(SubmissionOutcome::Recorded)
                            &&& o4 == Ok::<SubmissionOutcome, SpecRendezvousError>(SubmissionOutcome::Recorded)
                            &&& m4.state == NegotiationState::Agreed || m4.state == NegotiationState::NoMatch
                            &&& m4.state == NegotiationState::Agreed <==> exists|j: int|
                                0 <= j < n && #[trigger] agreeable(r, busy_a, busy_b, yes_a, yes_b, j)
                            &&& m4.state == NegotiationState::Agreed ==> exists|j: int|
                                {
                                    &&& 0 <= j < n
                                    &&& #[trigger] agreeable(r, busy_a, busy_b, yes_a, yes_b, j)
                                    &&& forall|i: int| 0 <= i < j ==> !#[trigger] agreeable(r, busy_a, busy_b, yes_a, yes_b, i)
                                    &&& m4.agreement == Some(agreement_on(r, r.candidates[j]))
                                }
                        }
                    },
                }
            }
        }),
{
    let alice = SpecAgent { member_id: r.request.coordinator, busy: busy_a };
    let bob = SpecAgent { member_id: r.request.invitee, busy: busy_b };
    let cs = r.candidates;
    let n = cs.len() as int;
    assert(participant_slot(r.request, alice.member_id) == Some(0int));
    assert(participant_slot(r.request, bob.member_id) == Some(1int));
    let ea = SpecEligibilityResponse {
        scope: r,
        member_id: alice.member_id,
        values: eligibility_values(cs, busy_a),
    };
    let eb = SpecEligibilityResponse {
        scope: r,
        member_id: bob.member_id,
        values: eligibility_values(cs, busy_b),
    };
    assert(evaluation(alice, r, now) == Ok::<SpecEligibilityResponse, SpecRendezvousError>(ea));
    assert(evaluation(bob, r, now) == Ok::<SpecEligibilityResponse, SpecRendezvousError>(eb));
    assert(eligibility_ids(ea.values) =~= candidate_ids(cs));
    assert(eligibility_ids(eb.values) =~= candidate_ids(cs));
    let m0 = initial(r);
    assert(negotiation_inv(m0)) by {
        assert(crate::negotiation::slot(m0.eligibility, 0) is None);
        assert(crate::negotiation::slot(m0.eligibility, 1) is None);
        assert(crate::negotiation::slot(m0.decisions, 0) is None);
        assert(crate::negotiation::slot(m0.decisions, 1) is None);
    }
    let (m1, o1) = eligibility_step(m0, ea, now);
    assert(o1 == Ok::<SubmissionOutcome, SpecRendezvousError>(SubmissionOutcome::Recorded));
    lemma_eligibility_step_inv(m0, ea, now);
    let (m2, o2) = eligibility_step(m1, eb, now);
    assert(o2 == Ok::<SubmissionOutcome, SpecRendezvousError>(SubmissionOutcome::Recorded));
    lemma_eligibility_step_inv(m1, eb, now);
    assert(m2.eligibility == (Some(ea), Some(eb)));
    assert forall|j: int| 0 <= j < n implies #[trigger] both_available(ea.values, eb.values, j)
        == free_for_both(r, busy_a, busy_b, j) by {}
    lemma_no_mutual_option_means_no_match(m2);
    match m2.mutual_options {
        None => {
            assert forall|j: int| 0 <= j < n implies !#[trigger] free_for_both(r, busy_a, busy_b, j) by {
                assert(!both_available(ea.values, eb.values, j));
            }
        },
        Some(o) => {
            let mutual = mutual_candidates(cs, ea.values, eb.values);
            assert(o == SpecMutualOptions { scope: r, candidates: mutual });
            let ca = owner_choices(mutual, yes_a);
            let cb = owner_choices(mutual, yes_b);
            assert(decision_ids(ca) =~= candidate_ids(mutual));
            assert(decision_ids(cb) =~= candidate_ids(mutual));
            let da = SpecDecisionResponse { scope: o, member_id: alice.member_id, values: ca };
            let db = SpecDecisionResponse { scope: o, member_id: bob.member_id, values: cb };
            assert(decision_recording(alice, o, ca, now) == Ok::<SpecDecisionResponse, SpecRendezvousError>(da));
            assert(decision_recording(bob, o, cb, now) == Ok::<SpecDecisionResponse, SpecRendezvousError>(db));
            assert(m2.decisions == (None::<SpecDecisionResponse>, None::<SpecDecisionResponse>));
            let (m3, o3) = decision_step(m2, da, now);
            assert(o3 == Ok::<SubmissionOutcome, SpecRendezvousError>(SubmissionOutcome::Recorded));
            lemma_decision_step_inv(m2, da, now);
            let (m4, o4) = decision_step(m3, db, now);
            assert(o4 == Ok::<SubmissionOutcome, SpecRendezvousError>(SubmissionOutcome::Recorded));
            lemma_decision_step_inv(m3, db, now);
            assert(m4.eligibility == (Some(ea), Some(eb)));
            assert(m4.decisions == (Some(da), Some(db)));
            assert(m4.round == r);
            lemma_agreement_is_first_unanimous(m4);
            let idx = lemma_mutual_positions(cs, ea.values, eb.values);
            assert forall|j: int| 0 <= j < n implies #[trigger] unanimous_at(m4, j)
                == agreeable(r, busy_a, busy_b, yes_a, yes_b, j) by {
                if unanimous_at(m4, j) {
                    let p = choose|p: int|
                        0 <= p < ca.len() && ca[p].candidate_id == cs[j].id && #[trigger] ca[p].accepted;
                    let q = choose|q: int|
                        0 <= q < cb.len() && cb[q].candidate_id == cs[j].id && #[trigger] cb[q].accepted;
                    assert(ca[p].candidate_id == mutual[p].id);
                    assert(cb[q].candidate_id == mutual[q].id);
                }
                if agreeable(r, busy_a, busy_b, yes_a, yes_b, j) {
                    assert(both_available(ea.values, eb.values, j));
                    let p = choose|p: int| 0 <= p < idx.len() && #[trigger] idx[p] == j;
                    assert(mutual[p] == cs[j]);
                    assert(ca[p].accepted);
                    assert(cb[p].accepted);
                    assert(accepts(da, cs[j].id));
                    assert(accepts(db, cs[j].id));
                }
            }
            if m4.state == NegotiationState::Agreed {
                let j = choose|j: int|
                    {
                        &&& 0 <= j < n
                        &&& unanimous_at(m4, j)
                        &&& forall|i: int| 0 <= i < j ==> !#[trigger] unanimous_at(m4, i)
                        &&& m4.agreement == Some(agreement_on(m4.round, m4.round.candidates[j]))
                    };
                assert(agreeable(r, busy_a, busy_b, yes_a, yes_b, j));
                assert forall|i: int| 0 <= i < j implies !#[trigger] agreeable(r, busy_a, busy_b, yes_a, yes_b, i) by {
                    assert(!unanimous_at(m4, i));
                }
            } else {
                assert forall|j: int| 0 <= j < n implies !#[trigger] agreeable(r, busy_a, busy_b, yes_a, yes_b, j) by {
                    assert(!unanimous_at(m4, j));
                }
            }
        },
    }
}


// ---------------------------------------------------------------------------
// Replays are compared in full
// ---------------------------------------------------------------------------

/// An eligibility submission is ignored as a duplicate only when exactly the
/// same envelope (scope, sender and every bit) is already recorded for its
/// sender, and then nothing changes.
pub proof fn lemma_eligibility_duplicate_is_identical(
    m: SpecNegotiation,
    r: SpecEligibilityResponse,
    now: i64,
)
    ensures
        eligibility_step(m, r, now).1 == Ok::<SubmissionOutcome, SpecRendezvousError>(
            SubmissionOutcome::DuplicateIgnored,
        ) ==> {
            &&& eligibility_step(m, r, now).0 == m
            &&& participant_slot(m.round.request, r.member_id) matches Some(k)
            &&& crate::negotiation::slot(m.eligibility, k) == Some(r)
        },
{
}

/// A sender whose slot already holds an eligibility vector, and who sends a
/// different envelope for the same round and candidates (a single changed
/// bit is enough), is refused with `ConflictingReplay`, and nothing changes.
pub proof fn lemma_eligibility_conflicting_replay(
    m: SpecNegotiation,
    r: SpecEligibilityResponse,
    k: int,
    recorded: SpecEligibilityResponse,
    now: i64,
)
    requires
        r.scope == m.round,
        participant_slot(m.round.request, r.member_id) == Some(k),
        eligibility_ids(r.values) == candidate_ids(m.round.candidates),
        crate::negotiation::slot(m.eligibility, k) == Some(recorded),
        recorded != r,
    ensures
        eligibility_step(m, r, now) == (
            m,
            Err::<SubmissionOutcome, SpecRendezvousError>(
                SpecRendezvousError::ConflictingReplay(r.member_id),
            ),
        ),
{
}

/// A decision submission is ignored as a duplicate only when exactly the
/// same envelope (scope, sender and every decision) is already recorded for
/// its sender, and then nothing changes.
pub proof fn lemma_decision_duplicate_is_identical(m: SpecNegotiation, r: SpecDecisionResponse, now: i64)
    ensures
        decision_step(m, r, now).1 == Ok::<SubmissionOutcome, SpecRendezvousError>(
            SubmissionOutcome::DuplicateIgnored,
        ) ==> {
            &&& decision_step(m, r, now).0 == m
            &&& participant_slot(m.round.request, r.member_id) matches Some(k)
            &&& crate::negotiation::slot(m.decisions, k) == Some(r)
        },
{
}

/// A sender whose slot already holds a decision vector, and who sends a
/// different envelope for the same options (a single changed decision is
/// enough), is refused with `ConflictingReplay`, and nothing changes.
pub proof fn lemma_decision_conflicting_replay(
    m: SpecNegotiation,
    r: SpecDecisionResponse,
    k: int,
    recorded: SpecDecisionResponse,
    now: i64,
)
    requires
        m.mutual_options == Some(r.scope),
        participant_slot(m.round.request, r.member_id) == Some(k),
        decision_ids(r.values) == candidate_ids(r.scope.candidates),
        crate::negotiation::slot(m.decisions, k) == Some(recorded),
        recorded != r,
    ensures
        decision_step(m, r, now) == (
            m,
            Err::<SubmissionOutcome, SpecRendezvousError>(
                SpecRendezvousError::ConflictingReplay(r.member_id),
            ),
        ),
{
}

// ---------------------------------------------------------------------------
// Round activity
// ---------------------------------------------------------------------------

/// A round is active at `now` exactly when its request is open
/// (`opened_at <= now < expires_at`) and every candidate, at every position,
/// starts strictly after `now`. An expired request is reported as `Expired`;
/// otherwise the first candidate in proposal order that has started is
/// reported by its ID.
pub proof fn lemma_round_activity(r: SpecRound, now: i64)
    ensures
        round_inactive(r, now) is None <==> {
            &&& r.request.opened_at <= now < r.request.expires_at
            &&& forall|i: int|
                0 <= i < r.candidates.len() ==> (#[trigger] r.candidates[i]).interval.start() > now
        },
        !(r.request.opened_at <= now < r.request.expires_at) ==> round_inactive(r, now) == Some(
            SpecRendezvousError::Expired,
        ),
        r.request.opened_at <= now < r.request.expires_at && round_inactive(r, now) is Some
            ==> exists|i: int|
            {
                &&& 0 <= i < r.candidates.len()
                &&& (#[trigger] r.candidates[i]).interval.start() <= now
                &&& forall|j: int| 0 <= j < i ==> (#[trigger] r.candidates[j]).interval.start() > now
                &&& round_inactive(r, now) == Some(
                    SpecRendezvousError::CandidateAlreadyStarted(r.candidates[i].id),
                )
            },
{
    let flags = crate::rendezvous::started_flags(r.candidates, now);
    lemma_first_true(flags);
    match first_true(flags) {
        Some(i) => {
            assert(flags[i]);
            assert forall|j: int| 0 <= j < i implies (#[trigger] r.candidates[j]).interval.start() > now by {
                assert(!flags[j]);
            }
        },
        None => {
            assert forall|i: int| 0 <= i < r.candidates.len() implies (
            #[trigger] r.candidates[i]).interval.start() > now by {
                assert(!flags[i]);
            }
        },
    }
}

// ---------------------------------------------------------------------------
// Availability
// ---------------------------------------------------------------------------

/// An empty calendar leaves every candidate free.
pub proof fn lemma_free_of_empty(candidate: UtcInterval)
    ensures
        free_of(Seq::<UtcInterval>::empty(), candidate),
{
}

/// With one busy interval, a candidate is free exactly when they do not overlap.
pub proof fn lemma_free_of_single(busy: UtcInterval, candidate: UtcInterval)
    ensures
        free_of(seq![busy], candidate) == !busy.overlaps_spec(candidate),
{
    if !free_of(seq![busy], candidate) {
        let i = choose|i: int| 0 <= i < 1 && (#[trigger] seq![busy][i]).overlaps_spec(candidate);
        assert(seq![busy][i] == busy);
    } else {
        assert(seq![busy][0] == busy);
    }
}

/// A candidate is free of two calendars joined exactly when it is free of
/// each: every busy interval counts, wherever it stands in the calendar.
pub proof fn lemma_free_of_concat(a: Seq<UtcInterval>, b: Seq<UtcInterval>, candidate: UtcInterval)
    ensures
        free_of(a + b, candidate) == (free_of(a, candidate) && free_of(b, candidate)),
{
    let ab = a + b;
    if free_of(ab, candidate) {
        assert forall|i: int| 0 <= i < a.len() implies !(#[trigger] a[i]).overlaps_spec(candidate) by {
            assert(ab[i] == a[i]);
        }
        assert forall|i: int| 0 <= i < b.len() implies !(#[trigger] b[i]).overlaps_spec(candidate) by {
            assert(ab[a.len() + i] == b[i]);
        }
    }
    if free_of(a, candidate) && free_of(b, candidate) {
        assert forall|i: int| 0 <= i < ab.len() implies !(#[trigger] ab[i]).overlaps_spec(candidate) by {
            if i < a.len() {
                assert(ab[i] == a[i]);
            } else {
                assert(ab[i] == b[i - a.len()]);
            }
        }
    }
}

/// With well-formed intervals, a candidate is free exactly when no instant
/// of it lies in any busy interval, at any position of the calendar.
pub proof fn lemma_free_of_no_shared_instant(busy: Seq<UtcInterval>, candidate: UtcInterval)
    requires
        candidate.well_formed(),
        forall|i: int| 0 <= i < busy.len() ==> (#[trigger] busy[i]).well_formed(),
    ensures
        free_of(busy, candidate) <==> !exists|i: int, t: i64|
            0 <= i < busy.len() && (#[trigger] busy[i]).holds_instant(t as int) && #[trigger] candidate.holds_instant(t as int),
{
    if free_of(busy, candidate) {
        assert forall|i: int, t: i64|
            0 <= i < busy.len() && (#[trigger] busy[i]).holds_instant(t as int) implies !#[trigger] candidate.holds_instant(t as int) by {
            crate::calendar::lemma_overlap_is_shared_instant(busy[i], candidate);
        }
    } else {
        let i = choose|i: int| 0 <= i < busy.len() && (#[trigger] busy[i]).overlaps_spec(candidate);
        crate::calendar::lemma_overlap_is_shared_instant(busy[i], candidate);
        let t = choose|t: i64| #[trigger] busy[i].holds_instant(t as int) && #[trigger] candidate.holds_instant(t as int);
        assert(busy[i].holds_instant(t as int) && candidate.holds_instant(t as int));
    }
}

/// An agent answers exactly when the round is active and the agent is one of
/// the two participants; the answer is bound to the round, names the agent,
/// and has one bit per round candidate, in proposal order, set exactly when
/// none of the agent's busy intervals, at any position, overlaps that
/// candidate.
pub proof fn lemma_evaluation_bits(a: SpecAgent, r: SpecRound, now: i64)
    ensures
        evaluation(a, r, now) is Ok <==> (round_inactive(r, now) is None && (a.member_id
            == r.request.coordinator || a.member_id == r.request.invitee)),
        evaluation(a, r, now) is Ok ==> ({
            let e = evaluation(a, r, now)->Ok_0;
            &&& e.scope == r
            &&& e.member_id == a.member_id
            &&& e.values.len() == r.candidates.len()
            &&& forall|j: int|
                0 <= j < r.candidates.len() ==> {
                    &&& (#[trigger] e.values[j]).candidate_id == r.candidates[j].id
                    &&& e.values[j].available <==> forall|i: int|
                        0 <= i < a.busy.len() ==> !a.busy[i].overlaps_spec(r.candidates[j].interval)
                }
        }),
{
}

/// Owner decisions are recorded exactly when the options' round is active,
/// the agent is a participant, and the decisions name the mutual options in
/// order; the envelope then carries the owner's decisions unchanged.
pub proof fn lemma_decision_recording(
    a: SpecAgent,
    o: SpecMutualOptions,
    decisions: Seq<SpecDecision>,
    now: i64,
)
    ensures
        decision_recording(a, o, decisions, now) is Ok <==> {
            &&& round_inactive(o.scope, now) is None
            &&& a.member_id == o.scope.request.coordinator || a.member_id
                == o.scope.request.invitee
            &&& decisions.len() == o.candidates.len()
            &&& forall|i: int|
                0 <= i < decisions.len() ==> (#[trigger] decisions[i]).candidate_id
                    == o.candidates[i].id
        },
        decision_recording(a, o, decisions, now) is Ok ==> decision_recording(a, o, decisions, now)
            == Ok::<SpecDecisionResponse, SpecRendezvousError>(
            SpecDecisionResponse { scope: o, member_id: a.member_id, values: decisions },
        ),
{
    if decisions.len() == o.candidates.len() && forall|i: int|
        0 <= i < decisions.len() ==> (#[trigger] decisions[i]).candidate_id == o.candidates[i].id {
        assert(candidate_ids(o.candidates) =~= decision_ids(decisions));
    }
    if candidate_ids(o.candidates) == decision_ids(decisions) {
        assert(decisions.len() == decision_ids(decisions).len());
        assert(o.candidates.len() == candidate_ids(o.candidates).len());
        assert forall|i: int| 0 <= i < decisions.len() implies (#[trigger] decisions[i]).candidate_id
            == o.candidates[i].id by {
            assert(decision_ids(decisions)[i] == candidate_ids(o.candidates)[i]);
        }
    }
}

// ---------------------------------------------------------------------------
// Round acceptance
// ---------------------------------------------------------------------------

/// A round is accepted exactly when it has one to three candidates, each
/// lasting the requested duration, lying inside the horizon and starting
/// after the request opened, with no repeated ID and no repeated interval.
/// A count outside one to three is refused as such.
pub proof fn lemma_round_acceptance(q: SpecRequest, cs: Seq<SpecCandidate>)
    ensures
        round_fault(q, cs) is None <==> {
            &&& 1 <= cs.len() <= 3
            &&& forall|i: int|
                0 <= i < cs.len() ==> {
                    &&& (#[trigger] cs[i]).interval.duration() == q.duration_seconds
                    &&& q.horizon.start() <= cs[i].interval.start()
                    &&& cs[i].interval.end() <= q.horizon.end()
                    &&& cs[i].interval.start() > q.opened_at
                }
            &&& forall|i: int, j: int|
                0 <= i < cs.len() && 0 <= j < cs.len() && i != j ==> (#[trigger] cs[i]).id
                    != (#[trigger] cs[j]).id && cs[i].interval != cs[j].interval
        },
        (cs.len() == 0 || cs.len() > 3) ==> round_fault(q, cs) == Some(
            SpecRendezvousError::InvalidCandidateCount(cs.len()),
        ),
{
    crate::rendezvous::lemma_round_fault(q, cs);
    if crate::rendezvous::valid_candidates(q, cs) {
        assert forall|i: int, j: int|
            0 <= i < cs.len() && 0 <= j < cs.len() && i != j implies (#[trigger] cs[i]).id
            != (#[trigger] cs[j]).id && cs[i].interval != cs[j].interval by {
            if i > j {
                assert(cs[j].id != cs[i].id && cs[j].interval != cs[i].interval);
            }
        }
    }
}

// ---------------------------------------------------------------------------
// Identifier alphabet
// ---------------------------------------------------------------------------

/// An identifier is valid exactly when it has 1 to 64 characters, each an
/// ASCII digit (48..=57), upper-case letter (65..=90), lower-case letter
/// (97..=122), `-` (45), `.` (46) or `_` (95); so `@`, `:`, `,`, `/`, `;`,
/// spaces and non-ASCII characters are refused.
pub proof fn lemma_identifier_alphabet(s: Seq<char>)
    ensures
        valid_identifier(s) <==> {
            &&& 1 <= s.len() <= 64
            &&& forall|i: int|
                0 <= i < s.len() ==> {
                    let c = (#[trigger] s[i]) as int;
                    ||| 48 <= c <= 57
                    ||| 65 <= c <= 90
                    ||| 97 <= c <= 122
                    ||| c == 45
                    ||| c == 46
                    ||| c == 95
                }
        },
{
}


// ---------------------------------------------------------------------------
// The agreement key determines the agreement
// ---------------------------------------------------------------------------

/// The request and round header of the key, as semicolon-closed tokens.
pub open spec fn header_tokens(r: SpecRound) -> Seq<Seq<char>> {
    let q = r.request;
    seq![
        "fabric-schedule-sim/0"@,
        length_token(q.negotiation_id),
        length_token(q.coordinator),
        length_token(q.invitee),
        length_token(projection_name(q.projection)),
        length_token("first_unanimous_in_proposal_order"@),
        signed_decimal(q.horizon.start() as int),
        signed_decimal(q.horizon.duration() as int),
        signed_decimal(q.duration_seconds as int),
        signed_decimal(q.opened_at as int),
        signed_decimal(q.expires_at as int),
        signed_decimal(r.round as int),
        signed_decimal(r.candidates.len() as int),
    ]
}

/// Three tokens per proposed candidate, in proposal order.
pub open spec fn candidate_tokens(cs: Seq<SpecCandidate>) -> Seq<Seq<char>>
    decreases cs.len(),
{
    if cs.len() == 0 {
        Seq::empty()
    } else {
        candidate_tokens(cs.drop_last()) + seq![
            length_token(cs.last().id),
            signed_decimal(cs.last().interval.start() as int),
            signed_decimal(cs.last().interval.duration() as int),
        ]
    }
}

/// All tokens of the key of an agreement on `c` in round `r`.
pub open spec fn key_tokens(r: SpecRound, c: SpecCandidate) -> Seq<Seq<char>> {
    header_tokens(r) + candidate_tokens(r.candidates) + seq![length_token(c.id)]
}

proof fn lemma_identifier_plain(s: Seq<char>)
    requires
        valid_identifier(s),
    ensures
        free_of_char(s, ';'),
{
    assert forall|i: int| 0 <= i < s.len() implies s[i] != ';' by {
        assert(crate::identifier::identifier_char(s[i]));
    }
}

proof fn lemma_candidate_tokens_shape(cs: Seq<SpecCandidate>)
    ensures
        candidate_tokens(cs).len() == 3 * cs.len(),
        forall|i: int|
            0 <= i < cs.len() ==> {
                &&& candidate_tokens(cs)[3 * i] == length_token(#[trigger] cs[i].id)
                &&& candidate_tokens(cs)[3 * i + 1] == signed_decimal(cs[i].interval.start() as int)
                &&& candidate_tokens(cs)[3 * i + 2] == signed_decimal(
                    cs[i].interval.duration() as int,
                )
            },
        candidate_entries(cs) == terminated(candidate_tokens(cs)),
    decreases cs.len(),
{
    if cs.len() > 0 {
        let prev = cs.drop_last();
        lemma_candidate_tokens_shape(prev);
        let last3 = seq![
            length_token(cs.last().id),
            signed_decimal(cs.last().interval.start() as int),
            signed_decimal(cs.last().interval.duration() as int),
        ];
        assert forall|i: int| 0 <= i < cs.len() implies {
            &&& candidate_tokens(cs)[3 * i] == length_token(#[trigger] cs[i].id)
            &&& candidate_tokens(cs)[3 * i + 1] == signed_decimal(cs[i].interval.start() as int)
            &&& candidate_tokens(cs)[3 * i + 2] == signed_decimal(cs[i].interval.duration() as int)
        } by {
            if i < prev.len() {
                assert(prev[i] == cs[i]);
            }
        }
        lemma_terminated_append(candidate_tokens(prev), last3);
        reveal_with_fuel(terminated, 4);
        lemma_length_token_plain_any(cs.last().id);
        assert(terminated(last3) =~= candidate_entry(cs.last()));
    }
}

/// A length-prefixed value is its length token and a semicolon.
proof fn lemma_length_token_plain_any(v: Seq<char>)
    ensures
        length_prefixed(v) == length_token(v) + seq![';'],
{
    assert(length_prefixed(v) =~= length_token(v) + seq![';']);
}

proof fn lemma_terminated_snoc(ts: Seq<Seq<char>>, t: Seq<char>)
    ensures
        terminated(ts.push(t)) == terminated(ts) + t + seq![';'],
{
    lemma_terminated_append(ts, seq![t]);
    assert(ts + seq![t] =~= ts.push(t));
    reveal_with_fuel(terminated, 2);
    assert(terminated(seq![t]) =~= t + seq![';']);
    assert(terminated(ts) + (t + seq![';']) =~= terminated(ts) + t + seq![';']);
}

proof fn lemma_header_tokens(r: SpecRound)
    ensures
        key_header(r) == terminated(header_tokens(r)),
{
    let q = r.request;
    reveal_strlit("fabric-schedule-sim/0;");
    reveal_strlit("fabric-schedule-sim/0");
    assert("fabric-schedule-sim/0;"@ =~= "fabric-schedule-sim/0"@ + seq![';']);
    lemma_length_token_plain_any(q.negotiation_id);
    lemma_length_token_plain_any(q.coordinator);
    lemma_length_token_plain_any(q.invitee);
    lemma_length_token_plain_any(projection_name(q.projection));
    lemma_length_token_plain_any("first_unanimous_in_proposal_order"@);
    let p0 = Seq::<Seq<char>>::empty();
    assert(terminated(p0) =~= Seq::<char>::empty());
    lemma_terminated_snoc(p0, "fabric-schedule-sim/0"@);
    let p1 = p0.push("fabric-schedule-sim/0"@);
    assert(terminated(p1) =~= "fabric-schedule-sim/0;"@);
    lemma_terminated_snoc(p1, length_token(q.negotiation_id));
    let p2 = p1.push(length_token(q.negotiation_id));
    assert(terminated(p2) =~= terminated(p1) + length_prefixed(q.negotiation_id));
    lemma_terminated_snoc(p2, length_token(q.coordinator));
    let p3 = p2.push(length_token(q.coordinator));
    assert(terminated(p3) =~= terminated(p2) + length_prefixed(q.coordinator));
    lemma_terminated_snoc(p3, length_token(q.invitee));
    let p4 = p3.push(length_token(q.invitee));
    assert(terminated(p4) =~= terminated(p3) + length_prefixed(q.invitee));
    lemma_terminated_snoc(p4, length_token(projection_name(q.projection)));
    let p5 = p4.push(length_token(projection_name(q.projection)));
    assert(terminated(p5) =~= terminated(p4) + length_prefixed(projection_name(q.projection)));
    lemma_terminated_snoc(p5, length_token("first_unanimous_in_proposal_order"@));
    let p6 = p5.push(length_token("first_unanimous_in_proposal_order"@));
    assert(terminated(p6) =~= terminated(p5) + length_prefixed("first_unanimous_in_proposal_order"@));
    lemma_terminated_snoc(p6, signed_decimal(q.horizon.start() as int));
    let p7 = p6.push(signed_decimal(q.horizon.start() as int));
    assert(terminated(p7) =~= terminated(p6) + number_field(q.horizon.start() as int));
    lemma_terminated_snoc(p7, signed_decimal(q.horizon.duration() as int));
    let p8 = p7.push(signed_decimal(q.horizon.duration() as int));
    assert(terminated(p8) =~= terminated(p7) + number_field(q.horizon.duration() as int));
    lemma_terminated_snoc(p8, signed_decimal(q.duration_seconds as int));
    let p9 = p8.push(signed_decimal(q.duration_seconds as int));
    assert(terminated(p9) =~= terminated(p8) + number_field(q.duration_seconds as int));
    lemma_terminated_snoc(p9, signed_decimal(q.opened_at as int));
    let p10 = p9.push(signed_decimal(q.opened_at as int));
    assert(terminated(p10) =~= terminated(p9) + number_field(q.opened_at as int));
    lemma_terminated_snoc(p10, signed_decimal(q.expires_at as int));
    let p11 = p10.push(signed_decimal(q.expires_at as int));
    assert(terminated(p11) =~= terminated(p10) + number_field(q.expires_at as int));
    lemma_terminated_snoc(p11, signed_decimal(r.round as int));
    let p12 = p11.push(signed_decimal(r.round as int));
    assert(terminated(p12) =~= terminated(p11) + number_field(r.round as int));
    lemma_terminated_snoc(p12, signed_decimal(r.candidates.len() as int));
    let p13 = p12.push(signed_decimal(r.candidates.len() as int));
    assert(terminated(p13) =~= terminated(p12) + number_field(r.candidates.len() as int));
    assert(p13 =~= header_tokens(r));
}

proof fn lemma_key_tokens(r: SpecRound, c: SpecCandidate)
    ensures
        agreement_key_text(r, c) == terminated(key_tokens(r, c)),
{
    let h = header_tokens(r);
    let ct = candidate_tokens(r.candidates);
    let last = seq![length_token(c.id)];
    lemma_candidate_tokens_shape(r.candidates);
    lemma_terminated_append(h + ct, last);
    lemma_terminated_append(h, ct);
    lemma_header_tokens(r);
    lemma_terminated_snoc(Seq::empty(), length_token(c.id));
    assert(Seq::<Seq<char>>::empty().push(length_token(c.id)) =~= last);
    lemma_length_token_plain_any(c.id);
    assert(terminated(last) =~= length_prefixed(c.id));
    assert(agreement_key_text(r, c) =~= terminated(key_tokens(r, c)));
}

proof fn lemma_projection_name(p: crate::rendezvous::ProjectionProfile, q: crate::rendezvous::ProjectionProfile)
    ensures
        free_of_char(projection_name(p), ';'),
        projection_name(p) == projection_name(q) ==> p == q,
{
    reveal_strlit("fabric_only");
    reveal_strlit("opaque_busy");
    if projection_name(p) == projection_name(q) && p != q {
        assert(projection_name(p)[0] != projection_name(q)[0]);
    }
}

proof fn lemma_key_tokens_plain(r: SpecRound, c: SpecCandidate)
    requires
        valid_round(r),
        valid_identifier(c.id),
    ensures
        forall|i: int| 0 <= i < key_tokens(r, c).len() ==> free_of_char(#[trigger] key_tokens(r, c)[i], ';'),
{
    let q = r.request;
    let h = header_tokens(r);
    let ct = candidate_tokens(r.candidates);
    let kt = key_tokens(r, c);
    lemma_candidate_tokens_shape(r.candidates);
    reveal_strlit("fabric-schedule-sim/0");
    reveal_strlit("first_unanimous_in_proposal_order");
    lemma_projection_name(q.projection, q.projection);
    lemma_identifier_plain(q.negotiation_id);
    lemma_identifier_plain(q.coordinator);
    lemma_identifier_plain(q.invitee);
    lemma_identifier_plain(c.id);
    lemma_length_token_plain(q.negotiation_id);
    lemma_length_token_plain(q.coordinator);
    lemma_length_token_plain(q.invitee);
    lemma_length_token_plain(projection_name(q.projection));
    assert(free_of_char("first_unanimous_in_proposal_order"@, ';'));
    lemma_length_token_plain("first_unanimous_in_proposal_order"@);
    lemma_length_token_plain(c.id);
    lemma_signed_decimal_plain(q.horizon.start() as int);
    lemma_signed_decimal_plain(q.horizon.duration() as int);
    lemma_signed_decimal_plain(q.duration_seconds as int);
    lemma_signed_decimal_plain(q.opened_at as int);
    lemma_signed_decimal_plain(q.expires_at as int);
    lemma_signed_decimal_plain(r.round as int);
    lemma_signed_decimal_plain(r.candidates.len() as int);
    assert forall|i: int| 0 <= i < kt.len() implies free_of_char(#[trigger] kt[i], ';') by {
        if i < 13 {
            assert(kt[i] == h[i]);
        } else if i < 13 + ct.len() {
            assert(kt[i] == ct[i - 13]);
            let j = (i - 13) / 3;
            let m = (i - 13) % 3;
            assert(i - 13 == 3 * j + m);
            let id = r.candidates[j].id;
            assert(crate::rendezvous::valid_candidate(r.candidates[j]));
            assert(valid_identifier(id));
            lemma_identifier_plain(id);
            lemma_length_token_plain(id);
            lemma_signed_decimal_plain(r.candidates[j].interval.start() as int);
            lemma_signed_decimal_plain(r.candidates[j].interval.duration() as int);
        } else {
            assert(kt[i] == length_token(c.id));
        }
    }
}

/// The agreement key binds the whole round and the selected candidate's ID:
/// for rounds and candidates as every [`crate::rendezvous::CandidateRound`]
/// and [`crate::rendezvous::Candidate`] value holds them (which
/// [`crate::negotiation::canonical_agreement_key`] states of its arguments),
/// two keys are equal exactly when they were built from the same request,
/// the same candidates in the same order, and the same selected candidate ID.
pub proof fn lemma_agreement_key_injective(r1: SpecRound, c1: SpecCandidate, r2: SpecRound, c2: SpecCandidate)
    requires
        valid_round(r1),
        valid_round(r2),
        crate::rendezvous::valid_candidate(c1),
        crate::rendezvous::valid_candidate(c2),
    ensures
        (agreement_key_text(r1, c1) == agreement_key_text(r2, c2)) <==> (r1 == r2 && c1.id == c2.id),
{
    if agreement_key_text(r1, c1) == agreement_key_text(r2, c2) {
        lemma_agreement_key_binds(r1, c1, r2, c2);
    }
}

proof fn lemma_agreement_key_binds(r1: SpecRound, c1: SpecCandidate, r2: SpecRound, c2: SpecCandidate)
    requires
        valid_round(r1),
        valid_round(r2),
        valid_identifier(c1.id),
        valid_identifier(c2.id),
        agreement_key_text(r1, c1) == agreement_key_text(r2, c2),
    ensures
        r1 == r2,
        c1.id == c2.id,
{
    lemma_key_tokens(r1, c1);
    lemma_key_tokens(r2, c2);
    lemma_key_tokens_plain(r1, c1);
    lemma_key_tokens_plain(r2, c2);
    let k1 = key_tokens(r1, c1);
    let k2 = key_tokens(r2, c2);
    lemma_terminated_injective(k1, k2);
    assert(k1 == k2);
    let q1 = r1.request;
    let q2 = r2.request;
    assert(k1[12] == k2[12]);
    lemma_signed_decimal_injective(r1.candidates.len() as int, r2.candidates.len() as int);
    lemma_candidate_tokens_shape(r1.candidates);
    lemma_candidate_tokens_shape(r2.candidates);
    let n: int = r1.candidates.len() as int;
    assert(k1.len() == 13 + 3 * n + 1);
    // Header fields.
    assert(k1[1] == k2[1]);
    lemma_length_token_injective(q1.negotiation_id, q2.negotiation_id);
    assert(k1[2] == k2[2]);
    lemma_length_token_injective(q1.coordinator, q2.coordinator);
    assert(k1[3] == k2[3]);
    lemma_length_token_injective(q1.invitee, q2.invitee);
    assert(k1[4] == k2[4]);
    lemma_length_token_injective(projection_name(q1.projection), projection_name(q2.projection));
    lemma_projection_name(q1.projection, q2.projection);
    assert(k1[6] == k2[6]);
    lemma_signed_decimal_injective(q1.horizon.start() as int, q2.horizon.start() as int);
    assert(k1[7] == k2[7]);
    lemma_signed_decimal_injective(q1.horizon.duration() as int, q2.horizon.duration() as int);
    UtcInterval::lemma_same_fields(q1.horizon, q2.horizon);
    assert(k1[8] == k2[8]);
    lemma_signed_decimal_injective(q1.duration_seconds as int, q2.duration_seconds as int);
    assert(k1[9] == k2[9]);
    lemma_signed_decimal_injective(q1.opened_at as int, q2.opened_at as int);
    assert(k1[10] == k2[10]);
    lemma_signed_decimal_injective(q1.expires_at as int, q2.expires_at as int);
    assert(k1[11] == k2[11]);
    lemma_signed_decimal_injective(r1.round as int, r2.round as int);
    assert(q1 == q2);
    // Candidates, in order.
    assert forall|i: int| 0 <= i < n implies r1.candidates[i] == r2.candidates[i] by {
        let a = r1.candidates[i];
        let b = r2.candidates[i];
        assert(k1[13 + 3 * i] == k2[13 + 3 * i]);
        assert(k1[13 + 3 * i + 1] == k2[13 + 3 * i + 1]);
        assert(k1[13 + 3 * i + 2] == k2[13 + 3 * i + 2]);
        lemma_length_token_injective(a.id, b.id);
        lemma_signed_decimal_injective(a.interval.start() as int, b.interval.start() as int);
        lemma_signed_decimal_injective(a.interval.duration() as int, b.interval.duration() as int);
        UtcInterval::lemma_same_fields(a.interval, b.interval);
    }
    assert(r1.candidates =~= r2.candidates);
    // Selected candidate.
    assert(k1[13 + 3 * n] == k2[13 + 3 * n]);
    lemma_length_token_injective(c1.id, c2.id);
}


// ---------------------------------------------------------------------------
// Data minimization
// ---------------------------------------------------------------------------

/// An eligibility response depends on an agent's private calendar only
/// through one availability bit per disclosed candidate: two agents of the
/// same member whose calendars agree on those bits answer identically.
pub proof fn lemma_evaluation_reveals_only_bits(a: SpecAgent, b: SpecAgent, r: SpecRound, now: i64)
    requires
        a.member_id == b.member_id,
        forall|i: int|
            0 <= i < r.candidates.len() ==> free_of(a.busy, (#[trigger] r.candidates[i]).interval)
                == free_of(b.busy, r.candidates[i].interval),
    ensures
        evaluation(a, r, now) == evaluation(b, r, now),
{
    assert(crate::rendezvous::eligibility_values(r.candidates, a.busy)
        =~= crate::rendezvous::eligibility_values(r.candidates, b.busy));
}

} // verus!
