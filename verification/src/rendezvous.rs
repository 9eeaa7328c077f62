//! Rendezvous data: requests, candidate rounds, per-candidate eligibility and
//! owner decisions, and the local scheduling agent that produces them.
//!
//! Every type is modelled by a `Spec*` value in which identifiers are character
//! sequences; contracts speak of those models.

use vstd::prelude::*;
use vstd::std_specs::cmp::PartialEqSpecImpl;

use crate::calendar::{free_of, LocalCalendar, UtcInterval};
use crate::error::{RendezvousError, SpecRendezvousError, MAX_CANDIDATES};
use crate::identifier::{valid_identifier, CandidateId, MemberId, NegotiationId};

verus! {

// ---------------------------------------------------------------------------
// Generic helpers
// ---------------------------------------------------------------------------

/// Index of the first `true` in `s`, if any.
pub open spec fn first_true(s: Seq<bool>) -> Option<int>
    decreases s.len(),
{
    if s.len() == 0 {
        None
    } else {
        match first_true(s.drop_last()) {
            Some(i) => Some(i),
            None => if s.last() {
                Some(s.len() - 1)
            } else {
                None
            },
        }
    }
}

/// [`first_true`] finds the least index holding `true`, or reports that none does.
pub proof fn lemma_first_true(s: Seq<bool>)
    ensures
        match first_true(s) {
            Some(i) => 0 <= i < s.len() && s[i] && forall|j: int| 0 <= j < i ==> !s[j],
            None => forall|j: int| 0 <= j < s.len() ==> !s[j],
        },
    decreases s.len(),
{
    if s.len() > 0 {
        lemma_first_true(s.drop_last());
        assert forall|j: int| 0 <= j < s.len() - 1 implies s.drop_last()[j] == s[j] by {}
    }
}

/// Model of a result whose both sides have views.
pub open spec fn view_result<T: View, E: View>(r: Result<T, E>) -> Result<T::V, E::V> {
    match r {
        Ok(t) => Ok(t@),
        Err(e) => Err(e@),
    }
}

// ---------------------------------------------------------------------------
// Projection profile
// ---------------------------------------------------------------------------

/// Provider projection authorized for the eventual meeting.
#[derive(Clone, Copy, Debug, PartialEq, Eq, Structural)]
pub enum ProjectionProfile {
    /// Keep the agreed meeting in Fabric only.
    FabricOnly,
    /// A later commit may create an owner-local generic busy block.
    OpaqueBusy,
}

/// Transcript name of a projection profile.
pub open spec fn projection_name(p: ProjectionProfile) -> Seq<char> {
    match p {
        ProjectionProfile::FabricOnly => "fabric_only"@,
        ProjectionProfile::OpaqueBusy => "opaque_busy"@,
    }
}

impl ProjectionProfile {
    /// Transcript name of the profile.
    pub fn as_str(self) -> (s: &'static str)
        ensures
            s@ == projection_name(self),
    {
        match self {
            ProjectionProfile::FabricOnly => "fabric_only",
            ProjectionProfile::OpaqueBusy => "opaque_busy",
        }
    }
}

// ---------------------------------------------------------------------------
// Candidates
// ---------------------------------------------------------------------------

/// Model of a [`Candidate`].
#[verifier::ext_equal]
pub struct SpecCandidate {
    pub id: Seq<char>,
    pub interval: UtcInterval,
}

/// One disclosed candidate interval.
#[derive(Debug, Eq)]
pub struct Candidate {
    id: CandidateId,
    interval: UtcInterval,
}

impl View for Candidate {
    type V = SpecCandidate;

    closed spec fn view(&self) -> SpecCandidate {
        SpecCandidate { id: self.id@, interval: self.interval }
    }
}

/// Models of a sequence of candidates.
pub open spec fn candidate_views(v: Seq<Candidate>) -> Seq<SpecCandidate> {
    v.map_values(|c: Candidate| c@)
}

/// Identifiers of a sequence of candidate models, in order.
pub open spec fn candidate_ids(cs: Seq<SpecCandidate>) -> Seq<Seq<char>> {
    cs.map_values(|c: SpecCandidate| c.id)
}

/// A candidate model as every [`Candidate`] value has it: a valid ID and a
/// well-formed interval.
pub open spec fn valid_candidate(c: SpecCandidate) -> bool {
    valid_identifier(c.id) && c.interval.well_formed()
}

impl Candidate {
    #[verifier::type_invariant]
    pub(crate) open spec fn inv(self) -> bool {
        valid_candidate(self@)
    }
}

impl Clone for Candidate {
    fn clone(&self) -> (r: Self)
        ensures
            r@ == self@,
    {
        proof {
            use_type_invariant(self);
        }
        Candidate { id: self.id.clone(), interval: self.interval }
    }
}

impl PartialEq for Candidate {
    fn eq(&self, other: &Self) -> (r: bool) {
        self.id == other.id && self.interval == other.interval
    }
}

impl PartialEqSpecImpl for Candidate {
    open spec fn obeys_eq_spec() -> bool {
        true
    }

    open spec fn eq_spec(&self, other: &Self) -> bool {
        self@ == other@
    }
}

impl Candidate {
    /// Creates a candidate from an opaque ID and exact UTC interval.
    pub fn new(id: CandidateId, interval: UtcInterval) -> (c: Self)
        ensures
            c@ == (SpecCandidate { id: id@, interval }),
            valid_candidate(c@),
    {
        proof {
            use_type_invariant(&id);
            use_type_invariant(&interval);
        }
        Candidate { id, interval }
    }

    /// Candidate ID, scoped to this negotiation.
    pub fn id(&self) -> (r: &CandidateId)
        ensures
            r@ == self@.id,
            valid_candidate(self@),
    {
        proof {
            use_type_invariant(self);
        }
        &self.id
    }

    /// Exact disclosed interval.
    pub fn interval(&self) -> (r: UtcInterval)
        ensures
            r == self@.interval,
    {
        self.interval
    }
}

/// Copies a sequence of candidates.
pub fn clone_candidates(v: &[Candidate]) -> (r: Vec<Candidate>)
    ensures
        candidate_views(r@) == candidate_views(v@),
{
    let mut out: Vec<Candidate> = Vec::new();
    let n = v.len();
    let mut i: usize = 0;
    while i < n
        invariant
            n == v@.len(),
            i <= n,
            out@.len() == i,
            forall|j: int| 0 <= j < i ==> (#[trigger] out@[j])@ == v@[j]@,
        decreases n - i,
    {
        out.push(v[i].clone());
        i = i + 1;
    }
    assert(candidate_views(out@) =~= candidate_views(v@));
    out
}

/// Compares two sequences of candidates by their models.
pub fn candidates_equal(a: &[Candidate], b: &[Candidate]) -> (r: bool)
    ensures
        r == (candidate_views(a@) == candidate_views(b@)),
{
    let n = a.len();
    if n != b.len() {
        assert(candidate_views(a@).len() != candidate_views(b@).len());
        return false;
    }
    let mut i: usize = 0;
    while i < n
        invariant
            n == a@.len(),
            n == b@.len(),
            i <= n,
            forall|j: int| 0 <= j < i ==> (#[trigger] a@[j])@ == b@[j]@,
        decreases n - i,
    {
        if a[i] != b[i] {
            assert(candidate_views(a@)[i as int] != candidate_views(b@)[i as int]);
            return false;
        }
        i = i + 1;
    }
    assert(candidate_views(a@) =~= candidate_views(b@));
    true
}

// ---------------------------------------------------------------------------
// Meeting request
// ---------------------------------------------------------------------------

/// Model of a [`MeetingRequest`].
#[verifier::ext_equal]
pub struct SpecRequest {
    pub negotiation_id: Seq<char>,
    pub coordinator: Seq<char>,
    pub invitee: Seq<char>,
    pub horizon: UtcInterval,
    pub duration_seconds: u32,
    pub projection: ProjectionProfile,
    pub opened_at: i64,
    pub expires_at: i64,
}

/// The exact owner-approved request context for one two-person negotiation.
#[derive(Debug, Eq)]
pub struct MeetingRequest {
    negotiation_id: NegotiationId,
    participants: [MemberId; 2],
    horizon: UtcInterval,
    duration_seconds: u32,
    projection: ProjectionProfile,
    opened_at_utc_ms: i64,
    expires_at_utc_ms: i64,
}

impl View for MeetingRequest {
    type V = SpecRequest;

    closed spec fn view(&self) -> SpecRequest {
        SpecRequest {
            negotiation_id: self.negotiation_id@,
            coordinator: self.participants@[0]@,
            invitee: self.participants@[1]@,
            horizon: self.horizon,
            duration_seconds: self.duration_seconds,
            projection: self.projection,
            opened_at: self.opened_at_utc_ms,
            expires_at: self.expires_at_utc_ms,
        }
    }
}

/// Outcome of [`MeetingRequest::new`]: the first failed check, in the order
/// distinct participants, non-zero duration, expiry after opening.
pub open spec fn request_result(
    negotiation_id: Seq<char>,
    coordinator: Seq<char>,
    invitee: Seq<char>,
    horizon: UtcInterval,
    duration_seconds: u32,
    projection: ProjectionProfile,
    opened_at: i64,
    expires_at: i64,
) -> Result<SpecRequest, SpecRendezvousError> {
    if coordinator == invitee {
        Err(SpecRendezvousError::SameParticipant)
    } else if duration_seconds == 0 {
        Err(SpecRendezvousError::ZeroDuration)
    } else if expires_at <= opened_at {
        Err(SpecRendezvousError::InvalidExpiry)
    } else {
        Ok(
            SpecRequest {
                negotiation_id,
                coordinator,
                invitee,
                horizon,
                duration_seconds,
                projection,
                opened_at,
                expires_at,
            },
        )
    }
}

/// Slot of `member` among the two participants: 0 for the coordinator,
/// 1 for the invitee.
pub open spec fn participant_slot(request: SpecRequest, member: Seq<char>) -> Option<int> {
    if request.coordinator == member {
        Some(0)
    } else if request.invitee == member {
        Some(1)
    } else {
        None
    }
}

/// The request accepts messages at `now`: opened, and not yet expired.
pub open spec fn request_active(request: SpecRequest, now: i64) -> bool {
    request.opened_at <= now < request.expires_at
}

/// A request model as every [`MeetingRequest`] value has it: distinct valid
/// participants, a valid negotiation ID, a well-formed horizon, a non-zero
/// duration and an expiry after the opening.
pub open spec fn valid_request(q: SpecRequest) -> bool {
    &&& valid_identifier(q.negotiation_id)
    &&& valid_identifier(q.coordinator)
    &&& valid_identifier(q.invitee)
    &&& q.coordinator != q.invitee
    &&& q.horizon.well_formed()
    &&& q.duration_seconds > 0
    &&& q.opened_at < q.expires_at
}

impl MeetingRequest {
    #[verifier::type_invariant]
    pub(crate) open spec fn inv(self) -> bool {
        valid_request(self@)
    }
}

impl Clone for MeetingRequest {
    fn clone(&self) -> (r: Self)
        ensures
            r@ == self@,
    {
        proof {
            use_type_invariant(self);
        }
        MeetingRequest {
            negotiation_id: self.negotiation_id.clone(),
            participants: [self.participants[0].clone(), self.participants[1].clone()],
            horizon: self.horizon,
            duration_seconds: self.duration_seconds,
            projection: self.projection,
            opened_at_utc_ms: self.opened_at_utc_ms,
            expires_at_utc_ms: self.expires_at_utc_ms,
        }
    }
}

impl PartialEq for MeetingRequest {
    fn eq(&self, other: &Self) -> (r: bool) {
        self.negotiation_id == other.negotiation_id && self.participants[0]
            == other.participants[0] && self.participants[1] == other.participants[1]
            && self.horizon == other.horizon && self.duration_seconds == other.duration_seconds
            && self.projection == other.projection && self.opened_at_utc_ms
            == other.opened_at_utc_ms && self.expires_at_utc_ms == other.expires_at_utc_ms
    }
}

impl PartialEqSpecImpl for MeetingRequest {
    open spec fn obeys_eq_spec() -> bool {
        true
    }

    open spec fn eq_spec(&self, other: &Self) -> bool {
        self@ == other@
    }
}

impl MeetingRequest {
    /// Creates the request context; rejects identical participants, a zero
    /// duration and an expiry not later than the opening, in that order.
    pub fn new(
        negotiation_id: NegotiationId,
        coordinator: MemberId,
        invitee: MemberId,
        horizon: UtcInterval,
        duration_seconds: u32,
        projection: ProjectionProfile,
        opened_at_utc_ms: i64,
        expires_at_utc_ms: i64,
    ) -> (res: Result<Self, RendezvousError>)
        ensures
            view_result(res) == request_result(
                negotiation_id@,
                coordinator@,
                invitee@,
                horizon,
                duration_seconds,
                projection,
                opened_at_utc_ms,
                expires_at_utc_ms,
            ),
    {
        if coordinator == invitee {
            return Err(RendezvousError::SameParticipant);
        }
        if duration_seconds == 0 {
            return Err(RendezvousError::ZeroDuration);
        }
        if expires_at_utc_ms <= opened_at_utc_ms {
            return Err(RendezvousError::InvalidExpiry);
        }
        proof {
            use_type_invariant(&negotiation_id);
            use_type_invariant(&coordinator);
            use_type_invariant(&invitee);
            use_type_invariant(&horizon);
        }
        let r = MeetingRequest {
            negotiation_id,
            participants: [coordinator, invitee],
            horizon,
            duration_seconds,
            projection,
            opened_at_utc_ms,
            expires_at_utc_ms,
        };
        Ok(r)
    }

    /// Negotiation identifier.
    pub fn negotiation_id(&self) -> (r: &NegotiationId)
        ensures
            r@ == self@.negotiation_id,
            valid_request(self@),
    {
        proof {
            use_type_invariant(self);
        }
        &self.negotiation_id
    }

    /// Coordinator first, invitee second.
    pub fn participants(&self) -> (r: &[MemberId; 2])
        ensures
            r@.len() == 2,
            r@[0]@ == self@.coordinator,
            r@[1]@ == self@.invitee,
            valid_request(self@),
    {
        proof {
            use_type_invariant(self);
        }
        &self.participants
    }

    /// Requested duration.
    pub fn duration_seconds(&self) -> (r: u32)
        ensures
            r == self@.duration_seconds,
    {
        self.duration_seconds
    }

    /// Projection profile covered by an eventual owner decision.
    pub fn projection(&self) -> (r: ProjectionProfile)
        ensures
            r == self@.projection,
    {
        self.projection
    }

    /// Approved horizon inside which every candidate must lie.
    pub fn horizon(&self) -> (r: UtcInterval)
        ensures
            r == self@.horizon,
    {
        self.horizon
    }

    /// Opening time in Unix epoch milliseconds.
    pub fn opened_at_utc_ms(&self) -> (r: i64)
        ensures
            r == self@.opened_at,
    {
        self.opened_at_utc_ms
    }

    /// Expiry time in Unix epoch milliseconds (exclusive).
    pub fn expires_at_utc_ms(&self) -> (r: i64)
        ensures
            r == self@.expires_at,
    {
        self.expires_at_utc_ms
    }

    /// Slot of `member` among the participants.
    pub fn participant_index(&self, member: &MemberId) -> (r: Option<usize>)
        ensures
            match r {
                Some(k) => participant_slot(self@, member@) == Some(k as int),
                None => participant_slot(self@, member@) is None,
            },
    {
        if self.participants[0] == *member {
            Some(0)
        } else if self.participants[1] == *member {
            Some(1)
        } else {
            None
        }
    }

    /// Fails with `Expired` unless the request is active at `now`.
    pub fn ensure_active(&self, now_utc_ms: i64) -> (r: Result<(), RendezvousError>)
        ensures
            r is Ok <==> request_active(self@, now_utc_ms),
            r matches Err(e) ==> e@ == SpecRendezvousError::Expired,
    {
        if now_utc_ms < self.opened_at_utc_ms || now_utc_ms >= self.expires_at_utc_ms {
            return Err(RendezvousError::Expired);
        }
        Ok(())
    }
}


/// Model of an optional value whose payload has a view.
pub open spec fn view_option<T: View>(o: Option<T>) -> Option<T::V> {
    match o {
        Some(t) => Some(t@),
        None => None,
    }
}

// ---------------------------------------------------------------------------
// Candidate rounds
// ---------------------------------------------------------------------------

/// Model of a [`CandidateRound`].
#[verifier::ext_equal]
pub struct SpecRound {
    pub request: SpecRequest,
    pub round: u8,
    pub candidates: Seq<SpecCandidate>,
}

/// What is wrong with candidate `i` given the candidates before it, checked
/// in the order: repeated ID, wrong duration, outside the horizon, starting
/// at or before the opening, repeated exact interval.
pub open spec fn candidate_fault(request: SpecRequest, cs: Seq<SpecCandidate>, i: int) -> Option<
    SpecRendezvousError,
> {
    let c = cs[i];
    if exists|j: int| 0 <= j < i && (#[trigger] cs[j]).id == c.id {
        Some(SpecRendezvousError::DuplicateCandidateId(c.id))
    } else if c.interval.duration() != request.duration_seconds {
        Some(SpecRendezvousError::CandidateDurationMismatch(c.id))
    } else if !request.horizon.contains_spec(c.interval) {
        Some(SpecRendezvousError::CandidateOutsideHorizon(c.id))
    } else if c.interval.start() <= request.opened_at {
        Some(SpecRendezvousError::CandidateAlreadyStarted(c.id))
    } else if exists|j: int| 0 <= j < i && (#[trigger] cs[j]).interval == c.interval {
        Some(SpecRendezvousError::DuplicateCandidateInterval(c.id))
    } else {
        None
    }
}

/// Flags, per candidate, whether [`candidate_fault`] finds a problem.
pub open spec fn fault_flags(request: SpecRequest, cs: Seq<SpecCandidate>) -> Seq<bool> {
    Seq::new(cs.len(), |i: int| candidate_fault(request, cs, i) is Some)
}

/// Why a round with these candidates is refused: a count outside
/// `1..=MAX_CANDIDATES`, else the fault of the first faulty candidate.
pub open spec fn round_fault(request: SpecRequest, cs: Seq<SpecCandidate>) -> Option<
    SpecRendezvousError,
> {
    if cs.len() == 0 || cs.len() > 3 {
        Some(SpecRendezvousError::InvalidCandidateCount(cs.len()))
    } else {
        match first_true(fault_flags(request, cs)) {
            Some(i) => candidate_fault(request, cs, i),
            None => None,
        }
    }
}

/// The candidates of an accepted round: one to three of them, each with the
/// requested duration, inside the horizon and starting after the opening,
/// with pairwise distinct IDs and pairwise distinct intervals.
pub open spec fn valid_candidates(request: SpecRequest, cs: Seq<SpecCandidate>) -> bool {
    &&& 1 <= cs.len() <= 3
    &&& forall|i: int|
        0 <= i < cs.len() ==> {
            &&& (#[trigger] cs[i]).interval.duration() == request.duration_seconds
            &&& request.horizon.contains_spec(cs[i].interval)
            &&& cs[i].interval.start() > request.opened_at
        }
    &&& forall|i: int, j: int|
        0 <= i < j < cs.len() ==> (#[trigger] cs[i]).id != (#[trigger] cs[j]).id && cs[i].interval
            != cs[j].interval
}

/// A round as [`CandidateRound::new`] builds it: round one of a valid
/// request, with valid candidates.
pub open spec fn valid_round(r: SpecRound) -> bool {
    &&& r.round == 1
    &&& valid_request(r.request)
    &&& valid_candidates(r.request, r.candidates)
    &&& forall|i: int| 0 <= i < r.candidates.len() ==> valid_candidate(#[trigger] r.candidates[i])
}

/// A round is refused exactly when its candidates are not valid.
pub proof fn lemma_round_fault(request: SpecRequest, cs: Seq<SpecCandidate>)
    ensures
        round_fault(request, cs) is None <==> valid_candidates(request, cs),
{
    let flags = fault_flags(request, cs);
    lemma_first_true(flags);
    if 1 <= cs.len() <= 3 {
        if first_true(flags) is None {
            assert forall|i: int| 0 <= i < cs.len() implies candidate_fault(request, cs, i) is None by {
                assert(!flags[i]);
            }
            assert forall|i: int, j: int| 0 <= i < j < cs.len() implies (#[trigger] cs[i]).id
                != (#[trigger] cs[j]).id && cs[i].interval != cs[j].interval by {
                assert(candidate_fault(request, cs, j) is None);
            }
            assert forall|i: int| 0 <= i < cs.len() implies {
                &&& (#[trigger] cs[i]).interval.duration() == request.duration_seconds
                &&& request.horizon.contains_spec(cs[i].interval)
                &&& cs[i].interval.start() > request.opened_at
            } by {
                assert(candidate_fault(request, cs, i) is None);
            }
        } else {
            let i = first_true(flags).unwrap();
            assert(flags[i]);
            assert(candidate_fault(request, cs, i) is Some);
            if valid_candidates(request, cs) {
                assert forall|j: int| 0 <= j < i implies (#[trigger] cs[j]).id != cs[i].id
                    && cs[j].interval != cs[i].interval by {
                    assert(cs[j].id != cs[i].id);
                }
                assert(candidate_fault(request, cs, i) is None);
            }
        }
    }
}

/// Flags, per candidate, whether it starts at or before `now`.
pub open spec fn started_flags(cs: Seq<SpecCandidate>, now: i64) -> Seq<bool> {
    Seq::new(cs.len(), |i: int| cs[i].interval.start() <= now)
}

/// Why the round is not active at `now`: the request is not active, else the
/// first candidate that has already started.
pub open spec fn round_inactive(r: SpecRound, now: i64) -> Option<SpecRendezvousError> {
    if !request_active(r.request, now) {
        Some(SpecRendezvousError::Expired)
    } else {
        match first_true(started_flags(r.candidates, now)) {
            Some(i) => Some(SpecRendezvousError::CandidateAlreadyStarted(r.candidates[i].id)),
            None => None,
        }
    }
}

/// One bounded candidate round. The simulator supports round one only.
#[derive(Debug, Eq)]
pub struct CandidateRound {
    request: MeetingRequest,
    round: u8,
    candidates: Vec<Candidate>,
}

impl View for CandidateRound {
    type V = SpecRound;

    closed spec fn view(&self) -> SpecRound {
        SpecRound {
            request: self.request@,
            round: self.round,
            candidates: candidate_views(self.candidates@),
        }
    }
}

impl CandidateRound {
    #[verifier::type_invariant]
    pub(crate) open spec fn inv(self) -> bool {
        valid_round(self@)
    }
}

impl Clone for CandidateRound {
    fn clone(&self) -> (r: Self)
        ensures
            r@ == self@,
    {
        proof {
            use_type_invariant(self);
        }
        CandidateRound {
            request: self.request.clone(),
            round: self.round,
            candidates: clone_candidates(self.candidates.as_slice()),
        }
    }
}

impl PartialEq for CandidateRound {
    fn eq(&self, other: &Self) -> (r: bool) {
        self.request == other.request && self.round == other.round && candidates_equal(
            self.candidates.as_slice(),
            other.candidates.as_slice(),
        )
    }
}

impl PartialEqSpecImpl for CandidateRound {
    open spec fn obeys_eq_spec() -> bool {
        true
    }

    open spec fn eq_spec(&self, other: &Self) -> bool {
        self@ == other@
    }
}

/// Whether an earlier candidate has the same ID as candidate `i`.
fn id_seen_before(cs: &Vec<Candidate>, i: usize) -> (r: bool)
    requires
        i < cs@.len(),
    ensures
        r == exists|j: int| 0 <= j < i && (#[trigger] candidate_views(cs@)[j]).id == cs@[i as int]@.id,
{
    let ghost views = candidate_views(cs@);
    let mut j: usize = 0;
    while j < i
        invariant
            i < cs@.len(),
            j <= i,
            views == candidate_views(cs@),
            forall|k: int| 0 <= k < j ==> (#[trigger] views[k]).id != views[i as int].id,
        decreases i - j,
    {
        if cs[j].id == cs[i].id {
            assert(views[j as int].id == views[i as int].id);
            return true;
        }
        j = j + 1;
    }
    false
}

/// Whether an earlier candidate has the same interval as candidate `i`.
fn interval_seen_before(cs: &Vec<Candidate>, i: usize) -> (r: bool)
    requires
        i < cs@.len(),
    ensures
        r == exists|j: int| 0 <= j < i && (#[trigger] candidate_views(cs@)[j]).interval
            == cs@[i as int]@.interval,
{
    let ghost views = candidate_views(cs@);
    let mut j: usize = 0;
    while j < i
        invariant
            i < cs@.len(),
            j <= i,
            views == candidate_views(cs@),
            forall|k: int| 0 <= k < j ==> (#[trigger] views[k]).interval != views[i as int].interval,
        decreases i - j,
    {
        if cs[j].interval == cs[i].interval {
            assert(views[j as int].interval == views[i as int].interval);
            return true;
        }
        j = j + 1;
    }
    false
}

/// Decides [`candidate_fault`] for candidate `i`.
fn check_candidate(request: &MeetingRequest, cs: &Vec<Candidate>, i: usize) -> (r: Option<
    RendezvousError,
>)
    requires
        i < cs@.len(),
    ensures
        view_option(r) == candidate_fault(request@, candidate_views(cs@), i as int),
{
    let c = &cs[i];
    if id_seen_before(cs, i) {
        return Some(RendezvousError::DuplicateCandidateId(c.id.to_string()));
    }
    if c.interval.duration_seconds() != request.duration_seconds {
        return Some(RendezvousError::CandidateDurationMismatch(c.id.to_string()));
    }
    if !request.horizon.contains(c.interval) {
        return Some(RendezvousError::CandidateOutsideHorizon(c.id.to_string()));
    }
    if c.interval.start_utc_ms() <= request.opened_at_utc_ms {
        return Some(RendezvousError::CandidateAlreadyStarted(c.id.to_string()));
    }
    if interval_seen_before(cs, i) {
        return Some(RendezvousError::DuplicateCandidateInterval(c.id.to_string()));
    }
    None
}

impl CandidateRound {
    /// Validates and opens the single round. Refuses a count outside
    /// `1..=MAX_CANDIDATES`, then the first candidate with a fault.
    pub fn new(request: MeetingRequest, candidates: Vec<Candidate>) -> (res: Result<
        Self,
        RendezvousError,
    >)
        ensures
            match round_fault(request@, candidate_views(candidates@)) {
                Some(e) => res matches Err(x) && x@ == e,
                None => res matches Ok(r) && r@ == (SpecRound {
                    request: request@,
                    round: 1,
                    candidates: candidate_views(candidates@),
                }),
            },
            res matches Ok(r) ==> valid_round(r@),
    {
        let n = candidates.len();
        if n == 0 || n > MAX_CANDIDATES {
            return Err(RendezvousError::InvalidCandidateCount(n));
        }
        let ghost cs = candidate_views(candidates@);
        let ghost flags = fault_flags(request@, cs);
        proof {
            lemma_first_true(flags);
        }
        let mut i: usize = 0;
        while i < n
            invariant
                n == candidates@.len(),
                1 <= n <= 3,
                i <= n,
                cs == candidate_views(candidates@),
                flags == fault_flags(request@, cs),
                forall|k: int| 0 <= k < i ==> !flags[k],
                forall|k: int| 0 <= k < i ==> valid_candidate(#[trigger] cs[k]),
                match first_true(flags) {
                    Some(f) => 0 <= f < flags.len() && flags[f] && forall|j: int|
                        0 <= j < f ==> !flags[j],
                    None => forall|j: int| 0 <= j < flags.len() ==> !flags[j],
                },
            decreases n - i,
        {
            let c = &candidates[i];
            proof {
                use_type_invariant(c);
            }
            match check_candidate(&request, &candidates, i) {
                Some(e) => {
                    assert(flags[i as int]);
                    assert(first_true(flags) == Some(i as int));
                    return Err(e);
                },
                None => {},
            }
            assert(!flags[i as int]);
            i = i + 1;
        }
        assert(first_true(flags) is None);
        proof {
            lemma_round_fault(request@, cs);
            use_type_invariant(&request);
        }
        Ok(CandidateRound { request, round: 1, candidates })
    }

    /// Approved request context.
    pub fn request(&self) -> (r: &MeetingRequest)
        ensures
            r@ == self@.request,
            valid_round(self@),
    {
        proof {
            use_type_invariant(self);
        }
        &self.request
    }

    /// Round number. It is always one in this profile.
    pub fn round(&self) -> (r: u8)
        ensures
            r == self@.round,
            r == 1,
    {
        proof {
            use_type_invariant(self);
        }
        self.round
    }

    /// Exact disclosed candidates in deterministic selection order.
    pub fn candidates(&self) -> (r: &[Candidate])
        ensures
            candidate_views(r@) == self@.candidates,
            valid_round(self@),
    {
        proof {
            use_type_invariant(self);
        }
        self.candidates.as_slice()
    }

    /// Fails unless the request is active at `now` and no candidate has started.
    pub fn ensure_active(&self, now_utc_ms: i64) -> (r: Result<(), RendezvousError>)
        ensures
            match round_inactive(self@, now_utc_ms) {
                Some(e) => r matches Err(x) && x@ == e,
                None => r is Ok,
            },
    {
        match self.request.ensure_active(now_utc_ms) {
            Err(e) => {
                return Err(e);
            },
            Ok(()) => {},
        }
        let ghost cs = self@.candidates;
        let ghost started = started_flags(cs, now_utc_ms);
        proof {
            lemma_first_true(started);
        }
        let n = self.candidates.len();
        let mut i: usize = 0;
        while i < n
            invariant
                n == self.candidates@.len(),
                i <= n,
                cs == self@.candidates,
                started == started_flags(cs, now_utc_ms),
                request_active(self@.request, now_utc_ms),
                forall|k: int| 0 <= k < i ==> !started[k],
                match first_true(started) {
                    Some(f) => 0 <= f < started.len() && started[f] && forall|j: int|
                        0 <= j < f ==> !started[j],
                    None => forall|j: int| 0 <= j < started.len() ==> !started[j],
                },
            decreases n - i,
        {
            if self.candidates[i].interval.start_utc_ms() <= now_utc_ms {
                assert(started[i as int]);
                assert(first_true(started) == Some(i as int));
                assert(cs[i as int] == self.candidates@[i as int]@);
                return Err(RendezvousError::CandidateAlreadyStarted(self.candidates[i].id.to_string()));
            }
            assert(!started[i as int]);
            i = i + 1;
        }
        assert(first_true(started) is None);
        Ok(())
    }
}


// ---------------------------------------------------------------------------
// Eligibility
// ---------------------------------------------------------------------------

/// Model of an [`Eligibility`] bit.
#[verifier::ext_equal]
pub struct SpecEligibility {
    pub candidate_id: Seq<char>,
    pub available: bool,
}

/// One candidate-specific eligibility bit. It carries no reason or calendar data.
#[derive(Debug, Eq)]
pub struct Eligibility {
    candidate_id: CandidateId,
    available: bool,
}

impl View for Eligibility {
    type V = SpecEligibility;

    closed spec fn view(&self) -> SpecEligibility {
        SpecEligibility { candidate_id: self.candidate_id@, available: self.available }
    }
}

/// Models of a sequence of eligibility bits.
pub open spec fn eligibility_views(v: Seq<Eligibility>) -> Seq<SpecEligibility> {
    v.map_values(|e: Eligibility| e@)
}

/// Candidate identifiers of a sequence of eligibility bits, in order.
pub open spec fn eligibility_ids(vs: Seq<SpecEligibility>) -> Seq<Seq<char>> {
    vs.map_values(|e: SpecEligibility| e.candidate_id)
}

impl Clone for Eligibility {
    fn clone(&self) -> (r: Self)
        ensures
            r@ == self@,
    {
        Eligibility { candidate_id: self.candidate_id.clone(), available: self.available }
    }
}

impl PartialEq for Eligibility {
    fn eq(&self, other: &Self) -> (r: bool) {
        self.candidate_id == other.candidate_id && self.available == other.available
    }
}

impl PartialEqSpecImpl for Eligibility {
    open spec fn obeys_eq_spec() -> bool {
        true
    }

    open spec fn eq_spec(&self, other: &Self) -> bool {
        self@ == other@
    }
}

impl Eligibility {
    /// Candidate to which this bit applies.
    pub fn candidate_id(&self) -> (r: &CandidateId)
        ensures
            r@ == self@.candidate_id,
    {
        &self.candidate_id
    }

    /// Whether the exact candidate is locally eligible.
    pub fn is_available(&self) -> (r: bool)
        ensures
            r == self@.available,
    {
        self.available
    }
}

/// Copies a sequence of eligibility bits.
pub fn clone_eligibilities(v: &[Eligibility]) -> (r: Vec<Eligibility>)
    ensures
        eligibility_views(r@) == eligibility_views(v@),
{
    let mut out: Vec<Eligibility> = Vec::new();
    let n = v.len();
    let mut i: usize = 0;
    while i < n
        invariant
            n == v@.len(),
            i <= n,
            out@.len() == i,
            forall|j: int| 0 <= j < i ==> (#[trigger] out@[j])@ == v@[j]@,
        decreases n - i,
    {
        out.push(v[i].clone());
        i = i + 1;
    }
    assert(eligibility_views(out@) =~= eligibility_views(v@));
    out
}

/// Compares two sequences of eligibility bits by their models.
pub fn eligibilities_equal(a: &[Eligibility], b: &[Eligibility]) -> (r: bool)
    ensures
        r == (eligibility_views(a@) == eligibility_views(b@)),
{
    let n = a.len();
    if n != b.len() {
        assert(eligibility_views(a@).len() != eligibility_views(b@).len());
        return false;
    }
    let mut i: usize = 0;
    while i < n
        invariant
            n == a@.len(),
            n == b@.len(),
            i <= n,
            forall|j: int| 0 <= j < i ==> (#[trigger] a@[j])@ == b@[j]@,
        decreases n - i,
    {
        if a[i] != b[i] {
            assert(eligibility_views(a@)[i as int] != eligibility_views(b@)[i as int]);
            return false;
        }
        i = i + 1;
    }
    assert(eligibility_views(a@) =~= eligibility_views(b@));
    true
}

/// Whether the bits name exactly the candidates' IDs, in the same order.
pub fn same_order_eligibility(candidates: &[Candidate], values: &[Eligibility]) -> (r: bool)
    ensures
        r == (candidate_ids(candidate_views(candidates@)) == eligibility_ids(
            eligibility_views(values@),
        )),
{
    let ghost a = candidate_ids(candidate_views(candidates@));
    let ghost b = eligibility_ids(eligibility_views(values@));
    let n = candidates.len();
    if n != values.len() {
        assert(a.len() != b.len());
        return false;
    }
    let mut i: usize = 0;
    while i < n
        invariant
            n == candidates@.len(),
            n == values@.len(),
            i <= n,
            a == candidate_ids(candidate_views(candidates@)),
            b == eligibility_ids(eligibility_views(values@)),
            forall|j: int| 0 <= j < i ==> a[j] == b[j],
        decreases n - i,
    {
        if candidates[i].id != values[i].candidate_id {
            assert(a[i as int] != b[i as int]);
            return false;
        }
        i = i + 1;
    }
    assert(a =~= b);
    true
}

/// Model of an [`EligibilityResponse`].
#[verifier::ext_equal]
pub struct SpecEligibilityResponse {
    pub scope: SpecRound,
    pub member_id: Seq<char>,
    pub values: Seq<SpecEligibility>,
}

/// Candidate-specific output produced by one agent's private local evaluation.
#[derive(Debug, Eq)]
pub struct EligibilityResponse {
    scope: CandidateRound,
    member_id: MemberId,
    values: Vec<Eligibility>,
}

impl View for EligibilityResponse {
    type V = SpecEligibilityResponse;

    closed spec fn view(&self) -> SpecEligibilityResponse {
        SpecEligibilityResponse {
            scope: self.scope@,
            member_id: self.member_id@,
            values: eligibility_views(self.values@),
        }
    }
}

impl Clone for EligibilityResponse {
    fn clone(&self) -> (r: Self)
        ensures
            r@ == self@,
    {
        EligibilityResponse {
            scope: self.scope.clone(),
            member_id: self.member_id.clone(),
            values: clone_eligibilities(self.values.as_slice()),
        }
    }
}

impl PartialEq for EligibilityResponse {
    fn eq(&self, other: &Self) -> (r: bool) {
        self.scope == other.scope && self.member_id == other.member_id && eligibilities_equal(
            self.values.as_slice(),
            other.values.as_slice(),
        )
    }
}

impl PartialEqSpecImpl for EligibilityResponse {
    open spec fn obeys_eq_spec() -> bool {
        true
    }

    open spec fn eq_spec(&self, other: &Self) -> bool {
        self@ == other@
    }
}

impl EligibilityResponse {
    /// Responding member.
    pub fn member_id(&self) -> (r: &MemberId)
        ensures
            r@ == self@.member_id,
    {
        &self.member_id
    }

    /// Fixed-order candidate bits with no explanations.
    pub fn values(&self) -> (r: &[Eligibility])
        ensures
            eligibility_views(r@) == self@.values,
    {
        self.values.as_slice()
    }

    /// The exact round the bits were produced for.
    pub fn scope(&self) -> (r: &CandidateRound)
        ensures
            r@ == self@.scope,
    {
        &self.scope
    }
}

// ---------------------------------------------------------------------------
// Mutual options
// ---------------------------------------------------------------------------

/// Model of [`MutualOptions`].
#[verifier::ext_equal]
pub struct SpecMutualOptions {
    pub scope: SpecRound,
    pub candidates: Seq<SpecCandidate>,
}

/// The candidates that both local agents found eligible.
#[derive(Debug, Eq)]
pub struct MutualOptions {
    scope: CandidateRound,
    candidates: Vec<Candidate>,
}

impl View for MutualOptions {
    type V = SpecMutualOptions;

    closed spec fn view(&self) -> SpecMutualOptions {
        SpecMutualOptions { scope: self.scope@, candidates: candidate_views(self.candidates@) }
    }
}

impl Clone for MutualOptions {
    fn clone(&self) -> (r: Self)
        ensures
            r@ == self@,
    {
        MutualOptions {
            scope: self.scope.clone(),
            candidates: clone_candidates(self.candidates.as_slice()),
        }
    }
}

impl PartialEq for MutualOptions {
    fn eq(&self, other: &Self) -> (r: bool) {
        self.scope == other.scope && candidates_equal(
            self.candidates.as_slice(),
            other.candidates.as_slice(),
        )
    }
}

impl PartialEqSpecImpl for MutualOptions {
    open spec fn obeys_eq_spec() -> bool {
        true
    }

    open spec fn eq_spec(&self, other: &Self) -> bool {
        self@ == other@
    }
}

impl MutualOptions {
    /// Bundles a round with the candidates found mutually eligible in it.
    pub(crate) fn from_parts(scope: CandidateRound, candidates: Vec<Candidate>) -> (r: Self)
        ensures
            r@ == (SpecMutualOptions { scope: scope@, candidates: candidate_views(candidates@) }),
    {
        MutualOptions { scope, candidates }
    }

    /// Negotiation-scoped mutually eligible candidates.
    pub fn candidates(&self) -> (r: &[Candidate])
        ensures
            candidate_views(r@) == self@.candidates,
    {
        self.candidates.as_slice()
    }

    /// The exact round the options were derived from.
    pub fn scope(&self) -> (r: &CandidateRound)
        ensures
            r@ == self@.scope,
    {
        &self.scope
    }
}

// ---------------------------------------------------------------------------
// Owner decisions
// ---------------------------------------------------------------------------

/// Model of an [`OwnerDecision`].
#[verifier::ext_equal]
pub struct SpecDecision {
    pub candidate_id: Seq<char>,
    pub accepted: bool,
}

/// An exact yes/no decision for a candidate already disclosed as mutual.
#[derive(Debug, Eq)]
pub struct OwnerDecision {
    candidate_id: CandidateId,
    accepted: bool,
}

impl View for OwnerDecision {
    type V = SpecDecision;

    closed spec fn view(&self) -> SpecDecision {
        SpecDecision { candidate_id: self.candidate_id@, accepted: self.accepted }
    }
}

/// Models of a sequence of decisions.
pub open spec fn decision_views(v: Seq<OwnerDecision>) -> Seq<SpecDecision> {
    v.map_values(|d: OwnerDecision| d@)
}

/// Candidate identifiers of a sequence of decisions, in order.
pub open spec fn decision_ids(ds: Seq<SpecDecision>) -> Seq<Seq<char>> {
    ds.map_values(|d: SpecDecision| d.candidate_id)
}

impl Clone for OwnerDecision {
    fn clone(&self) -> (r: Self)
        ensures
            r@ == self@,
    {
        OwnerDecision { candidate_id: self.candidate_id.clone(), accepted: self.accepted }
    }
}

impl PartialEq for OwnerDecision {
    fn eq(&self, other: &Self) -> (r: bool) {
        self.candidate_id == other.candidate_id && self.accepted == other.accepted
    }
}

impl PartialEqSpecImpl for OwnerDecision {
    open spec fn obeys_eq_spec() -> bool {
        true
    }

    open spec fn eq_spec(&self, other: &Self) -> bool {
        self@ == other@
    }
}

impl OwnerDecision {
    /// Creates one explicit owner decision.
    pub fn new(candidate_id: CandidateId, accepted: bool) -> (d: Self)
        ensures
            d@ == (SpecDecision { candidate_id: candidate_id@, accepted }),
    {
        OwnerDecision { candidate_id, accepted }
    }

    /// Candidate to which this decision applies.
    pub fn candidate_id(&self) -> (r: &CandidateId)
        ensures
            r@ == self@.candidate_id,
    {
        &self.candidate_id
    }

    /// The owner's explicit decision.
    pub fn is_accepted(&self) -> (r: bool)
        ensures
            r == self@.accepted,
    {
        self.accepted
    }
}

/// Copies a sequence of decisions.
pub fn clone_decisions(v: &[OwnerDecision]) -> (r: Vec<OwnerDecision>)
    ensures
        decision_views(r@) == decision_views(v@),
{
    let mut out: Vec<OwnerDecision> = Vec::new();
    let n = v.len();
    let mut i: usize = 0;
    while i < n
        invariant
            n == v@.len(),
            i <= n,
            out@.len() == i,
            forall|j: int| 0 <= j < i ==> (#[trigger] out@[j])@ == v@[j]@,
        decreases n - i,
    {
        out.push(v[i].clone());
        i = i + 1;
    }
    assert(decision_views(out@) =~= decision_views(v@));
    out
}

/// Compares two sequences of decisions by their models.
pub fn decisions_equal(a: &[OwnerDecision], b: &[OwnerDecision]) -> (r: bool)
    ensures
        r == (decision_views(a@) == decision_views(b@)),
{
    let n = a.len();
    if n != b.len() {
        assert(decision_views(a@).len() != decision_views(b@).len());
        return false;
    }
    let mut i: usize = 0;
    while i < n
        invariant
            n == a@.len(),
            n == b@.len(),
            i <= n,
            forall|j: int| 0 <= j < i ==> (#[trigger] a@[j])@ == b@[j]@,
        decreases n - i,
    {
        if a[i] != b[i] {
            assert(decision_views(a@)[i as int] != decision_views(b@)[i as int]);
            return false;
        }
        i = i + 1;
    }
    assert(decision_views(a@) =~= decision_views(b@));
    true
}

/// Whether the decisions name exactly the candidates' IDs, in the same order.
pub fn same_order_decisions(candidates: &[Candidate], values: &[OwnerDecision]) -> (r: bool)
    ensures
        r == (candidate_ids(candidate_views(candidates@)) == decision_ids(
            decision_views(values@),
        )),
{
    let ghost a = candidate_ids(candidate_views(candidates@));
    let ghost b = decision_ids(decision_views(values@));
    let n = candidates.len();
    if n != values.len() {
        assert(a.len() != b.len());
        return false;
    }
    let mut i: usize = 0;
    while i < n
        invariant
            n == candidates@.len(),
            n == values@.len(),
            i <= n,
            a == candidate_ids(candidate_views(candidates@)),
            b == decision_ids(decision_views(values@)),
            forall|j: int| 0 <= j < i ==> a[j] == b[j],
        decreases n - i,
    {
        if candidates[i].id != values[i].candidate_id {
            assert(a[i as int] != b[i as int]);
            return false;
        }
        i = i + 1;
    }
    assert(a =~= b);
    true
}

/// Model of a [`DecisionResponse`].
#[verifier::ext_equal]
pub struct SpecDecisionResponse {
    pub scope: SpecMutualOptions,
    pub member_id: Seq<char>,
    pub values: Seq<SpecDecision>,
}

/// One owner's decisions, bound structurally to the exact mutual-options scope.
#[derive(Debug, Eq)]
pub struct DecisionResponse {
    scope: MutualOptions,
    member_id: MemberId,
    values: Vec<OwnerDecision>,
}

impl View for DecisionResponse {
    type V = SpecDecisionResponse;

    closed spec fn view(&self) -> SpecDecisionResponse {
        SpecDecisionResponse {
            scope: self.scope@,
            member_id: self.member_id@,
            values: decision_views(self.values@),
        }
    }
}

impl Clone for DecisionResponse {
    fn clone(&self) -> (r: Self)
        ensures
            r@ == self@,
    {
        DecisionResponse {
            scope: self.scope.clone(),
            member_id: self.member_id.clone(),
            values: clone_decisions(self.values.as_slice()),
        }
    }
}

impl PartialEq for DecisionResponse {
    fn eq(&self, other: &Self) -> (r: bool) {
        self.scope == other.scope && self.member_id == other.member_id && decisions_equal(
            self.values.as_slice(),
            other.values.as_slice(),
        )
    }
}

impl PartialEqSpecImpl for DecisionResponse {
    open spec fn obeys_eq_spec() -> bool {
        true
    }

    open spec fn eq_spec(&self, other: &Self) -> bool {
        self@ == other@
    }
}

impl DecisionResponse {
    /// Responding member.
    pub fn member_id(&self) -> (r: &MemberId)
        ensures
            r@ == self@.member_id,
    {
        &self.member_id
    }

    /// Fixed-order yes/no decisions.
    pub fn values(&self) -> (r: &[OwnerDecision])
        ensures
            decision_views(r@) == self@.values,
    {
        self.values.as_slice()
    }

    /// The exact mutual options the decisions answer.
    pub fn scope(&self) -> (r: &MutualOptions)
        ensures
            r@ == self@.scope,
    {
        &self.scope
    }
}

// ---------------------------------------------------------------------------
// Scheduling agent
// ---------------------------------------------------------------------------

/// Model of a [`SchedulingAgent`].
#[verifier::ext_equal]
pub struct SpecAgent {
    pub member_id: Seq<char>,
    pub busy: Seq<UtcInterval>,
}

/// The bits an agent with these busy intervals discloses for these candidates.
pub open spec fn eligibility_values(cs: Seq<SpecCandidate>, busy: Seq<UtcInterval>) -> Seq<
    SpecEligibility,
> {
    cs.map_values(
        |c: SpecCandidate| SpecEligibility { candidate_id: c.id, available: free_of(busy, c.interval) },
    )
}

/// Outcome of [`SchedulingAgent::evaluate`]: the round must be active and the
/// agent one of its participants; the response then carries one bit per
/// disclosed candidate, in proposal order.
pub open spec fn evaluation(agent: SpecAgent, round: SpecRound, now: i64) -> Result<
    SpecEligibilityResponse,
    SpecRendezvousError,
> {
    match round_inactive(round, now) {
        Some(e) => Err(e),
        None => if participant_slot(round.request, agent.member_id) is None {
            Err(SpecRendezvousError::UnknownParticipant(agent.member_id))
        } else {
            Ok(
                SpecEligibilityResponse {
                    scope: round,
                    member_id: agent.member_id,
                    values: eligibility_values(round.candidates, agent.busy),
                },
            )
        },
    }
}

/// Outcome of [`SchedulingAgent::record_owner_decisions`]: the options' round
/// must be active, the agent one of its participants, and the decisions must
/// name exactly the mutual candidates in order.
pub open spec fn decision_recording(
    agent: SpecAgent,
    options: SpecMutualOptions,
    decisions: Seq<SpecDecision>,
    now: i64,
) -> Result<SpecDecisionResponse, SpecRendezvousError> {
    match round_inactive(options.scope, now) {
        Some(e) => Err(e),
        None => if participant_slot(options.scope.request, agent.member_id) is None {
            Err(SpecRendezvousError::UnknownParticipant(agent.member_id))
        } else if candidate_ids(options.candidates) != decision_ids(decisions) {
            Err(SpecRendezvousError::CandidateVectorMismatch)
        } else {
            Ok(
                SpecDecisionResponse {
                    scope: options,
                    member_id: agent.member_id,
                    values: decisions,
                },
            )
        },
    }
}

/// One local scheduler endpoint with an intentionally opaque private calendar.
pub struct SchedulingAgent {
    member_id: MemberId,
    calendar: LocalCalendar,
}

impl View for SchedulingAgent {
    type V = SpecAgent;

    closed spec fn view(&self) -> SpecAgent {
        SpecAgent { member_id: self.member_id@, busy: self.calendar@ }
    }
}

impl Clone for SchedulingAgent {
    fn clone(&self) -> (a: Self)
        ensures
            a@ == self@,
    {
        SchedulingAgent { member_id: self.member_id.clone(), calendar: self.calendar.clone() }
    }
}

impl SchedulingAgent {
    /// Creates an agent for one required participant.
    pub fn new(member_id: MemberId, calendar: LocalCalendar) -> (a: Self)
        ensures
            a@ == (SpecAgent { member_id: member_id@, busy: calendar@ }),
    {
        SchedulingAgent { member_id, calendar }
    }

    /// Evaluates only the exact disclosed candidates against local state.
    pub fn evaluate(&self, round: &CandidateRound, now_utc_ms: i64) -> (res: Result<
        EligibilityResponse,
        RendezvousError,
    >)
        ensures
            view_result(res) == evaluation(self@, round@, now_utc_ms),
    {
        match round.ensure_active(now_utc_ms) {
            Err(e) => {
                return Err(e);
            },
            Ok(()) => {},
        }
        if round.request.participant_index(&self.member_id).is_none() {
            return Err(RendezvousError::UnknownParticipant(self.member_id.to_string()));
        }
        let ghost expected = eligibility_values(round@.candidates, self.calendar@);
        let mut values: Vec<Eligibility> = Vec::new();
        let n = round.candidates.len();
        let mut i: usize = 0;
        while i < n
            invariant
                n == round.candidates@.len(),
                i <= n,
                expected == eligibility_values(round@.candidates, self.calendar@),
                round@.candidates == candidate_views(round.candidates@),
                values@.len() == i,
                forall|j: int| 0 <= j < i ==> (#[trigger] values@[j])@ == expected[j],
            decreases n - i,
        {
            let c = &round.candidates[i];
            let bit = Eligibility {
                candidate_id: c.id.clone(),
                available: self.calendar.is_available(c.interval),
            };
            values.push(bit);
            i = i + 1;
        }
        assert(eligibility_views(values@) =~= expected);
        Ok(
            EligibilityResponse {
                scope: round.clone(),
                member_id: self.member_id.clone(),
                values,
            },
        )
    }

    /// Records explicit owner choices; it does not infer or manufacture consent.
    pub fn record_owner_decisions(
        &self,
        options: &MutualOptions,
        decisions: &[OwnerDecision],
        now_utc_ms: i64,
    ) -> (res: Result<DecisionResponse, RendezvousError>)
        ensures
            view_result(res) == decision_recording(
                self@,
                options@,
                decision_views(decisions@),
                now_utc_ms,
            ),
    {
        match options.scope.ensure_active(now_utc_ms) {
            Err(e) => {
                return Err(e);
            },
            Ok(()) => {},
        }
        if options.scope.request.participant_index(&self.member_id).is_none() {
            return Err(RendezvousError::UnknownParticipant(self.member_id.to_string()));
        }
        if !same_order_decisions(options.candidates.as_slice(), decisions) {
            return Err(RendezvousError::CandidateVectorMismatch);
        }
        Ok(
            DecisionResponse {
                scope: options.clone(),
                member_id: self.member_id.clone(),
                values: clone_decisions(decisions),
            },
        )
    }
}

// ---------------------------------------------------------------------------
// Meeting agreement
// ---------------------------------------------------------------------------

/// Model of a [`MeetingAgreement`].
#[verifier::ext_equal]
pub struct SpecAgreement {
    pub round: SpecRound,
    pub selected: SpecCandidate,
    pub key: Seq<char>,
}

/// Exact result shared by both simulated agents.
#[derive(Debug, Eq)]
pub struct MeetingAgreement {
    round: CandidateRound,
    selected_candidate: Candidate,
    agreement_key: String,
}

impl View for MeetingAgreement {
    type V = SpecAgreement;

    closed spec fn view(&self) -> SpecAgreement {
        SpecAgreement {
            round: self.round@,
            selected: self.selected_candidate@,
            key: self.agreement_key@,
        }
    }
}

impl Clone for MeetingAgreement {
    fn clone(&self) -> (r: Self)
        ensures
            r@ == self@,
    {
        MeetingAgreement {
            round: self.round.clone(),
            selected_candidate: self.selected_candidate.clone(),
            agreement_key: self.agreement_key.clone(),
        }
    }
}

impl PartialEq for MeetingAgreement {
    fn eq(&self, other: &Self) -> (r: bool) {
        self.round == other.round && self.selected_candidate == other.selected_candidate
            && self.agreement_key == other.agreement_key
    }
}

impl PartialEqSpecImpl for MeetingAgreement {
    open spec fn obeys_eq_spec() -> bool {
        true
    }

    open spec fn eq_spec(&self, other: &Self) -> bool {
        self@ == other@
    }
}

impl MeetingAgreement {
    /// Bundles the round, the selected candidate and the comparison key.
    pub(crate) fn from_parts(round: CandidateRound, selected: Candidate, key: String) -> (r: Self)
        ensures
            r@ == (SpecAgreement { round: round@, selected: selected@, key: key@ }),
    {
        MeetingAgreement { round, selected_candidate: selected, agreement_key: key }
    }

    /// Approved request context.
    pub fn request(&self) -> (r: &MeetingRequest)
        ensures
            r@ == self@.round.request,
    {
        &self.round.request
    }

    /// Full candidate round, in deterministic proposal order.
    pub fn candidate_round(&self) -> (r: &CandidateRound)
        ensures
            r@ == self@.round,
    {
        &self.round
    }

    /// First unanimously accepted candidate in proposal order.
    pub fn selected_candidate(&self) -> (r: &Candidate)
        ensures
            r@ == self@.selected,
    {
        &self.selected_candidate
    }

    /// Stable length-prefixed key used to compare two local records.
    ///
    /// This is not a cryptographic digest or signature.
    pub fn agreement_key(&self) -> (r: &str)
        ensures
            r@ == self@.key,
    {
        self.agreement_key.as_str()
    }
}

} // verus!
