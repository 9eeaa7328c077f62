//! Minimal, model-free calendar primitives.
//!
//! Busy intervals stay inside a [`LocalCalendar`]; only candidate-specific
//! Boolean answers leave a scheduling agent.

use vstd::prelude::*;

verus! {

/// Milliseconds in one second.
pub const MILLIS_PER_SECOND: i64 = 1000;

/// A checked, half-open UTC interval `[start, end)`.
///
/// Every value has a non-zero duration and an end that fits in `i64`
/// milliseconds.
#[derive(Clone, Copy, Debug, PartialEq, Eq, Structural)]
pub struct UtcInterval {
    start_utc_ms: i64,
    duration_seconds: u32,
}

impl UtcInterval {
    /// Inclusive start in Unix epoch milliseconds.
    pub closed spec fn start(self) -> i64 {
        self.start_utc_ms
    }

    /// Duration in seconds.
    pub closed spec fn duration(self) -> u32 {
        self.duration_seconds
    }

    /// Exclusive end in Unix epoch milliseconds, as a mathematical integer.
    pub open spec fn end(self) -> int {
        self.start() + self.duration() * 1000
    }

    /// The interval occupies some time and its end is representable.
    pub open spec fn well_formed(self) -> bool {
        &&& self.duration() > 0
        &&& self.end() <= i64::MAX
    }

    #[verifier::type_invariant]
    pub(crate) open spec fn inv(self) -> bool {
        self.well_formed()
    }

    /// Half-open overlap of two intervals.
    pub open spec fn overlaps_spec(self, other: Self) -> bool {
        self.start() < other.end() && other.start() < self.end()
    }

    /// Instant `t` (in milliseconds) lies in the half-open interval.
    pub open spec fn holds_instant(self, t: int) -> bool {
        self.start() <= t < self.end()
    }

    /// Some representable instant lies in both intervals.
    pub open spec fn shares_instant(self, other: Self) -> bool {
        exists|t: i64| #[trigger] self.holds_instant(t as int) && #[trigger] other.holds_instant(t as int)
    }

    /// `other` lies wholly inside `self`.
    pub open spec fn contains_spec(self, other: Self) -> bool {
        self.start() <= other.start() && other.end() <= self.end()
    }

    /// Two intervals with the same start and duration are the same interval.
    pub proof fn lemma_same_fields(a: Self, b: Self)
        requires
            a.start() == b.start(),
            a.duration() == b.duration(),
        ensures
            a == b,
    {
    }

    /// Constructs an interval; rejects a zero duration, then an end that
    /// overflows `i64` milliseconds.
    pub fn new(start_utc_ms: i64, duration_seconds: u32) -> (res: Result<Self, CalendarError>)
        ensures
            duration_seconds == 0 ==> res == Err::<Self, CalendarError>(CalendarError::ZeroDuration),
            duration_seconds > 0 && start_utc_ms + duration_seconds * 1000 > i64::MAX ==> res
                == Err::<Self, CalendarError>(CalendarError::IntervalOverflow),
            duration_seconds > 0 && start_utc_ms + duration_seconds * 1000 <= i64::MAX ==> (
            res matches Ok(interval) && interval.start() == start_utc_ms && interval.duration()
                == duration_seconds),
            res matches Ok(interval) ==> interval.well_formed(),
    {
        if duration_seconds == 0 {
            return Err(CalendarError::ZeroDuration);
        }
        let duration_ms: i64 = (duration_seconds as i64) * MILLIS_PER_SECOND;
        if start_utc_ms > i64::MAX - duration_ms {
            return Err(CalendarError::IntervalOverflow);
        }
        Ok(UtcInterval { start_utc_ms, duration_seconds })
    }

    /// Inclusive UTC start in Unix epoch milliseconds.
    pub fn start_utc_ms(self) -> (r: i64)
        ensures
            r == self.start(),
            self.well_formed(),
    {
        proof {
            use_type_invariant(&self);
        }
        self.start_utc_ms
    }

    /// Duration in seconds.
    pub fn duration_seconds(self) -> (r: u32)
        ensures
            r == self.duration(),
            r > 0,
            self.well_formed(),
    {
        proof {
            use_type_invariant(&self);
        }
        self.duration_seconds
    }

    /// Exclusive UTC end in Unix epoch milliseconds.
    pub fn end_utc_ms(self) -> (r: i64)
        ensures
            r == self.end(),
            r > self.start(),
            self.well_formed(),
    {
        proof {
            use_type_invariant(&self);
        }
        self.start_utc_ms + (self.duration_seconds as i64) * MILLIS_PER_SECOND
    }

    /// Returns true when the two half-open intervals overlap.
    pub fn overlaps(self, other: Self) -> (r: bool)
        ensures
            r == self.overlaps_spec(other),
            r == other.overlaps_spec(self),
            r == self.shares_instant(other),
            self.overlaps_spec(self),
            self.well_formed(),
            other.well_formed(),
    {
        proof {
            use_type_invariant(&self);
            use_type_invariant(&other);
            lemma_overlap_is_shared_instant(self, other);
        }
        self.start_utc_ms < other.end_utc_ms() && other.start_utc_ms < self.end_utc_ms()
    }

    /// Returns true when `other` is wholly inside this interval.
    pub fn contains(self, other: Self) -> (r: bool)
        ensures
            r == self.contains_spec(other),
            self.contains_spec(self),
            r ==> self.overlaps_spec(other),
            self.well_formed(),
            other.well_formed(),
    {
        proof {
            use_type_invariant(&self);
            use_type_invariant(&other);
        }
        self.start_utc_ms <= other.start_utc_ms && other.end_utc_ms() <= self.end_utc_ms()
    }
}

/// Overlap is symmetric.
pub proof fn lemma_overlaps_symmetric(a: UtcInterval, b: UtcInterval)
    ensures
        a.overlaps_spec(b) == b.overlaps_spec(a),
{
}

/// Every interval overlaps itself, since it occupies some time.
pub proof fn lemma_overlaps_reflexive(a: UtcInterval)
    requires
        a.well_formed(),
    ensures
        a.overlaps_spec(a),
{
}

/// Two well-formed intervals overlap exactly when some representable
/// instant lies in both.
pub proof fn lemma_overlap_is_shared_instant(a: UtcInterval, b: UtcInterval)
    requires
        a.well_formed(),
        b.well_formed(),
    ensures
        a.overlaps_spec(b) == a.shares_instant(b),
{
    if a.overlaps_spec(b) {
        let t: i64 = if a.start() <= b.start() {
            b.start()
        } else {
            a.start()
        };
        assert(a.holds_instant(t as int) && b.holds_instant(t as int));
    }
    if a.shares_instant(b) {
        let t = choose|t: i64| #[trigger] a.holds_instant(t as int) && #[trigger] b.holds_instant(t as int);
        assert(a.holds_instant(t as int));
    }
}

/// An interval that ends exactly where another starts does not overlap it.
pub proof fn lemma_touching_do_not_overlap(a: UtcInterval, b: UtcInterval)
    requires
        a.end() == b.start(),
    ensures
        !a.overlaps_spec(b),
        !b.overlaps_spec(a),
{
}

/// A (non-empty) interval inside another overlaps it.
pub proof fn lemma_contained_overlaps(outer: UtcInterval, inner: UtcInterval)
    requires
        inner.well_formed(),
        outer.contains_spec(inner),
    ensures
        outer.overlaps_spec(inner),
{
}

/// Containment is reflexive and transitive.
pub proof fn lemma_contains_preorder(a: UtcInterval, b: UtcInterval, c: UtcInterval)
    ensures
        a.contains_spec(a),
        a.contains_spec(b) && b.contains_spec(c) ==> a.contains_spec(c),
{
}

/// Validation error for a UTC interval.
#[derive(Clone, Copy, Debug, PartialEq, Eq, Structural)]
pub enum CalendarError {
    /// An interval must occupy some time.
    ZeroDuration,
    /// Converting the duration to milliseconds or computing the end overflowed.
    IntervalOverflow,
}

impl CalendarError {
    /// Human-readable description of the error.
    pub fn message(&self) -> (s: &'static str)
        ensures
            *self == CalendarError::ZeroDuration ==> s@
                == "an interval must have non-zero duration"@,
            *self == CalendarError::IntervalOverflow ==> s@
                == "the interval end overflows UTC milliseconds"@,
    {
        match self {
            CalendarError::ZeroDuration => "an interval must have non-zero duration",
            CalendarError::IntervalOverflow => "the interval end overflows UTC milliseconds",
        }
    }
}

/// True when no busy interval overlaps `candidate`.
pub open spec fn free_of(busy: Seq<UtcInterval>, candidate: UtcInterval) -> bool {
    forall|i: int| 0 <= i < busy.len() ==> !(#[trigger] busy[i]).overlaps_spec(candidate)
}

/// Private local availability input owned by one scheduling agent.
///
/// There is deliberately no busy-interval getter: a caller can only ask
/// whether a disclosed candidate is available.
pub struct LocalCalendar {
    busy: Vec<UtcInterval>,
}

impl View for LocalCalendar {
    type V = Seq<UtcInterval>;

    closed spec fn view(&self) -> Seq<UtcInterval> {
        self.busy@
    }
}

impl Clone for LocalCalendar {
    fn clone(&self) -> (c: Self)
        ensures
            c@ == self@,
    {
        let mut busy: Vec<UtcInterval> = Vec::new();
        let n = self.busy.len();
        let mut i: usize = 0;
        while i < n
            invariant
                n == self.busy@.len(),
                i <= n,
                busy@ == self.busy@.take(i as int),
            decreases n - i,
        {
            busy.push(self.busy[i]);
            assert(self.busy@.take(i + 1) =~= self.busy@.take(i as int).push(self.busy@[i as int]));
            i = i + 1;
        }
        assert(self.busy@.take(n as int) =~= self.busy@);
        LocalCalendar { busy }
    }
}

impl Default for LocalCalendar {
    fn default() -> (c: Self)
        ensures
            c@ == Seq::<UtcInterval>::empty(),
    {
        LocalCalendar { busy: Vec::new() }
    }
}

impl LocalCalendar {
    /// Creates a synthetic local calendar from already validated busy intervals.
    pub fn from_busy(busy: Vec<UtcInterval>) -> (c: Self)
        ensures
            c@ == busy@,
    {
        LocalCalendar { busy }
    }

    /// Whether `candidate` overlaps none of the busy intervals.
    pub fn is_available(&self, candidate: UtcInterval) -> (r: bool)
        ensures
            r == free_of(self@, candidate),
    {
        let n = self.busy.len();
        let mut i: usize = 0;
        while i < n
            invariant
                n == self.busy@.len(),
                i <= n,
                free_of(self.busy@.take(i as int), candidate),
            decreases n - i,
        {
            if self.busy[i].overlaps(candidate) {
                assert(self.busy@[i as int].overlaps_spec(candidate));
                return false;
            }
            assert(self.busy@.take(i + 1) =~= self.busy@.take(i as int).push(self.busy@[i as int]));
            i = i + 1;
        }
        assert(self.busy@.take(n as int) =~= self.busy@);
        true
    }
}

} // verus!
