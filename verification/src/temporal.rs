//! Time axes and interval algebra.
//!
//! A timestamp is a whole number of microseconds. An interval stands for the
//! set of timestamps between its two bounds; every operation here is stated
//! against that set.

use vstd::prelude::*;

verus! {

/// Microseconds since the epoch.
pub type Timestamp = i64;

/// The two axes of bitemporal data.
#[derive(Debug, Clone, Copy, PartialEq, Eq, Hash, Structural)]
pub enum TimeAxis {
    DecisionTime,
    TransactionTime,
}

/// One end of an interval.
#[derive(Debug, Clone, Copy, PartialEq, Eq, Hash, Structural)]
pub enum TemporalBound {
    Unbounded,
    Inclusive(i64),
    Exclusive(i64),
}

/// A set of consecutive timestamps, given by its two bounds.
#[derive(Debug, Clone, Copy, PartialEq, Eq, Hash, Structural)]
pub struct TemporalInterval {
    pub start: TemporalBound,
    pub end: TemporalBound,
}

impl TemporalBound {
    /// As a lower bound: the least timestamp admitted, `None` when every
    /// timestamp is.
    pub open spec fn floor(self) -> Option<int> {
        match self {
            TemporalBound::Unbounded => None,
            TemporalBound::Inclusive(t) => Some(t as int),
            TemporalBound::Exclusive(t) => Some(t + 1),
        }
    }

    /// As an upper bound: the greatest timestamp admitted, `None` when every
    /// timestamp is.
    pub open spec fn ceiling(self) -> Option<int> {
        match self {
            TemporalBound::Unbounded => None,
            TemporalBound::Inclusive(t) => Some(t as int),
            TemporalBound::Exclusive(t) => Some(t - 1),
        }
    }

    /// Whether `t` lies at or above this bound taken as a lower bound.
    pub open spec fn admits_from_below(self, t: int) -> bool {
        match self.floor() {
            None => true,
            Some(a) => a <= t,
        }
    }

    /// Whether `t` lies at or below this bound taken as an upper bound.
    pub open spec fn admits_from_above(self, t: int) -> bool {
        match self.ceiling() {
            None => true,
            Some(b) => t <= b,
        }
    }

    /// Of two lower bounds the one that admits less; the first on a tie.
    pub open spec fn later_start(self, other: TemporalBound) -> TemporalBound {
        match (self.floor(), other.floor()) {
            (None, _) => other,
            (_, None) => self,
            (Some(a), Some(b)) => if a >= b {
                self
            } else {
                other
            },
        }
    }

    /// Of two upper bounds the one that admits less; the first on a tie.
    pub open spec fn earlier_end(self, other: TemporalBound) -> TemporalBound {
        match (self.ceiling(), other.ceiling()) {
            (None, _) => other,
            (_, None) => self,
            (Some(a), Some(b)) => if a <= b {
                self
            } else {
                other
            },
        }
    }

    /// Whether two bounds are the same bound.
    pub fn equals(&self, other: &TemporalBound) -> (r: bool)
        ensures
            r == (*self == *other),
    {
        match (self, other) {
            (TemporalBound::Unbounded, TemporalBound::Unbounded) => true,
            (TemporalBound::Inclusive(x), TemporalBound::Inclusive(y)) => *x == *y,
            (TemporalBound::Exclusive(x), TemporalBound::Exclusive(y)) => *x == *y,
            _ => false,
        }
    }

    fn floor_exec(&self) -> (r: Option<i128>)
        ensures
            r is Some == self.floor() is Some,
            r is Some ==> r.unwrap() as int == self.floor().unwrap(),
    {
        match self {
            TemporalBound::Unbounded => None,
            TemporalBound::Inclusive(t) => Some(*t as i128),
            TemporalBound::Exclusive(t) => Some(*t as i128 + 1),
        }
    }

    fn ceiling_exec(&self) -> (r: Option<i128>)
        ensures
            r is Some == self.ceiling() is Some,
            r is Some ==> r.unwrap() as int == self.ceiling().unwrap(),
    {
        match self {
            TemporalBound::Unbounded => None,
            TemporalBound::Inclusive(t) => Some(*t as i128),
            TemporalBound::Exclusive(t) => Some(*t as i128 - 1),
        }
    }
}

impl TemporalInterval {
    /// Whether timestamp `t` belongs to the interval.
    pub open spec fn contains_spec(self, t: int) -> bool {
        self.start.admits_from_below(t) && self.end.admits_from_above(t)
    }

    /// Whether the interval holds no timestamp at all.
    pub open spec fn is_empty_spec(self) -> bool {
        match (self.start.floor(), self.end.ceiling()) {
            (Some(a), Some(b)) => a > b,
            _ => false,
        }
    }

    /// Whether the interval ends somewhere.
    pub open spec fn is_right_bounded(self) -> bool {
        !(self.end is Unbounded)
    }

    /// Whether every timestamp of `self` belongs to `other`.
    pub open spec fn is_subset_of(self, other: TemporalInterval) -> bool {
        forall|t: int| self.contains_spec(t) ==> other.contains_spec(t)
    }

    /// The interval that starts where the later of the two starts and ends
    /// where the earlier of the two ends.
    pub open spec fn meet(self, other: TemporalInterval) -> TemporalInterval {
        TemporalInterval {
            start: self.start.later_start(other.start),
            end: self.end.earlier_end(other.end),
        }
    }

    /// The common part of two intervals, `None` when they share no timestamp.
    pub open spec fn intersect_spec(self, other: TemporalInterval) -> Option<TemporalInterval> {
        if self.meet(other).is_empty_spec() {
            None
        } else {
            Some(self.meet(other))
        }
    }

    /// Whether two intervals share a timestamp.
    pub open spec fn overlaps_spec(self, other: TemporalInterval) -> bool {
        !self.meet(other).is_empty_spec()
    }

    /// The interval that holds every timestamp.
    pub open spec fn unbounded_spec() -> TemporalInterval {
        TemporalInterval { start: TemporalBound::Unbounded, end: TemporalBound::Unbounded }
    }

    /// An interval is empty exactly when no timestamp belongs to it.
    pub proof fn lemma_empty_iff_no_member(self)
        ensures
            self.is_empty_spec() <==> forall|t: int| !self.contains_spec(t),
    {
        if !self.is_empty_spec() {
            let w: int = match (self.start.floor(), self.end.ceiling()) {
                (Some(a), _) => a,
                (None, Some(b)) => b,
                (None, None) => 0,
            };
            assert(self.contains_spec(w));
        }
    }

    /// The meet holds exactly the timestamps that both intervals hold.
    pub proof fn lemma_meet_members(self, other: TemporalInterval)
        ensures
            forall|t: int| #[trigger]
                self.meet(other).contains_spec(t) <==> (self.contains_spec(t)
                    && other.contains_spec(t)),
            self.meet(other).is_subset_of(self),
            self.meet(other).is_subset_of(other),
            self.is_right_bounded() || other.is_right_bounded() ==> self.meet(
                other,
            ).is_right_bounded(),
    {
    }

    /// Two intervals overlap exactly when some timestamp belongs to both.
    pub proof fn lemma_overlaps_iff_common_member(self, other: TemporalInterval)
        ensures
            self.overlaps_spec(other) <==> exists|t: int|
                self.contains_spec(t) && other.contains_spec(t),
            self.overlaps_spec(other) == other.overlaps_spec(self),
    {
        self.lemma_meet_members(other);
        self.meet(other).lemma_empty_iff_no_member();
        if self.overlaps_spec(other) {
            let w = choose|t: int| self.meet(other).contains_spec(t);
            assert(self.contains_spec(w) && other.contains_spec(w));
        } else {
            assert forall|t: int| !(self.contains_spec(t) && other.contains_spec(t)) by {
                assert(!self.meet(other).contains_spec(t));
            }
        }
    }

    /// Subset is reflexive and transitive.
    pub proof fn lemma_subset_transitive(self, mid: TemporalInterval, outer: TemporalInterval)
        requires
            self.is_subset_of(mid),
            mid.is_subset_of(outer),
        ensures
            self.is_subset_of(outer),
            self.is_subset_of(self),
    {
    }

    /// An interval from its two bounds.
    pub fn new(start: TemporalBound, end: TemporalBound) -> (r: TemporalInterval)
        ensures
            r.start == start,
            r.end == end,
    {
        TemporalInterval { start, end }
    }

    /// The interval that holds every timestamp.
    pub fn unbounded() -> (r: TemporalInterval)
        ensures
            r == Self::unbounded_spec(),
            forall|t: int| r.contains_spec(t),
    {
        TemporalInterval { start: TemporalBound::Unbounded, end: TemporalBound::Unbounded }
    }

    /// Whether two intervals have the same bounds.
    pub fn equals(&self, other: &TemporalInterval) -> (r: bool)
        ensures
            r == (*self == *other),
    {
        self.start.equals(&other.start) && self.end.equals(&other.end)
    }

    /// The lower bound.
    pub fn lower_bound(&self) -> (r: TemporalBound)
        ensures
            r == self.start,
    {
        self.start
    }

    /// The upper bound.
    pub fn upper_bound(&self) -> (r: TemporalBound)
        ensures
            r == self.end,
    {
        self.end
    }

    /// Whether the interval holds no timestamp.
    pub fn is_empty(&self) -> (r: bool)
        ensures
            r == self.is_empty_spec(),
            r <==> forall|t: int| !self.contains_spec(t),
    {
        proof {
            self.lemma_empty_iff_no_member();
        }
        match (self.start.floor_exec(), self.end.ceiling_exec()) {
            (Some(a), Some(b)) => a > b,
            _ => false,
        }
    }

    /// Whether `timestamp` belongs to the interval.
    pub fn contains(&self, timestamp: Timestamp) -> (r: bool)
        ensures
            r == self.contains_spec(timestamp as int),
    {
        let from_below = match self.start.floor_exec() {
            None => true,
            Some(a) => a <= timestamp as i128,
        };
        let from_above = match self.end.ceiling_exec() {
            None => true,
            Some(b) => timestamp as i128 <= b,
        };
        from_below && from_above
    }

    fn meet_exec(&self, other: &TemporalInterval) -> (r: TemporalInterval)
        ensures
            r == self.meet(*other),
    {
        let start = match (self.start.floor_exec(), other.start.floor_exec()) {
            (None, _) => other.start,
            (_, None) => self.start,
            (Some(a), Some(b)) => if a >= b {
                self.start
            } else {
                other.start
            },
        };
        let end = match (self.end.ceiling_exec(), other.end.ceiling_exec()) {
            (None, _) => other.end,
            (_, None) => self.end,
            (Some(a), Some(b)) => if a <= b {
                self.end
            } else {
                other.end
            },
        };
        TemporalInterval { start, end }
    }

    /// Whether the two intervals share a timestamp.
    pub fn overlaps(&self, other: &TemporalInterval) -> (r: bool)
        ensures
            r == self.overlaps_spec(*other),
            r <==> exists|t: int| self.contains_spec(t) && other.contains_spec(t),
    {
        proof {
            self.lemma_overlaps_iff_common_member(*other);
        }
        !self.meet_exec(other).is_empty()
    }

    /// The common part of the two intervals: `None` when they share no
    /// timestamp, otherwise the interval of exactly the timestamps in both.
    pub fn intersect(&self, other: &TemporalInterval) -> (r: Option<TemporalInterval>)
        ensures
            r == self.intersect_spec(*other),
            r is None <==> !self.overlaps_spec(*other),
            r is None <==> forall|t: int| !(self.contains_spec(t) && other.contains_spec(t)),
            r matches Some(i) ==> {
                &&& !i.is_empty_spec()
                &&& i.is_subset_of(*self)
                &&& i.is_subset_of(*other)
                &&& forall|t: int| #[trigger]
                    i.contains_spec(t) <==> (self.contains_spec(t) && other.contains_spec(t))
            },
    {
        proof {
            self.lemma_overlaps_iff_common_member(*other);
            self.lemma_meet_members(*other);
        }
        let m = self.meet_exec(other);
        if m.is_empty() {
            None
        } else {
            Some(m)
        }
    }
}

/// The validity of a stored fact on both axes.
#[derive(Debug, Clone, Copy, PartialEq, Eq, Structural)]
pub struct BitemporalValidity {
    pub decision_time: TemporalInterval,
    pub transaction_time: TemporalInterval,
}

impl BitemporalValidity {
    /// The validity on the axis that a query leaves variable.
    pub open spec fn variable_spec(self, variable_axis: TimeAxis) -> TemporalInterval {
        match variable_axis {
            TimeAxis::DecisionTime => self.decision_time,
            TimeAxis::TransactionTime => self.transaction_time,
        }
    }

    /// The validity on the axis that a query pins.
    pub open spec fn pinned_spec(self, variable_axis: TimeAxis) -> TemporalInterval {
        match variable_axis {
            TimeAxis::DecisionTime => self.transaction_time,
            TimeAxis::TransactionTime => self.decision_time,
        }
    }

    /// Valid at every time on both axes.
    pub fn always() -> (r: BitemporalValidity)
        ensures
            r.decision_time == TemporalInterval::unbounded_spec(),
            r.transaction_time == TemporalInterval::unbounded_spec(),
    {
        BitemporalValidity {
            decision_time: TemporalInterval::unbounded(),
            transaction_time: TemporalInterval::unbounded(),
        }
    }

    /// The validity on the axis that a query leaves variable.
    pub fn variable_interval(&self, variable_axis: TimeAxis) -> (r: TemporalInterval)
        ensures
            r == self.variable_spec(variable_axis),
    {
        match variable_axis {
            TimeAxis::DecisionTime => self.decision_time,
            TimeAxis::TransactionTime => self.transaction_time,
        }
    }

    /// The validity on the axis that a query pins.
    pub fn pinned_interval(&self, variable_axis: TimeAxis) -> (r: TemporalInterval)
        ensures
            r == self.pinned_spec(variable_axis),
    {
        match variable_axis {
            TimeAxis::DecisionTime => self.transaction_time,
            TimeAxis::TransactionTime => self.decision_time,
        }
    }
}

/// A projection of bitemporal data: one axis held at a timestamp, the other
/// carried as an interval.
#[derive(Debug, Clone, Copy, PartialEq, Eq, Structural)]
pub struct QueryTemporalAxes {
    pub pinned: Timestamp,
    pub variable_interval: TemporalInterval,
    pub variable_axis: TimeAxis,
}

impl QueryTemporalAxes {
    /// The projection that varies `variable_axis` over `variable_interval`
    /// and pins the other axis at `pinned`.
    pub fn from_variable_time_axis(
        variable_axis: TimeAxis,
        pinned: Timestamp,
        variable_interval: TemporalInterval,
    ) -> (r: QueryTemporalAxes)
        ensures
            r.pinned == pinned,
            r.variable_interval == variable_interval,
            r.variable_axis == variable_axis,
    {
        QueryTemporalAxes { pinned, variable_interval, variable_axis }
    }

    /// The timestamp of the pinned axis.
    pub fn pinned_timestamp(&self) -> (r: Timestamp)
        ensures
            r == self.pinned,
    {
        self.pinned
    }

    /// Which axis varies.
    pub fn variable_time_axis(&self) -> (r: TimeAxis)
        ensures
            r == self.variable_axis,
    {
        self.variable_axis
    }

    /// The interval of the variable axis.
    pub fn variable_interval(&self) -> (r: TemporalInterval)
        ensures
            r == self.variable_interval,
    {
        self.variable_interval
    }
}

/// A projection as a caller writes it: what is left out is filled in from the
/// time at which the query is resolved.
#[derive(Debug, Clone, Copy, PartialEq, Eq, Structural)]
pub struct UnresolvedTemporalAxes {
    pub variable_axis: TimeAxis,
    pub pinned: Option<Timestamp>,
    pub variable_start: Option<TemporalBound>,
    pub variable_end: Option<TemporalBound>,
}

impl UnresolvedTemporalAxes {
    /// The resolved projection, as a function of the time of resolution.
    pub open spec fn resolve_spec(self, now: Timestamp) -> QueryTemporalAxes {
        QueryTemporalAxes {
            pinned: match self.pinned {
                Some(t) => t,
                None => now,
            },
            variable_interval: TemporalInterval {
                start: match self.variable_start {
                    Some(b) => b,
                    None => TemporalBound::Unbounded,
                },
                end: match self.variable_end {
                    Some(TemporalBound::Unbounded) | None => TemporalBound::Inclusive(now),
                    Some(b) => b,
                },
            },
            variable_axis: self.variable_axis,
        }
    }

    /// Resolves the projection at time `now`: a missing pinned timestamp
    /// becomes `now`, a missing start leaves the interval open to the left,
    /// and a missing or unbounded end becomes `now`, inclusive. The variable
    /// interval of the result always ends somewhere.
    pub fn resolve(&self, now: Timestamp) -> (r: QueryTemporalAxes)
        ensures
            r == self.resolve_spec(now),
            r.variable_interval.is_right_bounded(),
    {
        let pinned = match self.pinned {
            Some(t) => t,
            None => now,
        };
        let start = match self.variable_start {
            Some(b) => b,
            None => TemporalBound::Unbounded,
        };
        let end = match self.variable_end {
            Some(TemporalBound::Unbounded) | None => TemporalBound::Inclusive(now),
            Some(b) => b,
        };
        QueryTemporalAxes {
            pinned,
            variable_interval: TemporalInterval { start, end },
            variable_axis: self.variable_axis,
        }
    }
}

} // verus!
