use hash_graph::temporal::{
    BitemporalValidity, QueryTemporalAxes, TemporalBound, TemporalInterval, TimeAxis,
    UnresolvedTemporalAxes,
};

fn closed(start: i64, end: i64) -> TemporalInterval {
    TemporalInterval::new(TemporalBound::Inclusive(start), TemporalBound::Inclusive(end))
}

fn half_open(start: i64, end: i64) -> TemporalInterval {
    TemporalInterval::new(TemporalBound::Inclusive(start), TemporalBound::Exclusive(end))
}

fn from(start: i64) -> TemporalInterval {
    TemporalInterval::new(TemporalBound::Inclusive(start), TemporalBound::Unbounded)
}

#[test]
fn contains_respects_inclusive_and_exclusive_bounds() {
    let i = half_open(10, 20);
    assert!(!i.contains(9));
    assert!(i.contains(10));
    assert!(i.contains(19));
    assert!(!i.contains(20));
    let j = TemporalInterval::new(TemporalBound::Exclusive(10), TemporalBound::Inclusive(20));
    assert!(!j.contains(10));
    assert!(j.contains(11));
    assert!(j.contains(20));
    assert!(!j.contains(21));
}

#[test]
fn contains_with_unbounded_ends() {
    let all = TemporalInterval::unbounded();
    assert!(all.contains(i64::MIN));
    assert!(all.contains(0));
    assert!(all.contains(i64::MAX));
    let up = from(5);
    assert!(!up.contains(4));
    assert!(up.contains(5));
    assert!(up.contains(i64::MAX));
    let down = TemporalInterval::new(TemporalBound::Unbounded, TemporalBound::Exclusive(5));
    assert!(down.contains(i64::MIN));
    assert!(down.contains(4));
    assert!(!down.contains(5));
}

#[test]
fn contains_at_the_limits_of_the_timestamp_range() {
    let above_max = TemporalInterval::new(TemporalBound::Exclusive(i64::MAX), TemporalBound::Unbounded);
    assert!(!above_max.contains(i64::MAX));
    let below_min = TemporalInterval::new(TemporalBound::Unbounded, TemporalBound::Exclusive(i64::MIN));
    assert!(!below_min.contains(i64::MIN));
    let at_max = closed(i64::MAX, i64::MAX);
    assert!(at_max.contains(i64::MAX));
    assert!(!at_max.is_empty());
}

#[test]
fn is_empty_counts_timestamps() {
    assert!(!closed(5, 5).is_empty());
    assert!(closed(6, 5).is_empty());
    assert!(half_open(5, 5).is_empty());
    assert!(!half_open(5, 6).is_empty());
    let open = TemporalInterval::new(TemporalBound::Exclusive(5), TemporalBound::Exclusive(6));
    assert!(open.is_empty());
    let open_wide = TemporalInterval::new(TemporalBound::Exclusive(5), TemporalBound::Exclusive(7));
    assert!(!open_wide.is_empty());
    assert!(open_wide.contains(6));
    assert!(!TemporalInterval::unbounded().is_empty());
}

#[test]
fn intersect_takes_the_later_start_and_the_earlier_end() {
    assert_eq!(closed(0, 10).intersect(&closed(5, 20)), Some(closed(5, 10)));
    assert_eq!(closed(5, 20).intersect(&closed(0, 10)), Some(closed(5, 10)));
    assert_eq!(half_open(0, 10).intersect(&from(3)), Some(half_open(3, 10)));
    assert_eq!(
        TemporalInterval::unbounded().intersect(&closed(1, 2)),
        Some(closed(1, 2))
    );
    assert_eq!(
        closed(1, 2).intersect(&TemporalInterval::unbounded()),
        Some(closed(1, 2))
    );
}

#[test]
fn intersect_of_disjoint_intervals_is_none() {
    assert_eq!(closed(0, 4).intersect(&closed(5, 9)), None);
    assert_eq!(half_open(0, 5).intersect(&from(5)), None);
    assert_eq!(closed(6, 5).intersect(&TemporalInterval::unbounded()), None);
}

#[test]
fn intersect_touching_at_one_timestamp() {
    assert_eq!(closed(0, 5).intersect(&closed(5, 9)), Some(closed(5, 5)));
}

#[test]
fn intersect_keeps_the_first_bound_on_a_tie() {
    let a = TemporalInterval::new(TemporalBound::Exclusive(4), TemporalBound::Inclusive(9));
    let b = TemporalInterval::new(TemporalBound::Inclusive(5), TemporalBound::Exclusive(10));
    assert_eq!(a.intersect(&b), Some(a));
    assert_eq!(b.intersect(&a), Some(b));
}

#[test]
fn overlaps_is_symmetric_and_agrees_with_intersect() {
    let cases = vec![
        (closed(0, 4), closed(5, 9)),
        (closed(0, 5), closed(5, 9)),
        (half_open(0, 5), from(5)),
        (from(0), from(100)),
        (TemporalInterval::unbounded(), closed(3, 3)),
        (closed(7, 3), closed(0, 10)),
    ];
    for (a, b) in cases {
        assert_eq!(a.overlaps(&b), b.overlaps(&a));
        assert_eq!(a.overlaps(&b), a.intersect(&b).is_some());
    }
}

#[test]
fn bounds_are_read_back() {
    let i = half_open(3, 8);
    assert_eq!(i.lower_bound(), TemporalBound::Inclusive(3));
    assert_eq!(i.upper_bound(), TemporalBound::Exclusive(8));
    assert!(i.equals(&half_open(3, 8)));
    assert!(!i.equals(&closed(3, 7)));
}

#[test]
fn validity_is_read_by_axis() {
    let v = BitemporalValidity { decision_time: closed(1, 2), transaction_time: closed(3, 4) };
    assert_eq!(v.variable_interval(TimeAxis::DecisionTime), closed(1, 2));
    assert_eq!(v.pinned_interval(TimeAxis::DecisionTime), closed(3, 4));
    assert_eq!(v.variable_interval(TimeAxis::TransactionTime), closed(3, 4));
    assert_eq!(v.pinned_interval(TimeAxis::TransactionTime), closed(1, 2));
    let always = BitemporalValidity::always();
    assert_eq!(always.decision_time, TemporalInterval::unbounded());
    assert_eq!(always.transaction_time, TemporalInterval::unbounded());
}

#[test]
fn resolve_fills_in_the_time_of_resolution() {
    let unresolved = UnresolvedTemporalAxes {
        variable_axis: TimeAxis::DecisionTime,
        pinned: None,
        variable_start: None,
        variable_end: None,
    };
    let resolved = unresolved.resolve(1000);
    assert_eq!(
        resolved,
        QueryTemporalAxes {
            pinned: 1000,
            variable_interval: TemporalInterval::new(
                TemporalBound::Unbounded,
                TemporalBound::Inclusive(1000)
            ),
            variable_axis: TimeAxis::DecisionTime,
        }
    );
}

#[test]
fn resolve_keeps_what_was_given() {
    let unresolved = UnresolvedTemporalAxes {
        variable_axis: TimeAxis::TransactionTime,
        pinned: Some(7),
        variable_start: Some(TemporalBound::Exclusive(1)),
        variable_end: Some(TemporalBound::Exclusive(9)),
    };
    let resolved = unresolved.resolve(1000);
    assert_eq!(resolved.pinned_timestamp(), 7);
    assert_eq!(resolved.variable_time_axis(), TimeAxis::TransactionTime);
    assert_eq!(
        resolved.variable_interval(),
        TemporalInterval::new(TemporalBound::Exclusive(1), TemporalBound::Exclusive(9))
    );
}

#[test]
fn resolve_bounds_an_unbounded_end() {
    let unresolved = UnresolvedTemporalAxes {
        variable_axis: TimeAxis::DecisionTime,
        pinned: Some(7),
        variable_start: Some(TemporalBound::Inclusive(1)),
        variable_end: Some(TemporalBound::Unbounded),
    };
    assert_eq!(unresolved.resolve(50).variable_interval(), closed(1, 50));
}

#[test]
fn from_variable_time_axis_builds_the_projection() {
    let axes = QueryTemporalAxes::from_variable_time_axis(TimeAxis::DecisionTime, 3, closed(0, 9));
    assert_eq!(axes.pinned, 3);
    assert_eq!(axes.variable_axis, TimeAxis::DecisionTime);
    assert_eq!(axes.variable_interval, closed(0, 9));
}
