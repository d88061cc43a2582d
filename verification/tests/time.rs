use movebeam::time::Duration;

#[test]
fn from_secs_counts_whole_seconds() {
    let d = Duration::from_secs(10);
    assert_eq!(d.as_secs(), 10);
    assert_eq!(d.subsec_nanos(), 0);
}

#[test]
fn new_carries_whole_seconds_out_of_the_nanoseconds() {
    let d = Duration::new(1, 2_500_000_000);
    assert_eq!(d.as_secs(), 3);
    assert_eq!(d.subsec_nanos(), 500_000_000);
    assert_eq!(d, Duration::new(3, 500_000_000));
}

#[test]
fn from_parts_refuses_a_second_of_nanoseconds() {
    assert_eq!(Duration::from_parts(7, 999_999_999), Some(Duration::new(7, 999_999_999)));
    assert_eq!(Duration::from_parts(7, 1_000_000_000), None);
}

#[test]
fn zero_is_empty() {
    assert!(Duration::zero().is_zero());
    assert!(!Duration::new(0, 1).is_zero());
    assert_eq!(Duration::zero(), Duration::from_secs(0));
}

#[test]
fn spans_compare_by_length() {
    let a = Duration::new(1, 999_999_999);
    let b = Duration::new(2, 0);
    assert!(a.lt(&b));
    assert!(a.le(&b));
    assert!(b.gt(&a));
    assert!(b.ge(&a));
    assert!(!b.lt(&a));
    assert!(a.le(&a));
    assert!(a.ge(&a));
    assert!(!a.lt(&a));
    assert!(!a.gt(&a));
}

#[test]
fn checked_add_carries_nanoseconds() {
    let a = Duration::new(1, 600_000_000);
    let b = Duration::new(2, 700_000_000);
    assert_eq!(a.checked_add(&b), Some(Duration::new(4, 300_000_000)));
}

#[test]
fn checked_add_stops_at_the_longest_span() {
    let max = Duration::max();
    assert_eq!(max.as_secs(), u64::MAX);
    assert_eq!(max.subsec_nanos(), 999_999_999);
    assert_eq!(max.checked_add(&Duration::zero()), Some(max));
    assert_eq!(max.checked_add(&Duration::new(0, 1)), None);
    assert_eq!(Duration::from_secs(u64::MAX).checked_add(&Duration::from_secs(1)), None);
    assert_eq!(
        Duration::new(u64::MAX, 1).checked_add(&Duration::new(0, 999_999_998)),
        Some(max)
    );
}

#[test]
fn saturating_sub_borrows_a_second() {
    let a = Duration::new(5, 100_000_000);
    let b = Duration::new(2, 300_000_000);
    assert_eq!(a.saturating_sub(&b), Duration::new(2, 800_000_000));
    assert_eq!(a.saturating_sub(&a), Duration::zero());
}

#[test]
fn saturating_sub_stops_at_zero() {
    let a = Duration::new(2, 300_000_000);
    let b = Duration::new(5, 100_000_000);
    assert_eq!(a.saturating_sub(&b), Duration::zero());
}
