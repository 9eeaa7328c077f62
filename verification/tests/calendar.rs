use fabric_core::{LocalCalendar, UtcInterval};

#[test]
fn touching_half_open_intervals_do_not_overlap() {
    let first = UtcInterval::new(1_000, 30).expect("valid interval");
    let second = UtcInterval::new(31_000, 30).expect("valid interval");

    assert!(!first.overlaps(second));
    assert!(LocalCalendar::from_busy(vec![first]).is_available(second));
}

#[test]
fn overlapping_interval_is_not_available() {
    let busy = UtcInterval::new(10_000, 60).expect("valid interval");
    let candidate = UtcInterval::new(69_000, 60).expect("valid interval");

    assert!(!LocalCalendar::from_busy(vec![busy]).is_available(candidate));
}

#[test]
fn status_identifies_the_project() {
    assert!(fabric_core::status().contains("Knowledge Fabric"));
}
