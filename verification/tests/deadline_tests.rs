use role_ledger::deadline::{MAX_EXTEND_SECONDS, WarningKind};
use role_ledger::store::Handler;
use role_ledger::{DAY_SECONDS, HOUR_SECONDS};

#[test]
fn extend_of_a_missing_role_is_refused() {
    let mut h = Handler::new();
    assert_eq!(h.extend_role(1, 100, 500), None);
}

#[test]
fn extend_adds_onto_the_stored_deadline() {
    let mut h = Handler::new();
    assert!(h.create_role(1, 100, "Gold".to_string(), 5));
    // A role without a deadline extends from zero.
    assert_eq!(h.extend_role(1, 100, 500), Some(500));
    assert_eq!(h.extend_role(1, 100, 250), Some(750));
}

#[test]
fn extend_is_clamped_per_call() {
    let mut h = Handler::new();
    assert!(h.create_role(1, 100, "Gold".to_string(), 5));
    assert_eq!(
        h.extend_role(1, 100, MAX_EXTEND_SECONDS + 12345),
        Some(MAX_EXTEND_SECONDS)
    );
    // A second call keeps advancing; the deadline never decreases.
    assert_eq!(
        h.extend_role(1, 100, u64::MAX),
        Some(2 * MAX_EXTEND_SECONDS)
    );
}

#[test]
fn sweep_reports_a_due_role_once() {
    let mut h = Handler::new();
    assert!(h.create_role(1, 100, "Gold".to_string(), 5));
    // Deadline 20 hours out.
    assert_eq!(h.extend_role(1, 100, 20 * HOUR_SECONDS), Some(20 * HOUR_SECONDS));
    // A 24-hour sweep at time zero reports it and flips the flag.
    assert_eq!(h.sweep_warnings(1, 0, DAY_SECONDS, WarningKind::Day), vec![100]);
    // An immediate second sweep with the same horizon reports nothing.
    assert_eq!(
        h.sweep_warnings(1, 0, DAY_SECONDS, WarningKind::Day),
        Vec::<u64>::new()
    );
}

#[test]
fn day_and_hour_sweeps_are_independent() {
    let mut h = Handler::new();
    assert!(h.create_role(1, 100, "Gold".to_string(), 5));
    assert_eq!(h.extend_role(1, 100, HOUR_SECONDS / 2), Some(HOUR_SECONDS / 2));
    // The role is inside both horizons; each kind reports it once.
    assert_eq!(h.sweep_warnings(1, 0, DAY_SECONDS, WarningKind::Day), vec![100]);
    assert_eq!(h.sweep_warnings(1, 0, HOUR_SECONDS, WarningKind::Hour), vec![100]);
    assert_eq!(
        h.sweep_warnings(1, 0, DAY_SECONDS, WarningKind::Day),
        Vec::<u64>::new()
    );
    assert_eq!(
        h.sweep_warnings(1, 0, HOUR_SECONDS, WarningKind::Hour),
        Vec::<u64>::new()
    );
}

#[test]
fn sweep_ignores_roles_outside_the_horizon() {
    let mut h = Handler::new();
    assert!(h.create_role(1, 100, "far".to_string(), 5));
    assert!(h.create_role(1, 101, "near".to_string(), 5));
    assert!(h.create_role(1, 102, "none".to_string(), 5));
    assert_eq!(h.extend_role(1, 100, 48 * HOUR_SECONDS), Some(48 * HOUR_SECONDS));
    assert_eq!(h.extend_role(1, 101, 20 * HOUR_SECONDS), Some(20 * HOUR_SECONDS));
    // Role 102 never got a deadline; role 100 lies beyond the horizon.
    assert_eq!(h.sweep_warnings(1, 0, DAY_SECONDS, WarningKind::Day), vec![101]);
}

#[test]
fn sweep_ignores_deadlines_already_passed() {
    let mut h = Handler::new();
    assert!(h.create_role(1, 100, "late".to_string(), 5));
    assert_eq!(h.extend_role(1, 100, 10 * HOUR_SECONDS), Some(10 * HOUR_SECONDS));
    // At a time past the deadline the window (now, now + horizon] is empty
    // of it.
    assert_eq!(
        h.sweep_warnings(1, 11 * HOUR_SECONDS, DAY_SECONDS, WarningKind::Day),
        Vec::<u64>::new()
    );
}

#[test]
fn sweep_is_scoped_to_the_guild() {
    let mut h = Handler::new();
    assert!(h.create_role(1, 100, "here".to_string(), 5));
    assert!(h.create_role(2, 100, "there".to_string(), 5));
    assert_eq!(h.extend_role(1, 100, 20 * HOUR_SECONDS), Some(20 * HOUR_SECONDS));
    assert_eq!(h.extend_role(2, 100, 20 * HOUR_SECONDS), Some(20 * HOUR_SECONDS));
    assert_eq!(h.sweep_warnings(1, 0, DAY_SECONDS, WarningKind::Day), vec![100]);
    // The other guild's role is untouched and still due there.
    assert_eq!(h.sweep_warnings(2, 0, DAY_SECONDS, WarningKind::Day), vec![100]);
}
