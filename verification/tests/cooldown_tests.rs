use role_ledger::cooldown::{CooldownGuard, CooldownKey};

#[test]
fn fresh_key_allows_and_opens_window() {
    let mut guard = CooldownGuard::new();
    assert_eq!(guard.check(CooldownKey::User(1), 100, 1000), Ok(()));
    // The window is now open: an immediate retry reports the full wait.
    assert_eq!(guard.check(CooldownKey::User(1), 100, 1000), Err(100));
    // Halfway through, half the wait remains.
    assert_eq!(guard.check(CooldownKey::User(1), 100, 1050), Err(50));
}

#[test]
fn expired_window_clears_then_rearms() {
    let mut guard = CooldownGuard::new();
    assert_eq!(guard.check(CooldownKey::User(7), 100, 1000), Ok(()));
    // Exactly at expiry: the entry is cleared and the action allowed.
    assert_eq!(guard.check(CooldownKey::User(7), 100, 1100), Ok(()));
    // The next check opens a fresh window rather than finding the old one.
    assert_eq!(guard.check(CooldownKey::User(7), 100, 1100), Ok(()));
    assert_eq!(guard.check(CooldownKey::User(7), 100, 1150), Err(50));
}

#[test]
fn pair_keys_are_ordered_and_independent() {
    let mut guard = CooldownGuard::new();
    assert_eq!(guard.check(CooldownKey::Pair(1, 2), 60, 500), Ok(()));
    // The reversed pair is a different key.
    assert_eq!(guard.check(CooldownKey::Pair(2, 1), 60, 500), Ok(()));
    assert_eq!(guard.check(CooldownKey::Pair(1, 2), 60, 510), Err(50));
    // A scalar key involving the same user is independent too.
    assert_eq!(guard.check(CooldownKey::User(1), 60, 510), Ok(()));
}

#[test]
fn stamp_in_the_future_counts_as_no_elapsed_time() {
    let mut guard = CooldownGuard::new();
    assert_eq!(guard.check(CooldownKey::User(3), 100, 1000), Ok(()));
    // A clock that moved backwards sees the full window remaining.
    assert_eq!(guard.check(CooldownKey::User(3), 100, 900), Err(100));
}
