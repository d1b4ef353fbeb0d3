use role_ledger::store::{Handler, MAX_BALANCE};

/// Bring (guild 1, `user`) to exactly `balance` by materialising the row
/// at the ceiling and debiting the difference.
fn set_balance(h: &mut Handler, user: u64, balance: u64) {
    h.create_user(1, user);
    assert_eq!(h.withdraw(1, user, MAX_BALANCE - balance), Some(balance));
}

#[test]
fn unseen_users_start_at_the_ceiling() {
    let h = Handler::new();
    assert_eq!(h.get_balance(1, 5), MAX_BALANCE);
}

#[test]
fn create_user_materialises_the_default_balance() {
    let mut h = Handler::new();
    assert!(h.create_user(1, 5));
    assert!(!h.create_user(1, 5));
    assert_eq!(h.get_balance(1, 5), MAX_BALANCE);
}

#[test]
fn withdraw_beyond_the_balance_changes_nothing() {
    let mut h = Handler::new();
    set_balance(&mut h, 5, 100);
    // Insufficient funds: `None`, and the balance stays at 100.
    assert_eq!(h.withdraw(1, 5, 150), None);
    assert_eq!(h.get_balance(1, 5), 100);
}

#[test]
fn withdraw_debits_exactly_the_amount() {
    let mut h = Handler::new();
    set_balance(&mut h, 5, 100);
    assert_eq!(h.withdraw(1, 5, 40), Some(60));
    assert_eq!(h.get_balance(1, 5), 60);
    // Down to exactly zero, never below.
    assert_eq!(h.withdraw(1, 5, 60), Some(0));
    assert_eq!(h.withdraw(1, 5, 1), None);
    assert_eq!(h.get_balance(1, 5), 0);
}

#[test]
fn withdraw_amounts_are_clamped_to_the_ceiling() {
    let mut h = Handler::new();
    // A fresh user is at the ceiling; an oversized amount is clamped to
    // the ceiling before the debit.
    assert_eq!(h.withdraw(1, 5, u64::MAX), Some(0));
}

#[test]
fn deposit_clamps_at_the_ceiling_and_reports_the_rest() {
    let mut h = Handler::new();
    set_balance(&mut h, 5, MAX_BALANCE - 30);
    assert_eq!(h.deposit(1, 5, 50), 20);
    assert_eq!(h.get_balance(1, 5), MAX_BALANCE);
    // Already full: the whole credit bounces.
    assert_eq!(h.deposit(1, 5, 50), 50);
}

#[test]
fn transfer_moves_money_and_refunds_what_bounces() {
    let mut h = Handler::new();
    set_balance(&mut h, 5, 100);
    set_balance(&mut h, 6, MAX_BALANCE - 30);
    // 50 leave the sender; 30 fit under the recipient's ceiling; the
    // other 20 come back.
    assert_eq!(h.transfer(1, 5, 6, 50), Some(MAX_BALANCE));
    assert_eq!(h.get_balance(1, 5), 70);
    assert_eq!(h.get_balance(1, 6), MAX_BALANCE);
}

#[test]
fn transfer_with_insufficient_funds_changes_nothing() {
    let mut h = Handler::new();
    set_balance(&mut h, 5, 40);
    set_balance(&mut h, 6, 100);
    assert_eq!(h.transfer(1, 5, 6, 50), None);
    assert_eq!(h.get_balance(1, 5), 40);
    assert_eq!(h.get_balance(1, 6), 100);
}

#[test]
fn transfer_to_oneself_is_a_no_op() {
    let mut h = Handler::new();
    set_balance(&mut h, 5, 100);
    assert_eq!(h.transfer(1, 5, 5, 60), Some(100));
    assert_eq!(h.get_balance(1, 5), 100);
}

#[test]
fn income_tick_credits_every_stored_balance_clamped() {
    let mut h = Handler::new();
    set_balance(&mut h, 5, MAX_BALANCE - 100);
    set_balance(&mut h, 6, MAX_BALANCE - 10);
    h.grant(40);
    assert_eq!(h.get_balance(1, 5), MAX_BALANCE - 60);
    // Close to the ceiling: the credit is clamped.
    assert_eq!(h.get_balance(1, 6), MAX_BALANCE);
    // Users without a row stay at the ceiling.
    assert_eq!(h.get_balance(1, 7), MAX_BALANCE);
}
