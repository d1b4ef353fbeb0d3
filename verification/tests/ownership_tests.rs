use role_ledger::store::{Handler, MAX_OWNED_ROLES, QueryRoleResult};

#[test]
fn create_role_then_duplicate_key_refused() {
    let mut h = Handler::new();
    assert!(h.create_role(1, 100, "Gold".to_string(), 5));
    // Same (guild, role) key again: not inserted, not an error.
    assert!(!h.create_role(1, 100, "Gold".to_string(), 5));
    // The same role id in another guild is a different key.
    assert!(h.create_role(2, 100, "Gold".to_string(), 5));
}

#[test]
fn quota_refuses_the_twenty_first_role() {
    let mut h = Handler::new();
    for r in 0..MAX_OWNED_ROLES {
        assert!(h.create_role(1, 100 + r, format!("role{}", r), 5));
    }
    assert_eq!(h.list_count(1, 5), MAX_OWNED_ROLES);
    // The owner is at quota: one more conditional insert matches nothing.
    assert!(!h.create_role(1, 100 + MAX_OWNED_ROLES, "overflow".to_string(), 5));
    assert_eq!(h.list_count(1, 5), MAX_OWNED_ROLES);
    // The same user is free to own roles in another guild.
    assert!(h.create_role(2, 100, "elsewhere".to_string(), 5));
}

#[test]
fn create_role_force_without_owner_skips_the_quota() {
    let mut h = Handler::new();
    for r in 0..MAX_OWNED_ROLES {
        assert!(h.create_role(1, 100 + r, format!("role{}", r), 5));
    }
    // An orphan insert is not conditioned on anyone's quota.
    assert!(h.create_role_force(1, 999, "orphan".to_string(), None));
    assert_eq!(h.query_role(1, 999), QueryRoleResult::Orphan);
}

#[test]
fn take_ownership_claims_an_orphan_exactly_once() {
    let mut h = Handler::new();
    assert!(h.create_role_force(1, 100, "legacy".to_string(), None));
    assert_eq!(h.query_role(1, 100), QueryRoleResult::Orphan);
    assert!(h.take_ownership(1, 100, 5));
    assert_eq!(h.query_role(1, 100), QueryRoleResult::Owned(5));
    // Already owned: the conditional update matches zero rows.
    assert!(!h.take_ownership(1, 100, 6));
    assert_eq!(h.query_role(1, 100), QueryRoleResult::Owned(5));
}

#[test]
fn take_ownership_respects_the_quota() {
    let mut h = Handler::new();
    for r in 0..MAX_OWNED_ROLES {
        assert!(h.create_role(1, 100 + r, format!("role{}", r), 5));
    }
    assert!(h.create_role_force(1, 999, "orphan".to_string(), None));
    // User 5 is at quota, so the claim is refused; user 6 may claim.
    assert!(!h.take_ownership(1, 999, 5));
    assert!(h.take_ownership(1, 999, 6));
}

#[test]
fn delete_role_is_conditioned_on_the_caller_owning_it() {
    let mut h = Handler::new();
    assert!(h.create_role(1, 100, "Gold".to_string(), 5));
    // Not the owner: zero rows removed, not an error.
    assert!(!h.delete_role(1, 100, 6));
    assert_eq!(h.query_role(1, 100), QueryRoleResult::Owned(5));
    assert!(h.delete_role(1, 100, 5));
    assert_eq!(h.query_role(1, 100), QueryRoleResult::NotFound);
    // Gone: a second delete removes nothing.
    assert!(!h.delete_role(1, 100, 5));
}

#[test]
fn list_returns_owned_names_in_table_order() {
    let mut h = Handler::new();
    assert!(h.create_role(1, 100, "alpha".to_string(), 5));
    assert!(h.create_role(1, 101, "beta".to_string(), 6));
    assert!(h.create_role(1, 102, "gamma".to_string(), 5));
    assert!(h.create_role(2, 103, "other-guild".to_string(), 5));
    assert_eq!(h.list(1, 5), vec!["alpha".to_string(), "gamma".to_string()]);
    assert_eq!(h.list_count(1, 5), 2);
    assert_eq!(h.list(1, 7), Vec::<String>::new());
}

#[test]
fn orphaned_lists_roles_without_an_owner() {
    let mut h = Handler::new();
    assert!(h.create_role_force(1, 100, "left-behind".to_string(), None));
    assert!(h.create_role(1, 101, "owned".to_string(), 5));
    assert!(h.create_role_force(1, 102, "abandoned".to_string(), None));
    assert_eq!(h.orphaned_count(1), 2);
    assert_eq!(
        h.orphaned(1),
        vec!["left-behind".to_string(), "abandoned".to_string()]
    );
    // Claiming one shrinks the orphan set.
    assert!(h.take_ownership(1, 100, 5));
    assert_eq!(h.orphaned_count(1), 1);
}

#[test]
fn query_role_distinguishes_unknown_orphan_and_owned() {
    let mut h = Handler::new();
    assert_eq!(h.query_role(1, 100), QueryRoleResult::NotFound);
    assert!(h.create_role_force(1, 100, "r".to_string(), None));
    assert_eq!(h.query_role(1, 100), QueryRoleResult::Orphan);
    assert!(h.take_ownership(1, 100, 9));
    assert_eq!(h.query_role(1, 100), QueryRoleResult::Owned(9));
}

#[test]
fn guild_rows_and_main_channel() {
    let mut h = Handler::new();
    assert_eq!(h.get_main_channel(1), None);
    // No guild row yet: the conditional update matches nothing.
    assert!(!h.set_main_channel(1, 42));
    assert!(h.create_guild(1));
    assert!(!h.create_guild(1));
    assert_eq!(h.get_main_channel(1), None);
    assert!(h.set_main_channel(1, 42));
    assert_eq!(h.get_main_channel(1), Some(42));
    assert!(h.set_main_channel(1, 43));
    assert_eq!(h.get_main_channel(1), Some(43));
    assert_eq!(h.get_main_channel(2), None);
}
