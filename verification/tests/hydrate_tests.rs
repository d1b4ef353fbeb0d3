use role_ledger::guild_state::{MemberListing, RoleListing};
use role_ledger::store::{Handler, MAX_BALANCE, QueryRoleResult};

fn listing(role_id: u64, name: &str, permission_bits: u64) -> RoleListing {
    RoleListing { role_id, name: name.to_string(), permission_bits }
}

fn member(user_id: u64, role_ids: Vec<u64>) -> MemberListing {
    MemberListing { user_id, role_ids }
}

#[test]
fn import_brings_in_permissionless_roles_members_and_their_roles() {
    let mut h = Handler::new();
    let listings = vec![
        listing(10, "Gold", 0),
        listing(11, "Moderator", 8),
        listing(12, "Silver", 0),
    ];
    let members = vec![member(5, vec![10, 11]), member(6, vec![12])];
    h.update_database(1, &listings, &members);
    // Imported roles are orphans; the permissioned one was discarded.
    assert_eq!(h.query_role(1, 10), QueryRoleResult::Orphan);
    assert_eq!(h.query_role(1, 12), QueryRoleResult::Orphan);
    assert_eq!(h.query_role(1, 11), QueryRoleResult::NotFound);
    // Members got balance rows at the default.
    assert_eq!(h.get_balance(1, 5), MAX_BALANCE);
    assert_eq!(h.get_balance(1, 6), MAX_BALANCE);
    // Worn roles were recorded only for managed roles.
    assert_eq!(h.roles_to_reinstate(1, 5), vec![10]);
    assert_eq!(h.roles_to_reinstate(1, 6), vec![12]);
    // The guild row exists now.
    assert!(!h.create_guild(1));
}

#[test]
fn import_converges_when_run_twice() {
    let mut h = Handler::new();
    let listings = vec![listing(10, "Gold", 0)];
    let members = vec![member(5, vec![10])];
    h.update_database(1, &listings, &members);
    // Claim the role and spend some money between the two imports.
    assert!(h.take_ownership(1, 10, 5));
    assert_eq!(h.withdraw(1, 5, 100), Some(MAX_BALANCE - 100));
    h.update_database(1, &listings, &members);
    // Nothing was duplicated and nothing was reset.
    assert_eq!(h.orphaned_count(1), 0);
    assert_eq!(h.query_role(1, 10), QueryRoleResult::Owned(5));
    assert_eq!(h.get_balance(1, 5), MAX_BALANCE - 100);
    assert_eq!(h.roles_to_reinstate(1, 5), vec![10]);
}

#[test]
fn add_role_is_idempotent_once() {
    let mut h = Handler::new();
    assert!(h.add_role(1, 10, 5));
    // Exactly one row per (guild, role, user): the second add is refused.
    assert!(!h.add_role(1, 10, 5));
    assert_eq!(h.roles_to_reinstate(1, 5), vec![10]);
}

#[test]
fn remove_role_from_someone_else_is_unconditional() {
    let mut h = Handler::new();
    assert!(h.add_role(1, 10, 5));
    assert!(h.remove_role(1, 10, 5, 6));
    assert_eq!(h.roles_to_reinstate(1, 5), Vec::<u64>::new());
    // Nothing left to remove.
    assert!(!h.remove_role(1, 10, 5, 6));
}

#[test]
fn removing_a_role_from_oneself_requires_owning_it() {
    let mut h = Handler::new();
    assert!(h.create_role(1, 10, "Gold".to_string(), 6));
    assert!(h.add_role(1, 10, 5));
    // User 5 wears a role owned by someone else: self-removal is refused.
    assert!(!h.remove_role(1, 10, 5, 5));
    assert_eq!(h.roles_to_reinstate(1, 5), vec![10]);
    // The owner wearing their own role may strip it from themselves.
    assert!(h.add_role(1, 10, 6));
    assert!(h.remove_role(1, 10, 6, 6));
}

#[test]
fn reinstatement_lists_only_the_guild_and_user_asked_for() {
    let mut h = Handler::new();
    assert!(h.add_role(1, 10, 5));
    assert!(h.add_role(1, 11, 5));
    assert!(h.add_role(1, 12, 6));
    assert!(h.add_role(2, 13, 5));
    assert_eq!(h.roles_to_reinstate(1, 5), vec![10, 11]);
    assert_eq!(h.roles_to_reinstate(2, 5), vec![13]);
    assert_eq!(h.roles_to_reinstate(3, 5), Vec::<u64>::new());
}

#[test]
fn rollback_undoes_a_worn_role_unconditionally() {
    let mut h = Handler::new();
    assert!(h.create_role(1, 10, "Gold".to_string(), 6));
    assert!(h.add_role(1, 10, 5));
    // The wearer does not own the role, and a self-removal command would
    // be refused — but compensation for a failed external action removes
    // the row regardless.
    assert!(!h.remove_role(1, 10, 5, 5));
    assert!(h.rollback_add_role(1, 10, 5));
    assert!(!h.rollback_add_role(1, 10, 5));
}
