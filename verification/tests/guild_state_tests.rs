use role_ledger::guild_cache::GuildCache;
use role_ledger::guild_state::{
    GRANT_COOLDOWN_SECONDS, GrantError, GuildState, RevokeError, RoleListing,
};

fn listing(role_id: u64, name: &str, permission_bits: u64) -> RoleListing {
    RoleListing { role_id, name: name.to_string(), permission_bits }
}

#[test]
fn grant_is_exactly_once() {
    let mut state = GuildState::new();
    state.add_managed_role(10);
    assert_eq!(state.grant(1, 10, 5000), Ok(()));
    // The second attempt for the same (user, role) pair is refused.
    assert_eq!(state.grant(1, 10, 6000), Err(GrantError::AlreadyGranted));
    // Another user or another role is unaffected.
    assert_eq!(state.grant(2, 10, 6000), Ok(()));
}

#[test]
fn grant_of_unmanaged_role_is_refused() {
    let mut state = GuildState::new();
    state.add_managed_role(10);
    assert_eq!(state.grant(1, 99, 5000), Err(GrantError::RoleNotManaged));
}

#[test]
fn revoke_respects_the_cooldown() {
    let now: u64 = 10_000_000;
    let mut state = GuildState::new();
    state.add_managed_role(10);
    assert_eq!(state.grant(1, 10, now), Ok(()));
    // Immediately after the grant the full minimum age remains.
    assert_eq!(
        state.revoke(1, 10, GRANT_COOLDOWN_SECONDS, now),
        Err(RevokeError::CooldownActive(GRANT_COOLDOWN_SECONDS))
    );
    // One second short of the minimum age.
    assert_eq!(
        state.revoke(1, 10, GRANT_COOLDOWN_SECONDS, now + GRANT_COOLDOWN_SECONDS - 1),
        Err(RevokeError::CooldownActive(1))
    );
    // Once the minimum age has elapsed the revoke succeeds exactly once.
    assert_eq!(
        state.revoke(1, 10, GRANT_COOLDOWN_SECONDS, now + GRANT_COOLDOWN_SECONDS),
        Ok(now)
    );
    assert_eq!(
        state.revoke(1, 10, GRANT_COOLDOWN_SECONDS, now + GRANT_COOLDOWN_SECONDS),
        Err(RevokeError::NotGranted)
    );
}

#[test]
fn revoke_of_absent_grant_is_refused() {
    let mut state = GuildState::new();
    state.add_managed_role(10);
    assert_eq!(state.revoke(1, 10, 100, 5000), Err(RevokeError::NotGranted));
}

#[test]
fn rollback_undoes_a_committed_grant() {
    let mut state = GuildState::new();
    state.add_managed_role(10);
    assert_eq!(state.grant(1, 10, 5000), Ok(()));
    // The external action failed: the caller rolls the local commit back.
    assert!(state.rollback_grant(1, 10));
    assert_eq!(state.revoke(1, 10, 0, 5000), Err(RevokeError::NotGranted));
    // A fresh grant goes through again.
    assert_eq!(state.grant(1, 10, 7000), Ok(()));
    // Rolling back a grant that is not there reports so.
    assert!(!state.rollback_grant(2, 10));
}

#[test]
fn role_names_deduplicate_case_sensitively() {
    let mut state = GuildState::new();
    assert!(state.insert_role_name("Gold".to_string()));
    assert!(!state.insert_role_name("Gold".to_string()));
    assert!(state.insert_role_name("gold".to_string()));
}

#[test]
fn hydration_discards_roles_with_permissions() {
    let listings = vec![
        listing(10, "Gold", 0),
        listing(11, "Moderator", 8),
        listing(12, "Silver", 0),
    ];
    let mut state = GuildState::hydrate(&listings);
    assert_eq!(state.grant(1, 10, 0), Ok(()));
    assert_eq!(state.grant(1, 12, 0), Ok(()));
    // The role with permission bits was never taken under management.
    assert_eq!(state.grant(1, 11, 0), Err(GrantError::RoleNotManaged));
    // Its name was not indexed either.
    assert!(state.insert_role_name("Moderator".to_string()));
    assert!(!state.insert_role_name("Gold".to_string()));
}

#[test]
fn seeded_grants_are_backdated_for_immediate_revoke() {
    let now: u64 = 20_000_000;
    let backdated = now - GRANT_COOLDOWN_SECONDS;
    let listings = vec![listing(10, "Gold", 0), listing(11, "Admin", 1)];
    let mut state = GuildState::hydrate(&listings);
    // Member 5 carries both roles; only the managed one is seeded.
    state.seed_member(5, &vec![10, 11], backdated);
    // The seeded grant is immediately eligible for revoke.
    assert_eq!(state.revoke(5, 10, GRANT_COOLDOWN_SECONDS, now), Ok(backdated));
    assert_eq!(
        state.revoke(5, 11, GRANT_COOLDOWN_SECONDS, now),
        Err(RevokeError::NotGranted)
    );
}

#[test]
fn seeding_keeps_an_existing_grant_stamp() {
    let mut state = GuildState::new();
    state.add_managed_role(10);
    assert_eq!(state.grant(5, 10, 9000), Ok(()));
    state.seed_member(5, &vec![10], 100);
    // The pre-existing grant keeps its stamp: revoking right after 9000
    // still reports the wait from 9000, not from 100.
    assert_eq!(state.revoke(5, 10, 50, 9010), Err(RevokeError::CooldownActive(40)));
}

#[test]
fn cache_hydrates_each_guild_once() {
    let mut cache = GuildCache::new();
    let listings = vec![listing(10, "Gold", 0)];
    assert!(cache.get_or_hydrate(77, &listings));
    // The second caller finds the state already there.
    assert!(!cache.get_or_hydrate(77, &listings));
    // A different guild hydrates independently.
    assert!(cache.get_or_hydrate(78, &listings));
}

#[test]
fn cache_routes_grants_to_the_right_guild() {
    let mut cache = GuildCache::new();
    cache.get_or_hydrate(77, &vec![listing(10, "Gold", 0)]);
    cache.get_or_hydrate(78, &vec![listing(10, "Gold", 0)]);
    assert_eq!(cache.grant(77, 1, 10, 5000), Ok(()));
    // The same pair in the other guild is its own grant slot.
    assert_eq!(cache.grant(78, 1, 10, 5000), Ok(()));
    assert_eq!(cache.grant(77, 1, 10, 5000), Err(GrantError::AlreadyGranted));
    assert_eq!(cache.revoke(77, 1, 10, 0, 5000), Ok(5000));
    assert_eq!(cache.revoke(77, 1, 10, 0, 5000), Err(RevokeError::NotGranted));
    assert_eq!(cache.revoke(78, 1, 10, 0, 5000), Ok(5000));
}
