//! End-to-end command flows across the components.

use role_ledger::colour::choose_colour;
use role_ledger::cooldown::{CooldownGuard, CooldownKey, NEW_ROLE_COOLDOWN_SECONDS};
use role_ledger::guild_state::GuildState;
use role_ledger::store::{Handler, MAX_BALANCE, QueryRoleResult};

/// The create-role command: pick a colour, reserve the name in the
/// guild's dedup index, then insert the owned row under the quota.
fn create_named_role(
    h: &mut Handler,
    state: &mut GuildState,
    guild: u64,
    role_id: u64,
    name: &str,
    owner: u64,
    colour: &Option<Vec<u8>>,
) -> Result<u32, &'static str> {
    let Some(colour) = choose_colour(colour) else {
        return Err("invalid colour");
    };
    if !state.insert_role_name(name.to_string()) {
        return Err("duplicate name");
    }
    if !h.create_role(guild, role_id, name.to_string(), owner) {
        return Err("too many owned roles");
    }
    Ok(colour)
}

#[test]
fn creating_gold_succeeds_once_then_hits_the_name_dedup() {
    let mut h = Handler::new();
    let mut state = GuildState::new();
    // User 5 owns nothing yet (quota 0/20) and asks for no colour.
    let first = create_named_role(&mut h, &mut state, 1, 100, "Gold", 5, &None);
    let colour = first.expect("first create should succeed");
    assert!(colour <= 0xFFFFFF);
    assert_eq!(h.query_role(1, 100), QueryRoleResult::Owned(5));
    assert_eq!(h.list_count(1, 5), 1);
    // A second create with the same name is a policy refusal, and the
    // ledger is left as it was.
    let second = create_named_role(&mut h, &mut state, 1, 101, "Gold", 5, &None);
    assert_eq!(second, Err("duplicate name"));
    assert_eq!(h.query_role(1, 101), QueryRoleResult::NotFound);
    assert_eq!(h.list_count(1, 5), 1);
}

#[test]
fn a_bad_colour_rejects_the_create_before_any_state_changes() {
    let mut h = Handler::new();
    let mut state = GuildState::new();
    let r = create_named_role(&mut h, &mut state, 1, 100, "Gold", 5, &Some(b"#XYZ".to_vec()));
    assert_eq!(r, Err("invalid colour"));
    // The name was not reserved, so a correct retry goes through.
    let retry = create_named_role(&mut h, &mut state, 1, 100, "Gold", 5, &Some(b"#FF8000".to_vec()));
    assert_eq!(retry, Ok(0xFF8000));
}

#[test]
fn a_failed_external_action_is_rolled_back_locally() {
    let mut state = GuildState::new();
    state.add_managed_role(10);
    // Commit locally first; the external grant action then fails, and the
    // caller undoes the local commit, leaving the slot free.
    assert_eq!(state.grant(1, 10, 5000), Ok(()));
    assert!(state.rollback_grant(1, 10));
    assert_eq!(state.grant(1, 10, 5100), Ok(()));
}

#[test]
fn extending_a_role_costs_its_owner_money() {
    let mut h = Handler::new();
    assert!(h.create_role(1, 100, "Gold".to_string(), 5));
    // One unit of money buys one second of deadline: the extend command
    // debits the caller first and then advances the deadline.
    assert_eq!(h.withdraw(1, 5, 500), Some(MAX_BALANCE - 500));
    assert_eq!(h.extend_role(1, 100, 500), Some(500));
    // Drain the balance: with nothing left, the debit refuses and the
    // deadline is never touched.
    assert_eq!(h.withdraw(1, 5, MAX_BALANCE - 500), Some(0));
    assert_eq!(h.withdraw(1, 5, 100), None);
    assert_eq!(h.extend_role(1, 100, 0), Some(500));
}

#[test]
fn fresh_role_creation_is_gated_per_user() {
    let mut guard = CooldownGuard::new();
    let mut state = GuildState::new();
    let now: u64 = 1_000_000;
    // The first creation clears the cooldown and reserves the name.
    assert_eq!(
        guard.check(CooldownKey::User(5), NEW_ROLE_COOLDOWN_SECONDS, now),
        Ok(())
    );
    assert!(state.insert_role_name("Sunset".to_string()));
    // An immediate retry by the same user still has the whole window to
    // wait; another user is not affected.
    assert_eq!(
        guard.check(CooldownKey::User(5), NEW_ROLE_COOLDOWN_SECONDS, now + 10),
        Err(NEW_ROLE_COOLDOWN_SECONDS - 10)
    );
    assert_eq!(
        guard.check(CooldownKey::User(6), NEW_ROLE_COOLDOWN_SECONDS, now + 10),
        Ok(())
    );
}
