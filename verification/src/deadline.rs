//! Expiry deadlines and idempotent warning sweeps.
//!
//! A role's deadline is advanced only by extension, never decreased.
//! A warning sweep selects, flags and reports — in one transition — the
//! roles of a guild whose deadline falls inside a horizon and whose
//! warning flag of the given kind is still clear, so each role is
//! reported in at most one sweep outcome even under overlapping sweeps.
//! Two independent horizons (day-scale and hour-scale) run with
//! independent flags; a role can legitimately appear in both once each.

use vstd::prelude::*;

use crate::store::Handler;
use crate::store::RoleRecord;
use crate::store::has_role;
use crate::store::lemma_count_owned_same_owners;
use crate::store::lemma_count_owned_update;
use crate::store::lemma_role_update_frame;
use crate::store::count_owned;
use crate::store::role_at;
use crate::store::role_deadline;
use crate::store::role_index;
use crate::store::roles_unique;
use crate::store::MAX_OWNED_ROLES;

verus! {

/// Most seconds a single extension may add to a deadline.
pub const MAX_EXTEND_SECONDS: u64 = 60 * 60 * 24 * 7;

/// Which warning flag a sweep works with.
#[derive(Clone, Copy, PartialEq, Eq, Structural, Debug)]
pub enum WarningKind {
    Day,
    Hour,
}

/// Extension amounts are clamped to a maximum per call.
pub open spec fn spec_clamp_extend(seconds: u64) -> u64 {
    if seconds > MAX_EXTEND_SECONDS {
        MAX_EXTEND_SECONDS
    } else {
        seconds
    }
}

/// The deadline after adding `seconds` (clamped per call) onto the
/// stored deadline; a role that never had one extends from zero.  The
/// addition saturates, so a deadline never decreases.
pub open spec fn spec_new_deadline(stored: Option<u64>, seconds: u64) -> u64 {
    let base: u64 = match stored {
        Some(d) => d,
        None => 0,
    };
    if base + spec_clamp_extend(seconds) > u64::MAX {
        u64::MAX
    } else {
        (base + spec_clamp_extend(seconds)) as u64
    }
}

/// Law: a deadline is advanced only by monotonic addition: whatever was
/// stored, an extension never yields an earlier deadline.
pub proof fn lemma_deadline_never_decreases(stored: Option<u64>, seconds: u64)
    ensures
        (match stored {
            Some(d) => d,
            None => 0u64,
        }) <= spec_new_deadline(stored, seconds),
{
}

/// Whether the warning of `kind` has been sent for `rec`.
pub open spec fn warning_sent(rec: RoleRecord, kind: WarningKind) -> bool {
    match kind {
        WarningKind::Day => rec.warning_day_sent,
        WarningKind::Hour => rec.warning_hour_sent,
    }
}

/// `rec` with the warning flag of `kind` set.
pub open spec fn with_warning_sent(rec: RoleRecord, kind: WarningKind) -> RoleRecord {
    match kind {
        WarningKind::Day => RoleRecord { warning_day_sent: true, ..rec },
        WarningKind::Hour => RoleRecord { warning_hour_sent: true, ..rec },
    }
}

/// A sweep of guild `g` at `now` with `horizon` selects `rec` when its
/// deadline lies inside `(now, now + horizon]` and the warning of `kind`
/// has not been sent.
pub open spec fn due_for_warning(
    rec: RoleRecord,
    g: u64,
    now: u64,
    horizon: u64,
    kind: WarningKind,
) -> bool {
    &&& rec.guild_id == g
    &&& rec.deadline matches Some(d) && now < d <= now + horizon
    &&& !warning_sent(rec, kind)
}

/// What one sweep does to one row: flag it when due, else leave it.
pub open spec fn sweep_step(
    rec: RoleRecord,
    g: u64,
    now: u64,
    horizon: u64,
    kind: WarningKind,
) -> RoleRecord {
    if due_for_warning(rec, g, now, horizon, kind) {
        with_warning_sent(rec, kind)
    } else {
        rec
    }
}

/// The role ids one sweep reports, in table order.
pub open spec fn sweep_ids(
    roles: Seq<RoleRecord>,
    g: u64,
    now: u64,
    horizon: u64,
    kind: WarningKind,
) -> Seq<u64>
    decreases roles.len(),
{
    if roles.len() == 0 {
        Seq::empty()
    } else if due_for_warning(roles.last(), g, now, horizon, kind) {
        sweep_ids(roles.drop_last(), g, now, horizon, kind).push(roles.last().role_id)
    } else {
        sweep_ids(roles.drop_last(), g, now, horizon, kind)
    }
}

/// One step of collecting reported ids along a prefix.
proof fn lemma_sweep_ids_take_step(
    roles: Seq<RoleRecord>,
    i: int,
    g: u64,
    now: u64,
    horizon: u64,
    kind: WarningKind,
)
    requires
        0 <= i < roles.len(),
    ensures
        sweep_ids(roles.take(i + 1), g, now, horizon, kind) == if due_for_warning(
            roles[i],
            g,
            now,
            horizon,
            kind,
        ) {
            sweep_ids(roles.take(i), g, now, horizon, kind).push(roles[i].role_id)
        } else {
            sweep_ids(roles.take(i), g, now, horizon, kind)
        },
{
    assert(roles.take(i + 1).drop_last() =~= roles.take(i));
    assert(roles.take(i + 1).last() == roles[i]);
}

/// A sweep reports `rid` exactly when some row is due and carries it.
proof fn lemma_sweep_ids_contains(
    roles: Seq<RoleRecord>,
    g: u64,
    now: u64,
    horizon: u64,
    kind: WarningKind,
    rid: u64,
)
    ensures
        sweep_ids(roles, g, now, horizon, kind).contains(rid) <==> exists|i: int|
            0 <= i < roles.len() && due_for_warning(#[trigger] roles[i], g, now, horizon, kind)
                && roles[i].role_id == rid,
    decreases roles.len(),
{
    let ids = sweep_ids(roles, g, now, horizon, kind);
    if roles.len() == 0 {
        assert(!ids.contains(rid));
    } else {
        let prefix = roles.drop_last();
        let last = roles.last();
        lemma_sweep_ids_contains(prefix, g, now, horizon, kind, rid);
        let ids_prefix = sweep_ids(prefix, g, now, horizon, kind);
        assert(forall|i: int| 0 <= i < prefix.len() ==> prefix[i] == roles[i]);
        if ids_prefix.contains(rid) {
            let w = choose|w: int| 0 <= w < ids_prefix.len() && ids_prefix[w] == rid;
            if due_for_warning(last, g, now, horizon, kind) {
                assert(ids[w] == rid);
            }
            assert(ids.contains(rid));
        }
        if due_for_warning(last, g, now, horizon, kind) && last.role_id == rid {
            assert(ids[ids_prefix.len() as int] == rid);
            assert(ids.contains(rid));
            assert(roles[roles.len() - 1] == last);
        }
        if ids.contains(rid) {
            let w = choose|w: int| 0 <= w < ids.len() && ids[w] == rid;
            if due_for_warning(last, g, now, horizon, kind) {
                if w < ids_prefix.len() {
                    assert(ids_prefix[w] == rid);
                } else {
                    assert(last.role_id == rid);
                    assert(roles[roles.len() - 1] == last);
                }
            } else {
                assert(ids == ids_prefix);
            }
        }
        if exists|i: int|
            0 <= i < roles.len() && due_for_warning(#[trigger] roles[i], g, now, horizon, kind)
                && roles[i].role_id == rid {
            let i = choose|i: int|
                0 <= i < roles.len() && due_for_warning(
                    #[trigger] roles[i],
                    g,
                    now,
                    horizon,
                    kind,
                ) && roles[i].role_id == rid;
            if i < prefix.len() {
                assert(prefix[i] == roles[i]);
                assert(ids_prefix.contains(rid));
                if due_for_warning(last, g, now, horizon, kind) {
                    let w = choose|w: int| 0 <= w < ids_prefix.len() && ids_prefix[w] == rid;
                    assert(ids[w] == rid);
                }
                assert(ids.contains(rid));
            } else {
                assert(roles[i] == last);
                assert(ids[ids_prefix.len() as int] == rid);
                assert(ids.contains(rid));
            }
        }
    }
}

impl Handler {
    /// Add `seconds` (clamped to a per-call maximum) onto the deadline
    /// of role (`guild_id`, `role_id`) in one conditional update and
    /// return the new deadline; `None` when the role does not exist.
    /// The addition saturates, so the deadline never decreases.
    pub fn extend_role(&mut self, guild_id: u64, role_id: u64, seconds: u64) -> (r: Option<u64>)
        requires
            old(self).wf(),
        ensures
            final(self).wf(),
            r is Some <==> has_role(old(self).roles@, guild_id, role_id),
            r matches Some(d) ==> {
                &&& d == spec_new_deadline(
                    role_deadline(old(self).roles@, guild_id, role_id),
                    seconds,
                )
                &&& final(self).roles@ == old(self).roles@.update(
                    role_index(old(self).roles@, guild_id, role_id),
                    RoleRecord {
                        deadline: Some(d),
                        ..role_at(old(self).roles@, guild_id, role_id)
                    },
                )
                &&& role_deadline(final(self).roles@, guild_id, role_id) == Some(d)
                &&& (role_deadline(old(self).roles@, guild_id, role_id) matches Some(od) ==> od
                    <= d)
            },
            r is None ==> final(self).roles@ == old(self).roles@,
            forall|g2: u64, r2: u64|
                !(g2 == guild_id && r2 == role_id) ==> has_role(final(self).roles@, g2, r2)
                    == has_role(old(self).roles@, g2, r2) && (has_role(old(self).roles@, g2, r2)
                    ==> role_at(final(self).roles@, g2, r2) == role_at(old(self).roles@, g2, r2)),
            final(self).guilds@ == old(self).guilds@,
            final(self).user_roles@ == old(self).user_roles@,
            final(self).balances@ == old(self).balances@,
    {
        let ghost roles0 = self.roles@;
        let mut i: usize = 0;
        while i < self.roles.len()
            invariant
                self == old(self),
                old(self).wf(),
                self.roles@ == roles0,
                0 <= i <= roles0.len(),
                forall|j: int|
                    0 <= j < i ==> !(roles0[j].guild_id == guild_id && roles0[j].role_id
                        == role_id),
            decreases roles0.len() - i,
        {
            if self.roles[i].guild_id == guild_id && self.roles[i].role_id == role_id {
                proof {
                    assert(has_role(roles0, guild_id, role_id));
                    let w = role_index(roles0, guild_id, role_id);
                    assert(roles0[w].guild_id == guild_id && roles0[w].role_id == role_id);
                    assert(w == i);
                }
                let clamped: u64 = if seconds > MAX_EXTEND_SECONDS {
                    MAX_EXTEND_SECONDS
                } else {
                    seconds
                };
                let base: u64 = match self.roles[i].deadline {
                    Some(d) => d,
                    None => 0,
                };
                let new_deadline: u64 = if base > u64::MAX - clamped {
                    u64::MAX
                } else {
                    base + clamped
                };
                self.roles[i].deadline = Some(new_deadline);
                proof {
                    let newrec = self.roles@[i as int];
                    assert(self.roles@ == roles0.update(i as int, newrec));
                    assert(newrec == RoleRecord {
                        deadline: Some(new_deadline),
                        ..roles0[i as int]
                    });
                    lemma_role_update_frame(roles0, i as int, newrec);
                    assert forall|g2: u64, u2: u64| #[trigger] count_owned(self.roles@, g2, u2)
                        <= MAX_OWNED_ROLES by {
                        lemma_count_owned_update(roles0, i as int, newrec, g2, u2);
                        assert(count_owned(roles0, g2, u2) <= MAX_OWNED_ROLES);
                    }
                }
                return Some(new_deadline);
            }
            i += 1;
        }
        assert(!has_role(roles0, guild_id, role_id));
        None
    }

    /// Select the roles of `guild_id` whose deadline lies inside
    /// `(now, now + horizon]` and whose warning flag of `kind` is still
    /// clear, set that flag, and report their ids — all in one
    /// transition, so each role lands in at most one sweep outcome.
    pub fn sweep_warnings(&mut self, guild_id: u64, now: u64, horizon: u64, kind: WarningKind) -> (
        reported: Vec<u64>)
        requires
            old(self).wf(),
        ensures
            final(self).wf(),
            final(self).roles@.len() == old(self).roles@.len(),
            forall|i: int|
                0 <= i < old(self).roles@.len() ==> final(self).roles@[i] == sweep_step(
                    old(self).roles@[i],
                    guild_id,
                    now,
                    horizon,
                    kind,
                ),
            reported@ == sweep_ids(old(self).roles@, guild_id, now, horizon, kind),
            final(self).guilds@ == old(self).guilds@,
            final(self).user_roles@ == old(self).user_roles@,
            final(self).balances@ == old(self).balances@,
    {
        let mut reported: Vec<u64> = Vec::new();
        assert(reported@ =~= sweep_ids(self.roles@.take(0), guild_id, now, horizon, kind));
        let mut i: usize = 0;
        while i < self.roles.len()
            invariant
                old(self).wf(),
                self.roles@.len() == old(self).roles@.len(),
                0 <= i <= self.roles@.len(),
                forall|j: int|
                    0 <= j < i ==> self.roles@[j] == sweep_step(
                        old(self).roles@[j],
                        guild_id,
                        now,
                        horizon,
                        kind,
                    ),
                forall|j: int|
                    i <= j < self.roles@.len() ==> self.roles@[j] == old(self).roles@[j],
                reported@ == sweep_ids(old(self).roles@.take(i as int), guild_id, now, horizon, kind),
                self.guilds@ == old(self).guilds@,
                self.user_roles@ == old(self).user_roles@,
                self.balances@ == old(self).balances@,
            decreases self.roles@.len() - i,
        {
            proof {
                lemma_sweep_ids_take_step(old(self).roles@, i as int, guild_id, now, horizon, kind);
            }
            let flag_sent = match kind {
                WarningKind::Day => self.roles[i].warning_day_sent,
                WarningKind::Hour => self.roles[i].warning_hour_sent,
            };
            let in_horizon = match self.roles[i].deadline {
                Some(d) => d > now && d - now <= horizon,
                None => false,
            };
            if self.roles[i].guild_id == guild_id && in_horizon && !flag_sent {
                assert(due_for_warning(old(self).roles@[i as int], guild_id, now, horizon, kind));
                reported.push(self.roles[i].role_id);
                match kind {
                    WarningKind::Day => {
                        self.roles[i].warning_day_sent = true;
                    },
                    WarningKind::Hour => {
                        self.roles[i].warning_hour_sent = true;
                    },
                }
                assert(self.roles@[i as int] == sweep_step(
                    old(self).roles@[i as int],
                    guild_id,
                    now,
                    horizon,
                    kind,
                ));
            } else {
                assert(!due_for_warning(old(self).roles@[i as int], guild_id, now, horizon, kind));
            }
            i += 1;
        }
        proof {
            assert(old(self).roles@.take(old(self).roles@.len() as int) =~= old(self).roles@);
            assert forall|g2: u64, u2: u64| #[trigger] count_owned(self.roles@, g2, u2)
                <= MAX_OWNED_ROLES by {
                assert forall|j: int| 0 <= j < old(self).roles@.len() implies self.roles@[j].guild_id
                    == old(self).roles@[j].guild_id && self.roles@[j].owner_user_id == old(
                    self,
                ).roles@[j].owner_user_id by {
                    assert(self.roles@[j] == sweep_step(
                        old(self).roles@[j],
                        guild_id,
                        now,
                        horizon,
                        kind,
                    ));
                }
                lemma_count_owned_same_owners(old(self).roles@, self.roles@, g2, u2);
                assert(count_owned(old(self).roles@, g2, u2) <= MAX_OWNED_ROLES);
            }
            assert forall|a: int, b: int|
                0 <= a < b < self.roles@.len() implies !(self.roles@[a].guild_id
                == self.roles@[b].guild_id && self.roles@[a].role_id == self.roles@[b].role_id) by {
                assert(self.roles@[a] == sweep_step(old(self).roles@[a], guild_id, now, horizon, kind));
                assert(self.roles@[b] == sweep_step(old(self).roles@[b], guild_id, now, horizon, kind));
            }
        }
        reported
    }
}

/// Law: warning sweeps are idempotent by construction.  When one sweep
/// of `kind` reports a role, no later sweep of the same kind on the
/// swept table — whatever its time and horizon, in particular an
/// immediate second run of the same sweep — reports that role again:
/// each eligible role is reported in at most one of the two outcomes
/// combined.
pub proof fn lemma_sweep_reports_at_most_once(
    roles: Seq<RoleRecord>,
    swept: Seq<RoleRecord>,
    g: u64,
    now1: u64,
    horizon1: u64,
    now2: u64,
    horizon2: u64,
    kind: WarningKind,
    rid: u64,
)
    requires
        roles_unique(roles),
        swept.len() == roles.len(),
        forall|i: int|
            0 <= i < roles.len() ==> swept[i] == sweep_step(roles[i], g, now1, horizon1, kind),
        sweep_ids(roles, g, now1, horizon1, kind).contains(rid),
    ensures
        !sweep_ids(swept, g, now2, horizon2, kind).contains(rid),
{
    lemma_sweep_ids_contains(roles, g, now1, horizon1, kind, rid);
    lemma_sweep_ids_contains(swept, g, now2, horizon2, kind, rid);
    let i = choose|i: int|
        0 <= i < roles.len() && due_for_warning(#[trigger] roles[i], g, now1, horizon1, kind)
            && roles[i].role_id == rid;
    assert(swept[i] == with_warning_sent(roles[i], kind));
    assert(warning_sent(swept[i], kind));
    if sweep_ids(swept, g, now2, horizon2, kind).contains(rid) {
        let j = choose|j: int|
            0 <= j < swept.len() && due_for_warning(#[trigger] swept[j], g, now2, horizon2, kind)
                && swept[j].role_id == rid;
        assert(swept[j] == sweep_step(roles[j], g, now1, horizon1, kind));
        assert(roles[j].role_id == rid && roles[j].guild_id == g);
        assert(roles[i].guild_id == g);
        assert(i == j);
        assert(!warning_sent(swept[j], kind));
        assert(false);
    }
}

} // verus!
