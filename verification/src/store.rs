//! Model of the durable store behind the ledger: the guild, role,
//! user-role and balance tables, with their uniqueness and quota
//! invariants.
//!
//! Each operation elsewhere in the crate is one conditional write against
//! this state, mirroring a single atomic statement of a relational
//! store: the condition (quota subquery, ownership check, sufficient
//! balance) is evaluated together with the mutation, so no two-step
//! check-then-write race exists in the model.

use vstd::prelude::*;

verus! {

/// Most roles a single user may own concurrently in one guild.
pub const MAX_OWNED_ROLES: u64 = 20;

/// Ceiling of every balance; unseen users default to it.
pub const MAX_BALANCE: u64 = 1_000_000;

/// One guild row: the guild and its optional main channel.
#[derive(Clone, Copy, Debug)]
pub struct GuildRow {
    pub guild_id: u64,
    pub main_channel_id: Option<u64>,
}

/// One role row: the durable record of a managed role.
#[derive(Debug)]
pub struct RoleRecord {
    pub role_id: u64,
    pub guild_id: u64,
    pub name: String,
    /// The user permitted to delete or extend the role; absent = orphan.
    pub owner_user_id: Option<u64>,
    /// Expiry deadline; advanced only by extension, never decreased.
    pub deadline: Option<u64>,
    pub warning_day_sent: bool,
    pub warning_hour_sent: bool,
}

/// One user-role row: `user_id` currently wears `role_id` in `guild_id`
/// (distinct from who owns the role).
#[derive(Clone, Copy, Debug)]
pub struct UserRoleRow {
    pub user_id: u64,
    pub role_id: u64,
    pub guild_id: u64,
}

/// One balance row.
#[derive(Clone, Copy, Debug)]
pub struct BalanceRow {
    pub user_id: u64,
    pub guild_id: u64,
    pub balance: u64,
}

/// Who, if anyone, owns a role.
#[derive(Clone, Copy, PartialEq, Eq, Structural, Debug)]
pub enum QueryRoleResult {
    Owned(u64),
    Orphan,
    NotFound,
}

/// The durable ledger state: four tables.
pub struct Handler {
    pub guilds: Vec<GuildRow>,
    pub roles: Vec<RoleRecord>,
    pub user_roles: Vec<UserRoleRow>,
    pub balances: Vec<BalanceRow>,
}

/// True when a guild row for `g` exists.
pub open spec fn has_guild(guilds: Seq<GuildRow>, g: u64) -> bool {
    exists|i: int| 0 <= i < guilds.len() && guilds[i].guild_id == g
}

/// The index of the guild row for `g` (unique under `Handler::wf`).
pub open spec fn guild_index(guilds: Seq<GuildRow>, g: u64) -> int {
    choose|i: int| 0 <= i < guilds.len() && guilds[i].guild_id == g
}

/// The main channel recorded for `g`, when a row exists and it is set.
pub open spec fn spec_main_channel(guilds: Seq<GuildRow>, g: u64) -> Option<u64> {
    if has_guild(guilds, g) {
        guilds[guild_index(guilds, g)].main_channel_id
    } else {
        None
    }
}

/// True when a role row keyed (`g`, `r`) exists.
pub open spec fn has_role(roles: Seq<RoleRecord>, g: u64, r: u64) -> bool {
    exists|i: int| 0 <= i < roles.len() && roles[i].guild_id == g && roles[i].role_id == r
}

/// The index of the role row keyed (`g`, `r`) (unique under wf).
pub open spec fn role_index(roles: Seq<RoleRecord>, g: u64, r: u64) -> int {
    choose|i: int| 0 <= i < roles.len() && roles[i].guild_id == g && roles[i].role_id == r
}

/// The owner recorded for role (`g`, `r`); meaningful when it exists.
pub open spec fn role_owner(roles: Seq<RoleRecord>, g: u64, r: u64) -> Option<u64> {
    roles[role_index(roles, g, r)].owner_user_id
}

/// The deadline recorded for role (`g`, `r`); meaningful when it exists.
pub open spec fn role_deadline(roles: Seq<RoleRecord>, g: u64, r: u64) -> Option<u64> {
    roles[role_index(roles, g, r)].deadline
}

/// True when `rec` is a role of guild `g` owned by `u`.
pub open spec fn owns(rec: RoleRecord, g: u64, u: u64) -> bool {
    rec.guild_id == g && rec.owner_user_id == Some(u)
}

/// True when `rec` is an orphaned role of guild `g`.
pub open spec fn orphan_in(rec: RoleRecord, g: u64) -> bool {
    rec.guild_id == g && rec.owner_user_id is None
}

/// How many roles of guild `g` user `u` owns.
pub open spec fn count_owned(roles: Seq<RoleRecord>, g: u64, u: u64) -> nat
    decreases roles.len(),
{
    if roles.len() == 0 {
        0
    } else {
        count_owned(roles.drop_last(), g, u) + if owns(roles.last(), g, u) {
            1nat
        } else {
            0nat
        }
    }
}

/// How many roles of guild `g` are orphaned.
pub open spec fn count_orphaned(roles: Seq<RoleRecord>, g: u64) -> nat
    decreases roles.len(),
{
    if roles.len() == 0 {
        0
    } else {
        count_orphaned(roles.drop_last(), g) + if orphan_in(roles.last(), g) {
            1nat
        } else {
            0nat
        }
    }
}

/// The names of the roles of guild `g` owned by `u`, in table order.
pub open spec fn owned_names(roles: Seq<RoleRecord>, g: u64, u: u64) -> Seq<Seq<char>>
    decreases roles.len(),
{
    if roles.len() == 0 {
        Seq::empty()
    } else if owns(roles.last(), g, u) {
        owned_names(roles.drop_last(), g, u).push(roles.last().name@)
    } else {
        owned_names(roles.drop_last(), g, u)
    }
}

/// The names of the orphaned roles of guild `g`, in table order.
pub open spec fn orphaned_names(roles: Seq<RoleRecord>, g: u64) -> Seq<Seq<char>>
    decreases roles.len(),
{
    if roles.len() == 0 {
        Seq::empty()
    } else if orphan_in(roles.last(), g) {
        orphaned_names(roles.drop_last(), g).push(roles.last().name@)
    } else {
        orphaned_names(roles.drop_last(), g)
    }
}

/// True when a user-role row for the triple exists.
pub open spec fn has_user_role(rows: Seq<UserRoleRow>, g: u64, r: u64, u: u64) -> bool {
    exists|i: int|
        0 <= i < rows.len() && rows[i].guild_id == g && rows[i].role_id == r && rows[i].user_id
            == u
}

/// True when a balance row for (`g`, `u`) exists.
pub open spec fn has_balance_row(rows: Seq<BalanceRow>, g: u64, u: u64) -> bool {
    exists|i: int| 0 <= i < rows.len() && rows[i].guild_id == g && rows[i].user_id == u
}

/// The index of the balance row for (`g`, `u`) (unique under wf).
pub open spec fn balance_index(rows: Seq<BalanceRow>, g: u64, u: u64) -> int {
    choose|i: int| 0 <= i < rows.len() && rows[i].guild_id == g && rows[i].user_id == u
}

/// The balance of (`g`, `u`): the stored value, or the ceiling for a
/// user without a row (new members start rich).
pub open spec fn spec_balance(rows: Seq<BalanceRow>, g: u64, u: u64) -> u64 {
    if has_balance_row(rows, g, u) {
        rows[balance_index(rows, g, u)].balance
    } else {
        MAX_BALANCE
    }
}

/// The role row keyed (`g`, `r`); meaningful when it exists.
pub open spec fn role_at(roles: Seq<RoleRecord>, g: u64, r: u64) -> RoleRecord {
    roles[role_index(roles, g, r)]
}

/// Each guild appears in at most one row.
pub open spec fn guilds_unique(guilds: Seq<GuildRow>) -> bool {
    forall|i: int, j: int| 0 <= i < j < guilds.len() ==> guilds[i].guild_id != guilds[j].guild_id
}

/// Each (guild, role) key appears in at most one row.
pub open spec fn roles_unique(roles: Seq<RoleRecord>) -> bool {
    forall|i: int, j: int|
        0 <= i < j < roles.len() ==> !(roles[i].guild_id == roles[j].guild_id && roles[i].role_id
            == roles[j].role_id)
}

/// Each (guild, role, user) triple appears in at most one row.
pub open spec fn user_roles_unique(rows: Seq<UserRoleRow>) -> bool {
    forall|i: int, j: int|
        0 <= i < j < rows.len() ==> !(rows[i].guild_id == rows[j].guild_id && rows[i].role_id
            == rows[j].role_id && rows[i].user_id == rows[j].user_id)
}

/// Each (guild, user) pair appears in at most one row.
pub open spec fn balances_unique(rows: Seq<BalanceRow>) -> bool {
    forall|i: int, j: int|
        0 <= i < j < rows.len() ==> !(rows[i].guild_id == rows[j].guild_id && rows[i].user_id
            == rows[j].user_id)
}

impl Handler {
    /// Table invariants: unique keys everywhere, balances within the
    /// ceiling, and no user over the ownership quota in any guild.
    pub open spec fn wf(self) -> bool {
        &&& guilds_unique(self.guilds@)
        &&& roles_unique(self.roles@)
        &&& user_roles_unique(self.user_roles@)
        &&& balances_unique(self.balances@)
        &&& forall|i: int| 0 <= i < self.balances@.len() ==> self.balances@[i].balance
            <= MAX_BALANCE
        &&& forall|g: u64, u: u64| #[trigger] count_owned(self.roles@, g, u) <= MAX_OWNED_ROLES
    }

    /// An empty store.
    pub fn new() -> (handler: Self)
        ensures
            handler.wf(),
            handler.guilds@.len() == 0,
            handler.roles@.len() == 0,
            handler.user_roles@.len() == 0,
            handler.balances@.len() == 0,
    {
        let handler = Handler {
            guilds: Vec::new(),
            roles: Vec::new(),
            user_roles: Vec::new(),
            balances: Vec::new(),
        };
        proof {
            assert forall|g: u64, u: u64| #[trigger] count_owned(handler.roles@, g, u)
                <= MAX_OWNED_ROLES by {
                assert(count_owned(handler.roles@, g, u) == 0);
            }
        }
        handler
    }

    /// Insert a guild row for `guild_id` unless one exists.  Returns
    /// whether a row was inserted.
    pub fn create_guild(&mut self, guild_id: u64) -> (inserted: bool)
        requires
            old(self).wf(),
        ensures
            final(self).wf(),
            inserted == !has_guild(old(self).guilds@, guild_id),
            inserted ==> final(self).guilds@ == old(self).guilds@.push(
                GuildRow { guild_id, main_channel_id: None },
            ),
            !inserted ==> final(self).guilds@ == old(self).guilds@,
            has_guild(final(self).guilds@, guild_id),
            final(self).roles@ == old(self).roles@,
            final(self).user_roles@ == old(self).user_roles@,
            final(self).balances@ == old(self).balances@,
    {
        let ghost guilds0 = self.guilds@;
        let mut i: usize = 0;
        while i < self.guilds.len()
            invariant
                self == old(self),
                old(self).wf(),
                self.guilds@ == guilds0,
                0 <= i <= guilds0.len(),
                forall|j: int| 0 <= j < i ==> guilds0[j].guild_id != guild_id,
            decreases guilds0.len() - i,
        {
            if self.guilds[i].guild_id == guild_id {
                assert(has_guild(guilds0, guild_id));
                return false;
            }
            i += 1;
        }
        assert(!has_guild(guilds0, guild_id));
        self.guilds.push(GuildRow { guild_id, main_channel_id: None });
        assert(self.guilds@[guilds0.len() as int].guild_id == guild_id);
        assert(has_guild(self.guilds@, guild_id));
        true
    }

    /// Point the guild's main channel at `channel_id`; no effect when no
    /// guild row exists (the conditional update matches zero rows).
    pub fn set_main_channel(&mut self, guild_id: u64, channel_id: u64) -> (updated: bool)
        requires
            old(self).wf(),
        ensures
            final(self).wf(),
            updated == has_guild(old(self).guilds@, guild_id),
            updated ==> final(self).guilds@ == old(self).guilds@.update(
                guild_index(old(self).guilds@, guild_id),
                GuildRow { guild_id, main_channel_id: Some(channel_id) },
            ) && spec_main_channel(final(self).guilds@, guild_id) == Some(channel_id),
            !updated ==> final(self).guilds@ == old(self).guilds@,
            forall|g: u64|
                g != guild_id ==> spec_main_channel(final(self).guilds@, g) == spec_main_channel(
                    old(self).guilds@,
                    g,
                ),
            final(self).roles@ == old(self).roles@,
            final(self).user_roles@ == old(self).user_roles@,
            final(self).balances@ == old(self).balances@,
    {
        let ghost guilds0 = self.guilds@;
        let mut i: usize = 0;
        while i < self.guilds.len()
            invariant
                self == old(self),
                old(self).wf(),
                self.guilds@ == guilds0,
                0 <= i <= guilds0.len(),
                forall|j: int| 0 <= j < i ==> guilds0[j].guild_id != guild_id,
            decreases guilds0.len() - i,
        {
            if self.guilds[i].guild_id == guild_id {
                proof {
                    assert(has_guild(guilds0, guild_id));
                    let w = guild_index(guilds0, guild_id);
                    assert(guilds0[w].guild_id == guild_id);
                    assert(w == i);
                }
                self.guilds[i] = GuildRow { guild_id, main_channel_id: Some(channel_id) };
                proof {
                    let updated = self.guilds@;
                    assert(updated[i as int].guild_id == guild_id);
                    assert(has_guild(updated, guild_id));
                    let v = guild_index(updated, guild_id);
                    assert(updated[v].guild_id == guild_id);
                    assert forall|w2: int|
                        0 <= w2 < updated.len() && updated[w2].guild_id == guild_id implies w2
                        == i as int by {
                        if w2 != i as int {
                            assert(updated[w2] == guilds0[w2]);
                        }
                    }
                    assert(v == i as int);
                    assert forall|g: u64|
                        g != guild_id implies spec_main_channel(updated, g) == spec_main_channel(
                        guilds0,
                        g,
                    ) by {
                        lemma_guild_update_frame(guilds0, i as int, updated, g);
                    }
                }
                return true;
            }
            i += 1;
        }
        assert(!has_guild(guilds0, guild_id));
        false
    }

    /// The guild's main channel, when one has been set.
    pub fn get_main_channel(&self, guild_id: u64) -> (r: Option<u64>)
        requires
            self.wf(),
        ensures
            r == spec_main_channel(self.guilds@, guild_id),
    {
        let mut i: usize = 0;
        while i < self.guilds.len()
            invariant
                self.wf(),
                0 <= i <= self.guilds@.len(),
                forall|j: int| 0 <= j < i ==> self.guilds@[j].guild_id != guild_id,
            decreases self.guilds@.len() - i,
        {
            if self.guilds[i].guild_id == guild_id {
                proof {
                    assert(has_guild(self.guilds@, guild_id));
                    let w = guild_index(self.guilds@, guild_id);
                    assert(self.guilds@[w].guild_id == guild_id);
                    assert(w == i);
                }
                return self.guilds[i].main_channel_id;
            }
            i += 1;
        }
        assert(!has_guild(self.guilds@, guild_id));
        None
    }
}

/// Updating one guild row in place (same key) leaves every other
/// guild's lookup unchanged.
proof fn lemma_guild_update_frame(guilds: Seq<GuildRow>, i: int, updated: Seq<GuildRow>, g: u64)
    requires
        forall|a: int, b: int|
            0 <= a < b < guilds.len() ==> guilds[a].guild_id != guilds[b].guild_id,
        0 <= i < guilds.len(),
        updated.len() == guilds.len(),
        updated[i].guild_id == guilds[i].guild_id,
        forall|w: int| 0 <= w < guilds.len() && w != i ==> updated[w] == guilds[w],
        g != guilds[i].guild_id,
    ensures
        spec_main_channel(updated, g) == spec_main_channel(guilds, g),
{
    assert forall|w: int| 0 <= w < updated.len() && updated[w].guild_id == g implies guilds[w].guild_id
        == g by {
        if w != i {
            assert(updated[w] == guilds[w]);
        }
    }
    assert forall|w: int| 0 <= w < guilds.len() && guilds[w].guild_id == g implies updated[w].guild_id
        == g by {
        if w != i {
            assert(updated[w] == guilds[w]);
        }
    }
    if has_guild(guilds, g) {
        let w = guild_index(guilds, g);
        assert(updated[w].guild_id == g);
        assert(has_guild(updated, g));
        let v = guild_index(updated, g);
        assert(guilds[v].guild_id == g);
        assert(updated[v] == guilds[v] || v == i);
        assert(v != i);
        assert(w != i);
        assert(updated[v].main_channel_id == guilds[v].main_channel_id);
        if v != w {
            assert(guilds[v].guild_id == guilds[w].guild_id);
        }
    } else {
        assert(!has_guild(updated, g));
    }
}


/// One step of counting owned roles along a prefix.
pub(crate) proof fn lemma_count_owned_take_step(roles: Seq<RoleRecord>, i: int, g: u64, u: u64)
    requires
        0 <= i < roles.len(),
    ensures
        count_owned(roles.take(i + 1), g, u) == count_owned(roles.take(i), g, u) + if owns(
            roles[i],
            g,
            u,
        ) {
            1nat
        } else {
            0nat
        },
{
    assert(roles.take(i + 1).drop_last() =~= roles.take(i));
    assert(roles.take(i + 1).last() == roles[i]);
}

/// One step of counting orphaned roles along a prefix.
pub(crate) proof fn lemma_count_orphaned_take_step(roles: Seq<RoleRecord>, i: int, g: u64)
    requires
        0 <= i < roles.len(),
    ensures
        count_orphaned(roles.take(i + 1), g) == count_orphaned(roles.take(i), g) + if orphan_in(
            roles[i],
            g,
        ) {
            1nat
        } else {
            0nat
        },
{
    assert(roles.take(i + 1).drop_last() =~= roles.take(i));
    assert(roles.take(i + 1).last() == roles[i]);
}

/// Appending a row adds its contribution to each ownership count.
pub(crate) proof fn lemma_count_owned_push(roles: Seq<RoleRecord>, x: RoleRecord, g: u64, u: u64)
    ensures
        count_owned(roles.push(x), g, u) == count_owned(roles, g, u) + if owns(x, g, u) {
            1nat
        } else {
            0nat
        },
{
    assert(roles.push(x).drop_last() =~= roles);
    assert(roles.push(x).last() == x);
}

/// Replacing row `i` swaps its contribution for the new row's in each
/// ownership count.
pub(crate) proof fn lemma_count_owned_update(
    roles: Seq<RoleRecord>,
    i: int,
    x: RoleRecord,
    g: u64,
    u: u64,
)
    requires
        0 <= i < roles.len(),
    ensures
        count_owned(roles.update(i, x), g, u) + (if owns(roles[i], g, u) {
            1nat
        } else {
            0nat
        }) == count_owned(roles, g, u) + (if owns(x, g, u) {
            1nat
        } else {
            0nat
        }),
    decreases roles.len(),
{
    let upd = roles.update(i, x);
    if i == roles.len() - 1 {
        assert(upd.drop_last() =~= roles.drop_last());
        assert(upd.last() == x);
    } else {
        assert(upd.drop_last() =~= roles.drop_last().update(i, x));
        assert(upd.last() == roles.last());
        lemma_count_owned_update(roles.drop_last(), i, x, g, u);
    }
}

/// Removing row `i` subtracts its contribution from each ownership
/// count.
pub(crate) proof fn lemma_count_owned_remove(roles: Seq<RoleRecord>, i: int, g: u64, u: u64)
    requires
        0 <= i < roles.len(),
    ensures
        count_owned(roles.remove(i), g, u) + (if owns(roles[i], g, u) {
            1nat
        } else {
            0nat
        }) == count_owned(roles, g, u),
    decreases roles.len(),
{
    let rem = roles.remove(i);
    if i == roles.len() - 1 {
        assert(rem =~= roles.drop_last());
    } else {
        assert(rem.drop_last() =~= roles.drop_last().remove(i));
        assert(rem.last() == roles.last());
        lemma_count_owned_remove(roles.drop_last(), i, g, u);
    }
}

/// Two tables equal in guild and owner at every position have the same
/// ownership counts.
pub(crate) proof fn lemma_count_owned_same_owners(
    s: Seq<RoleRecord>,
    t: Seq<RoleRecord>,
    g: u64,
    u: u64,
)
    requires
        s.len() == t.len(),
        forall|i: int|
            0 <= i < s.len() ==> t[i].guild_id == s[i].guild_id && t[i].owner_user_id
                == s[i].owner_user_id,
    ensures
        count_owned(s, g, u) == count_owned(t, g, u),
    decreases s.len(),
{
    if s.len() > 0 {
        assert(forall|i: int| 0 <= i < s.len() - 1 ==> s.drop_last()[i] == s[i]);
        assert(forall|i: int| 0 <= i < t.len() - 1 ==> t.drop_last()[i] == t[i]);
        lemma_count_owned_same_owners(s.drop_last(), t.drop_last(), g, u);
    }
}

/// One step of collecting owned names along a prefix.
pub(crate) proof fn lemma_owned_names_take_step(roles: Seq<RoleRecord>, i: int, g: u64, u: u64)
    requires
        0 <= i < roles.len(),
    ensures
        owned_names(roles.take(i + 1), g, u) == if owns(roles[i], g, u) {
            owned_names(roles.take(i), g, u).push(roles[i].name@)
        } else {
            owned_names(roles.take(i), g, u)
        },
{
    assert(roles.take(i + 1).drop_last() =~= roles.take(i));
    assert(roles.take(i + 1).last() == roles[i]);
}

/// One step of collecting orphaned names along a prefix.
pub(crate) proof fn lemma_orphaned_names_take_step(roles: Seq<RoleRecord>, i: int, g: u64)
    requires
        0 <= i < roles.len(),
    ensures
        orphaned_names(roles.take(i + 1), g) == if orphan_in(roles[i], g) {
            orphaned_names(roles.take(i), g).push(roles[i].name@)
        } else {
            orphaned_names(roles.take(i), g)
        },
{
    assert(roles.take(i + 1).drop_last() =~= roles.take(i));
    assert(roles.take(i + 1).last() == roles[i]);
}

/// Appending a role row with a fresh key keeps the keys unique, makes
/// the key present, and leaves every other key's row unchanged.
pub(crate) proof fn lemma_role_push_frame(roles: Seq<RoleRecord>, x: RoleRecord)
    requires
        roles_unique(roles),
        !has_role(roles, x.guild_id, x.role_id),
    ensures
        roles_unique(roles.push(x)),
        has_role(roles.push(x), x.guild_id, x.role_id),
        role_at(roles.push(x), x.guild_id, x.role_id) == x,
        role_index(roles.push(x), x.guild_id, x.role_id) == roles.len(),
        forall|g: u64, r: u64|
            !(g == x.guild_id && r == x.role_id) ==> has_role(roles.push(x), g, r) == has_role(
                roles,
                g,
                r,
            ),
        forall|g: u64, r: u64|
            !(g == x.guild_id && r == x.role_id) && has_role(roles, g, r) ==> role_at(
                roles.push(x),
                g,
                r,
            ) == role_at(roles, g, r),
{
    let grown = roles.push(x);
    assert(grown[roles.len() as int] == x);
    assert(has_role(grown, x.guild_id, x.role_id));
    let v0 = role_index(grown, x.guild_id, x.role_id);
    assert(grown[v0].guild_id == x.guild_id && grown[v0].role_id == x.role_id);
    assert(v0 == roles.len());
    assert forall|g: u64, r: u64|
        !(g == x.guild_id && r == x.role_id) && has_role(grown, g, r) implies has_role(
        roles,
        g,
        r,
    ) by {
        let w = choose|w: int| 0 <= w < grown.len() && grown[w].guild_id == g && grown[w].role_id
            == r;
        assert(w < roles.len());
        assert(grown[w] == roles[w]);
    }
    assert forall|g: u64, r: u64|
        !(g == x.guild_id && r == x.role_id) && has_role(roles, g, r) implies has_role(grown, g, r)
        && role_at(grown, g, r) == role_at(roles, g, r) by {
        let w = choose|w: int| 0 <= w < roles.len() && roles[w].guild_id == g && roles[w].role_id
            == r;
        assert(grown[w] == roles[w]);
        assert(has_role(grown, g, r));
        let v = role_index(grown, g, r);
        assert(v < roles.len());
        assert(v == w);
        let t = role_index(roles, g, r);
        assert(t == w);
    }
}

/// Removing role row `i` erases exactly its key and leaves every other
/// key's row unchanged.
pub(crate) proof fn lemma_role_remove_frame(roles: Seq<RoleRecord>, i: int)
    requires
        roles_unique(roles),
        0 <= i < roles.len(),
    ensures
        roles_unique(roles.remove(i)),
        !has_role(roles.remove(i), roles[i].guild_id, roles[i].role_id),
        role_index(roles, roles[i].guild_id, roles[i].role_id) == i,
        forall|g: u64, r: u64|
            !(g == roles[i].guild_id && r == roles[i].role_id) ==> has_role(roles.remove(i), g, r)
                == has_role(roles, g, r),
        forall|g: u64, r: u64|
            !(g == roles[i].guild_id && r == roles[i].role_id) && has_role(roles, g, r)
                ==> role_at(roles.remove(i), g, r) == role_at(roles, g, r),
{
    let rest = roles.remove(i);
    let kg = roles[i].guild_id;
    let kr = roles[i].role_id;
    assert forall|w: int| 0 <= w < rest.len() implies !(rest[w].guild_id == kg && rest[w].role_id
        == kr) by {
        if w < i {
            assert(rest[w] == roles[w]);
        } else {
            assert(rest[w] == roles[w + 1]);
        }
    }
    assert forall|g: u64, r: u64|
        !(g == kg && r == kr) && has_role(rest, g, r) implies has_role(roles, g, r) by {
        let w = choose|w: int| 0 <= w < rest.len() && rest[w].guild_id == g && rest[w].role_id
            == r;
        if w < i {
            assert(rest[w] == roles[w]);
        } else {
            assert(rest[w] == roles[w + 1]);
        }
    }
    assert forall|g: u64, r: u64|
        !(g == kg && r == kr) && has_role(roles, g, r) implies has_role(rest, g, r) && role_at(
        rest,
        g,
        r,
    ) == role_at(roles, g, r) by {
        let w = choose|w: int| 0 <= w < roles.len() && roles[w].guild_id == g && roles[w].role_id
            == r;
        if w < i {
            assert(rest[w] == roles[w]);
        } else {
            assert(rest[w - 1] == roles[w]);
        }
        assert(has_role(rest, g, r));
        let v = role_index(rest, g, r);
        let v_orig: int = if v < i {
            v
        } else {
            v + 1
        };
        assert(rest[v] == roles[v_orig]);
        assert(v_orig == w);
        let t = role_index(roles, g, r);
        assert(t == w);
    }
}

/// Replacing role row `i` by a row with the same key keeps the keys
/// unique, changes exactly that key's row, and leaves every other key's
/// row unchanged.
pub(crate) proof fn lemma_role_update_frame(roles: Seq<RoleRecord>, i: int, x: RoleRecord)
    requires
        roles_unique(roles),
        0 <= i < roles.len(),
        x.guild_id == roles[i].guild_id,
        x.role_id == roles[i].role_id,
    ensures
        roles_unique(roles.update(i, x)),
        role_index(roles, roles[i].guild_id, roles[i].role_id) == i,
        has_role(roles.update(i, x), x.guild_id, x.role_id),
        role_at(roles.update(i, x), x.guild_id, x.role_id) == x,
        forall|g: u64, r: u64|
            !(g == x.guild_id && r == x.role_id) ==> has_role(roles.update(i, x), g, r) == has_role(
                roles,
                g,
                r,
            ),
        forall|g: u64, r: u64|
            !(g == x.guild_id && r == x.role_id) && has_role(roles, g, r) ==> role_at(
                roles.update(i, x),
                g,
                r,
            ) == role_at(roles, g, r),
{
    let upd = roles.update(i, x);
    assert(upd[i] == x);
    assert(has_role(upd, x.guild_id, x.role_id));
    assert forall|w: int|
        0 <= w < upd.len() && upd[w].guild_id == x.guild_id && upd[w].role_id == x.role_id implies w
        == i by {
        if w != i {
            assert(upd[w] == roles[w]);
        }
    }
    let v0 = role_index(upd, x.guild_id, x.role_id);
    assert(upd[v0].guild_id == x.guild_id && upd[v0].role_id == x.role_id);
    assert(v0 == i);
    assert forall|w: int|
        0 <= w < roles.len() && roles[w].guild_id == x.guild_id && roles[w].role_id == x.role_id
        implies w == i by {
        if w != i {
            assert(upd[w] == roles[w]);
        }
    }
    assert forall|g: u64, r: u64|
        !(g == x.guild_id && r == x.role_id) && has_role(upd, g, r) implies has_role(
        roles,
        g,
        r,
    ) by {
        let w = choose|w: int| 0 <= w < upd.len() && upd[w].guild_id == g && upd[w].role_id == r;
        assert(w != i);
        assert(upd[w] == roles[w]);
    }
    assert forall|g: u64, r: u64|
        !(g == x.guild_id && r == x.role_id) && has_role(roles, g, r) implies has_role(upd, g, r)
        && role_at(upd, g, r) == role_at(roles, g, r) by {
        let w = choose|w: int| 0 <= w < roles.len() && roles[w].guild_id == g && roles[w].role_id
            == r;
        assert(w != i);
        assert(upd[w] == roles[w]);
        assert(has_role(upd, g, r));
        let v = role_index(upd, g, r);
        assert(v != i);
        assert(upd[v] == roles[v]);
        assert(v == w);
        let t = role_index(roles, g, r);
        assert(t == w);
    }
}

} // verus!
