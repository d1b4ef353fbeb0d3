//! Bulk import from the membership source into the durable store: the
//! guild row, one role row per permission-less listed role, one balance
//! row per streamed member, and one user-role row per managed role a
//! member carries.
//!
//! Every insert is idempotent (a key already present is left alone), so
//! re-running the import converges instead of duplicating, and nothing
//! a previous import or command wrote is ever removed.

use vstd::prelude::*;

use crate::guild_state::MemberListing;
use crate::guild_state::RoleListing;
use crate::guild_state::listed_managed;
use crate::store::Handler;
use crate::store::has_balance_row;
use crate::store::has_guild;
use crate::store::has_role;
use crate::store::has_user_role;

verus! {

/// True when the listings carry `role_id` without any permission bit.
/// Roles with permissions are never imported: the engine must only ever
/// manage permission-less cosmetic roles.
pub fn listed_permissionless(listings: &Vec<RoleListing>, role_id: u64) -> (r: bool)
    ensures
        r == listed_managed(listings@, role_id),
{
    let mut i: usize = 0;
    while i < listings.len()
        invariant
            0 <= i <= listings@.len(),
            forall|j: int|
                0 <= j < i ==> !(listings@[j].role_id == role_id && listings@[j].permission_bits
                    == 0),
        decreases listings@.len() - i,
    {
        if listings[i].role_id == role_id && listings[i].permission_bits == 0 {
            return true;
        }
        i += 1;
    }
    false
}

impl Handler {
    /// Import `guild_id` from the membership source: ensure the guild
    /// row, insert an orphan role row for every permission-less listed
    /// role, and for every streamed member a balance row plus a worn-role
    /// row for each of their managed roles.  Existing rows are kept as
    /// they are.
    pub fn update_database(
        &mut self,
        guild_id: u64,
        listings: &Vec<RoleListing>,
        members: &Vec<MemberListing>,
    )
        requires
            old(self).wf(),
        ensures
            final(self).wf(),
            has_guild(final(self).guilds@, guild_id),
            forall|r: u64|
                listed_managed(listings@, r) ==> has_role(final(self).roles@, guild_id, r),
            forall|g2: u64, r2: u64|
                has_role(old(self).roles@, g2, r2) ==> has_role(final(self).roles@, g2, r2),
            forall|mi: int|
                0 <= mi < members@.len() ==> has_balance_row(
                    final(self).balances@,
                    guild_id,
                    #[trigger] members@[mi].user_id,
                ),
            forall|mi: int, ri: int|
                0 <= mi < members@.len() && 0 <= ri < members@[mi].role_ids@.len()
                    && listed_managed(listings@, #[trigger] members@[mi].role_ids@[ri])
                    ==> has_user_role(
                    final(self).user_roles@,
                    guild_id,
                    members@[mi].role_ids@[ri],
                    members@[mi].user_id,
                ),
            forall|g2: u64, r2: u64, u2: u64|
                has_user_role(old(self).user_roles@, g2, r2, u2) ==> has_user_role(
                    final(self).user_roles@,
                    g2,
                    r2,
                    u2,
                ),
    {
        self.create_guild(guild_id);
        let ghost guilds1 = self.guilds@;
        let ghost roles0 = self.roles@;
        let mut i: usize = 0;
        while i < listings.len()
            invariant
                self.wf(),
                self.guilds@ == guilds1,
                has_guild(guilds1, guild_id),
                self.user_roles@ == old(self).user_roles@,
                self.balances@ == old(self).balances@,
                0 <= i <= listings@.len(),
                forall|j: int|
                    0 <= j < i && listings@[j].permission_bits == 0 ==> has_role(
                        self.roles@,
                        guild_id,
                        #[trigger] listings@[j].role_id,
                    ),
                forall|g2: u64, r2: u64|
                    has_role(roles0, g2, r2) ==> has_role(self.roles@, g2, r2),
            decreases listings@.len() - i,
        {
            if listings[i].permission_bits == 0 {
                let ghost roles_pre = self.roles@;
                self.create_role_force(guild_id, listings[i].role_id, listings[i].name.clone(), None);
                proof {
                    assert forall|g2: u64, r2: u64|
                        has_role(roles_pre, g2, r2) implies has_role(self.roles@, g2, r2) by {
                        if !(g2 == guild_id && r2 == listings@[i as int].role_id) {
                            assert(has_role(self.roles@, g2, r2) == has_role(roles_pre, g2, r2));
                        }
                    }
                    assert forall|j: int|
                        0 <= j < i + 1 && listings@[j].permission_bits == 0 implies has_role(
                        self.roles@,
                        guild_id,
                        #[trigger] listings@[j].role_id,
                    ) by {
                        if j < i {
                            assert(has_role(roles_pre, guild_id, listings@[j].role_id));
                        }
                    }
                }
            }
            i += 1;
        }
        let ghost roles1 = self.roles@;
        proof {
            assert forall|r: u64| listed_managed(listings@, r) implies has_role(
                self.roles@,
                guild_id,
                r,
            ) by {
                let j = choose|j: int|
                    0 <= j < listings@.len() && listings@[j].role_id == r
                        && listings@[j].permission_bits == 0;
                assert(has_role(self.roles@, guild_id, listings@[j].role_id));
            }
        }
        let mut mi: usize = 0;
        while mi < members.len()
            invariant
                self.wf(),
                self.guilds@ == guilds1,
                has_guild(guilds1, guild_id),
                self.roles@ == roles1,
                0 <= mi <= members@.len(),
                forall|mj: int|
                    0 <= mj < mi ==> has_balance_row(
                        self.balances@,
                        guild_id,
                        #[trigger] members@[mj].user_id,
                    ),
                forall|mj: int, rj: int|
                    0 <= mj < mi && 0 <= rj < members@[mj].role_ids@.len() && listed_managed(
                        listings@,
                        #[trigger] members@[mj].role_ids@[rj],
                    ) ==> has_user_role(
                        self.user_roles@,
                        guild_id,
                        members@[mj].role_ids@[rj],
                        members@[mj].user_id,
                    ),
                forall|g2: u64, r2: u64, u2: u64|
                    has_user_role(old(self).user_roles@, g2, r2, u2) ==> has_user_role(
                        self.user_roles@,
                        g2,
                        r2,
                        u2,
                    ),
            decreases members@.len() - mi,
        {
            let user_id = members[mi].user_id;
            let ghost balances_pre = self.balances@;
            self.create_user(guild_id, user_id);
            proof {
                assert forall|mj: int|
                    0 <= mj < mi implies has_balance_row(
                    self.balances@,
                    guild_id,
                    #[trigger] members@[mj].user_id,
                ) by {
                    let w = choose|w: int|
                        0 <= w < balances_pre.len() && balances_pre[w].guild_id == guild_id
                            && balances_pre[w].user_id == members@[mj].user_id;
                    if self.balances@ != balances_pre {
                        assert(self.balances@[w] == balances_pre[w]);
                    }
                }
                assert(has_balance_row(self.balances@, guild_id, user_id)) by {
                    if has_balance_row(balances_pre, guild_id, user_id) {
                        let w = choose|w: int|
                            0 <= w < balances_pre.len() && balances_pre[w].guild_id == guild_id
                                && balances_pre[w].user_id == user_id;
                        if self.balances@ != balances_pre {
                            assert(self.balances@[w] == balances_pre[w]);
                        }
                    } else {
                        assert(self.balances@ == balances_pre.push(
                            crate::store::BalanceRow {
                                user_id,
                                guild_id,
                                balance: crate::store::MAX_BALANCE,
                            },
                        ));
                        assert(self.balances@[balances_pre.len() as int].user_id == user_id);
                    }
                }
            }
            let mut ri: usize = 0;
            while ri < members[mi].role_ids.len()
                invariant
                    self.wf(),
                    self.guilds@ == guilds1,
                    has_guild(guilds1, guild_id),
                    self.roles@ == roles1,
                    0 <= mi < members@.len(),
                    user_id == members@[mi as int].user_id,
                    forall|mj: int|
                        0 <= mj <= mi ==> has_balance_row(
                            self.balances@,
                            guild_id,
                            #[trigger] members@[mj].user_id,
                        ),
                    0 <= ri <= members@[mi as int].role_ids@.len(),
                    forall|rj: int|
                        0 <= rj < ri && listed_managed(
                            listings@,
                            #[trigger] members@[mi as int].role_ids@[rj],
                        ) ==> has_user_role(
                            self.user_roles@,
                            guild_id,
                            members@[mi as int].role_ids@[rj],
                            user_id,
                        ),
                    forall|mj: int, rj: int|
                        0 <= mj < mi && 0 <= rj < members@[mj].role_ids@.len() && listed_managed(
                            listings@,
                            #[trigger] members@[mj].role_ids@[rj],
                        ) ==> has_user_role(
                            self.user_roles@,
                            guild_id,
                            members@[mj].role_ids@[rj],
                            members@[mj].user_id,
                        ),
                    forall|g2: u64, r2: u64, u2: u64|
                        has_user_role(old(self).user_roles@, g2, r2, u2) ==> has_user_role(
                            self.user_roles@,
                            g2,
                            r2,
                            u2,
                        ),
                decreases members@[mi as int].role_ids@.len() - ri,
            {
                let rid = members[mi].role_ids[ri];
                if listed_permissionless(listings, rid) {
                    self.add_role(guild_id, rid, user_id);
                }
                ri += 1;
            }
            mi += 1;
        }
    }
}

} // verus!
