//! Which user currently wears which role (distinct from ownership):
//! idempotent-once add, owner-conditioned removal, and the lookup that
//! rejoin reinstatement runs on.

use vstd::prelude::*;

use crate::ownership::role_owned_by;
use crate::store::Handler;
use crate::store::UserRoleRow;
use crate::store::has_user_role;
use crate::store::user_roles_unique;

verus! {

/// The ids of the roles `u` wears in guild `g`, in table order.
pub open spec fn worn_roles(rows: Seq<UserRoleRow>, g: u64, u: u64) -> Seq<u64>
    decreases rows.len(),
{
    if rows.len() == 0 {
        Seq::empty()
    } else if rows.last().guild_id == g && rows.last().user_id == u {
        worn_roles(rows.drop_last(), g, u).push(rows.last().role_id)
    } else {
        worn_roles(rows.drop_last(), g, u)
    }
}

/// The condition under which `caller` may remove role (`g`, `r`) from
/// `u`: the grant exists, and a user may remove a role from themselves
/// only when they own it (an anti-circumvention rule; removing it from
/// someone else is unconditional).
pub open spec fn spec_can_remove_worn(
    roles: Seq<crate::store::RoleRecord>,
    rows: Seq<UserRoleRow>,
    g: u64,
    r: u64,
    u: u64,
    caller: u64,
) -> bool {
    &&& has_user_role(rows, g, r, u)
    &&& (u == caller ==> role_owned_by(roles, g, r, caller))
}

/// One step of collecting worn roles along a prefix.
proof fn lemma_worn_roles_take_step(rows: Seq<UserRoleRow>, i: int, g: u64, u: u64)
    requires
        0 <= i < rows.len(),
    ensures
        worn_roles(rows.take(i + 1), g, u) == if rows[i].guild_id == g && rows[i].user_id == u {
            worn_roles(rows.take(i), g, u).push(rows[i].role_id)
        } else {
            worn_roles(rows.take(i), g, u)
        },
{
    assert(rows.take(i + 1).drop_last() =~= rows.take(i));
    assert(rows.take(i + 1).last() == rows[i]);
}

/// Appending a row for a fresh triple keeps the triples unique and
/// leaves every other triple's presence unchanged.
proof fn lemma_user_role_push_frame(rows: Seq<UserRoleRow>, x: UserRoleRow)
    requires
        user_roles_unique(rows),
        !has_user_role(rows, x.guild_id, x.role_id, x.user_id),
    ensures
        user_roles_unique(rows.push(x)),
        has_user_role(rows.push(x), x.guild_id, x.role_id, x.user_id),
        forall|g: u64, r: u64, u: u64|
            !(g == x.guild_id && r == x.role_id && u == x.user_id) ==> has_user_role(
                rows.push(x),
                g,
                r,
                u,
            ) == has_user_role(rows, g, r, u),
{
    let grown = rows.push(x);
    assert(grown[rows.len() as int] == x);
    assert forall|g: u64, r: u64, u: u64|
        !(g == x.guild_id && r == x.role_id && u == x.user_id) && has_user_role(
            grown,
            g,
            r,
            u,
        ) implies has_user_role(rows, g, r, u) by {
        let w = choose|w: int|
            0 <= w < grown.len() && grown[w].guild_id == g && grown[w].role_id == r
                && grown[w].user_id == u;
        assert(w < rows.len());
        assert(grown[w] == rows[w]);
    }
    assert forall|g: u64, r: u64, u: u64|
        has_user_role(rows, g, r, u) implies has_user_role(grown, g, r, u) by {
        let w = choose|w: int|
            0 <= w < rows.len() && rows[w].guild_id == g && rows[w].role_id == r && rows[w].user_id
                == u;
        assert(grown[w] == rows[w]);
    }
}

/// Removing row `i` erases exactly its triple and leaves every other
/// triple's presence unchanged.
proof fn lemma_user_role_remove_frame(rows: Seq<UserRoleRow>, i: int)
    requires
        user_roles_unique(rows),
        0 <= i < rows.len(),
    ensures
        user_roles_unique(rows.remove(i)),
        !has_user_role(rows.remove(i), rows[i].guild_id, rows[i].role_id, rows[i].user_id),
        forall|g: u64, r: u64, u: u64|
            !(g == rows[i].guild_id && r == rows[i].role_id && u == rows[i].user_id)
                ==> has_user_role(rows.remove(i), g, r, u) == has_user_role(rows, g, r, u),
{
    let rest = rows.remove(i);
    let kg = rows[i].guild_id;
    let kr = rows[i].role_id;
    let ku = rows[i].user_id;
    assert forall|w: int| 0 <= w < rest.len() implies !(rest[w].guild_id == kg && rest[w].role_id
        == kr && rest[w].user_id == ku) by {
        if w < i {
            assert(rest[w] == rows[w]);
        } else {
            assert(rest[w] == rows[w + 1]);
        }
    }
    assert forall|g: u64, r: u64, u: u64|
        !(g == kg && r == kr && u == ku) && has_user_role(rest, g, r, u) implies has_user_role(
        rows,
        g,
        r,
        u,
    ) by {
        let w = choose|w: int|
            0 <= w < rest.len() && rest[w].guild_id == g && rest[w].role_id == r && rest[w].user_id
                == u;
        if w < i {
            assert(rest[w] == rows[w]);
        } else {
            assert(rest[w] == rows[w + 1]);
        }
    }
    assert forall|g: u64, r: u64, u: u64|
        !(g == kg && r == kr && u == ku) && has_user_role(rows, g, r, u) implies has_user_role(
        rest,
        g,
        r,
        u,
    ) by {
        let w = choose|w: int|
            0 <= w < rows.len() && rows[w].guild_id == g && rows[w].role_id == r && rows[w].user_id
                == u;
        if w < i {
            assert(rest[w] == rows[w]);
        } else {
            assert(rest[w - 1] == rows[w]);
        }
    }
}

/// Law: exactly one worn-role row may exist per (guild, role, user): in
/// a well-formed store two rows with the same triple are the same row.
pub proof fn lemma_worn_role_unique(h: &Handler, i: int, j: int)
    requires
        h.wf(),
        0 <= i < h.user_roles@.len(),
        0 <= j < h.user_roles@.len(),
        h.user_roles@[i].guild_id == h.user_roles@[j].guild_id,
        h.user_roles@[i].role_id == h.user_roles@[j].role_id,
        h.user_roles@[i].user_id == h.user_roles@[j].user_id,
    ensures
        i == j,
{
}

impl Handler {
    /// The index of the row for the triple, if present.
    fn find_user_role(&self, guild_id: u64, role_id: u64, user_id: u64) -> (r: Option<usize>)
        ensures
            match r {
                Some(i) => 0 <= i < self.user_roles@.len() && self.user_roles@[i as int].guild_id
                    == guild_id && self.user_roles@[i as int].role_id == role_id
                    && self.user_roles@[i as int].user_id == user_id,
                None => !has_user_role(self.user_roles@, guild_id, role_id, user_id),
            },
    {
        let mut i: usize = 0;
        while i < self.user_roles.len()
            invariant
                0 <= i <= self.user_roles@.len(),
                forall|j: int|
                    0 <= j < i ==> !(self.user_roles@[j].guild_id == guild_id
                        && self.user_roles@[j].role_id == role_id && self.user_roles@[j].user_id
                        == user_id),
            decreases self.user_roles@.len() - i,
        {
            if self.user_roles[i].guild_id == guild_id && self.user_roles[i].role_id == role_id
                && self.user_roles[i].user_id == user_id {
                return Some(i);
            }
            i += 1;
        }
        None
    }

    /// Record that `user_id` wears role (`guild_id`, `role_id`).
    /// Exactly one row may exist per triple: a second add while one
    /// exists returns `false`, never duplicates.
    pub fn add_role(&mut self, guild_id: u64, role_id: u64, user_id: u64) -> (inserted: bool)
        requires
            old(self).wf(),
        ensures
            final(self).wf(),
            inserted == !has_user_role(old(self).user_roles@, guild_id, role_id, user_id),
            inserted ==> final(self).user_roles@ == old(self).user_roles@.push(
                UserRoleRow { user_id, role_id, guild_id },
            ),
            !inserted ==> final(self).user_roles@ == old(self).user_roles@,
            has_user_role(final(self).user_roles@, guild_id, role_id, user_id),
            forall|g2: u64, r2: u64, u2: u64|
                !(g2 == guild_id && r2 == role_id && u2 == user_id) ==> has_user_role(
                    final(self).user_roles@,
                    g2,
                    r2,
                    u2,
                ) == has_user_role(old(self).user_roles@, g2, r2, u2),
            final(self).guilds@ == old(self).guilds@,
            final(self).roles@ == old(self).roles@,
            final(self).balances@ == old(self).balances@,
    {
        match self.find_user_role(guild_id, role_id, user_id) {
            Some(_) => false,
            None => {
                let row = UserRoleRow { user_id, role_id, guild_id };
                proof {
                    lemma_user_role_push_frame(self.user_roles@, row);
                }
                self.user_roles.push(row);
                true
            },
        }
    }

    /// Remove the record that `user_id` wears role (`guild_id`,
    /// `role_id`) without any ownership condition: the compensation a
    /// caller runs when the external role action failed after `add_role`
    /// committed.
    pub fn rollback_add_role(&mut self, guild_id: u64, role_id: u64, user_id: u64) -> (removed:
        bool)
        requires
            old(self).wf(),
        ensures
            final(self).wf(),
            removed == has_user_role(old(self).user_roles@, guild_id, role_id, user_id),
            !has_user_role(final(self).user_roles@, guild_id, role_id, user_id),
            !removed ==> final(self).user_roles@ == old(self).user_roles@,
            forall|g2: u64, r2: u64, u2: u64|
                !(g2 == guild_id && r2 == role_id && u2 == user_id) ==> has_user_role(
                    final(self).user_roles@,
                    g2,
                    r2,
                    u2,
                ) == has_user_role(old(self).user_roles@, g2, r2, u2),
            final(self).guilds@ == old(self).guilds@,
            final(self).roles@ == old(self).roles@,
            final(self).balances@ == old(self).balances@,
    {
        match self.find_user_role(guild_id, role_id, user_id) {
            None => false,
            Some(i) => {
                proof {
                    lemma_user_role_remove_frame(self.user_roles@, i as int);
                }
                self.user_roles.remove(i);
                true
            },
        }
    }

    /// Remove the record that `user_id` wears role (`guild_id`,
    /// `role_id`), on behalf of `caller_user_id`.  A caller may strip a
    /// role from themselves only when they own it; stripping someone
    /// else is unconditional.  Returns whether a row was removed.
    pub fn remove_role(
        &mut self,
        guild_id: u64,
        role_id: u64,
        user_id: u64,
        caller_user_id: u64,
    ) -> (removed: bool)
        requires
            old(self).wf(),
        ensures
            final(self).wf(),
            removed == spec_can_remove_worn(
                old(self).roles@,
                old(self).user_roles@,
                guild_id,
                role_id,
                user_id,
                caller_user_id,
            ),
            removed ==> !has_user_role(final(self).user_roles@, guild_id, role_id, user_id),
            !removed ==> final(self).user_roles@ == old(self).user_roles@,
            forall|g2: u64, r2: u64, u2: u64|
                !(g2 == guild_id && r2 == role_id && u2 == user_id) ==> has_user_role(
                    final(self).user_roles@,
                    g2,
                    r2,
                    u2,
                ) == has_user_role(old(self).user_roles@, g2, r2, u2),
            final(self).guilds@ == old(self).guilds@,
            final(self).roles@ == old(self).roles@,
            final(self).balances@ == old(self).balances@,
    {
        if user_id == caller_user_id {
            let owns_it = match self.query_role(guild_id, role_id) {
                crate::store::QueryRoleResult::Owned(o) => o == caller_user_id,
                _ => false,
            };
            if !owns_it {
                assert(!role_owned_by(self.roles@, guild_id, role_id, caller_user_id));
                return false;
            }
        }
        match self.find_user_role(guild_id, role_id, user_id) {
            None => false,
            Some(i) => {
                proof {
                    lemma_user_role_remove_frame(self.user_roles@, i as int);
                }
                self.user_roles.remove(i);
                true
            },
        }
    }

    /// The roles recorded as worn by `user_id` in `guild_id`: what
    /// rejoin reinstatement re-applies through the external grant action
    /// when the user rejoins.  Reinstatement is system-initiated, so it
    /// neither consumes nor respects any cooldown window.
    pub fn roles_to_reinstate(&self, guild_id: u64, user_id: u64) -> (ids: Vec<u64>)
        ensures
            ids@ == worn_roles(self.user_roles@, guild_id, user_id),
    {
        let mut ids: Vec<u64> = Vec::new();
        assert(ids@ =~= worn_roles(self.user_roles@.take(0), guild_id, user_id));
        let mut i: usize = 0;
        while i < self.user_roles.len()
            invariant
                0 <= i <= self.user_roles@.len(),
                ids@ == worn_roles(self.user_roles@.take(i as int), guild_id, user_id),
            decreases self.user_roles@.len() - i,
        {
            proof {
                lemma_worn_roles_take_step(self.user_roles@, i as int, guild_id, user_id);
            }
            if self.user_roles[i].guild_id == guild_id && self.user_roles[i].user_id == user_id {
                ids.push(self.user_roles[i].role_id);
            }
            i += 1;
        }
        proof {
            assert(self.user_roles@.take(self.user_roles@.len() as int) =~= self.user_roles@);
        }
        ids
    }
}

} // verus!
