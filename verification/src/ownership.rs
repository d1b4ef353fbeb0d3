//! Ownership operations on the role table: conditional creation under
//! the per-owner quota, owner-conditioned deletion, taking ownership of
//! an orphan, and the read-only projections.
//!
//! Every quota check is evaluated in the same atomic transition as the
//! mutation it guards, so two concurrent ownership claims can never both
//! pass a stale count.

use vstd::prelude::*;

use crate::store::Handler;
use crate::store::MAX_OWNED_ROLES;
use crate::store::QueryRoleResult;
use crate::store::RoleRecord;
use crate::store::count_owned;
use crate::store::count_orphaned;
use crate::store::has_role;
use crate::store::lemma_count_orphaned_take_step;
use crate::store::lemma_count_owned_push;
use crate::store::lemma_count_owned_remove;
use crate::store::lemma_count_owned_take_step;
use crate::store::lemma_count_owned_update;
use crate::store::lemma_orphaned_names_take_step;
use crate::store::lemma_owned_names_take_step;
use crate::store::lemma_role_push_frame;
use crate::store::lemma_role_remove_frame;
use crate::store::lemma_role_update_frame;
use crate::store::orphaned_names;
use crate::store::owned_names;
use crate::store::owns;
use crate::store::role_at;
use crate::store::role_index;
use crate::store::role_owner;

verus! {

/// True when the role row (`g`, `r`) exists and is owned by `u`.
pub open spec fn role_owned_by(roles: Seq<RoleRecord>, g: u64, r: u64, u: u64) -> bool {
    has_role(roles, g, r) && role_owner(roles, g, r) == Some(u)
}

/// The condition under which a role row may be inserted: the key is
/// free, and an owning insert stays under the owner's quota.
pub open spec fn spec_can_insert_role(
    roles: Seq<RoleRecord>,
    g: u64,
    r: u64,
    owner: Option<u64>,
) -> bool {
    &&& !has_role(roles, g, r)
    &&& (owner matches Some(u) ==> count_owned(roles, g, u) < MAX_OWNED_ROLES)
}

/// The condition under which `u` may take ownership of role (`g`, `r`):
/// the row exists, is an orphan, and `u` is under quota.
pub open spec fn spec_can_take(roles: Seq<RoleRecord>, g: u64, r: u64, u: u64) -> bool {
    &&& has_role(roles, g, r)
    &&& role_owner(roles, g, r) is None
    &&& count_owned(roles, g, u) < MAX_OWNED_ROLES
}

/// What a role lookup reports.
pub open spec fn spec_query_role(roles: Seq<RoleRecord>, g: u64, r: u64) -> QueryRoleResult {
    if !has_role(roles, g, r) {
        QueryRoleResult::NotFound
    } else {
        match role_owner(roles, g, r) {
            Some(u) => QueryRoleResult::Owned(u),
            None => QueryRoleResult::Orphan,
        }
    }
}

impl Handler {
    /// The index of the role row keyed (`guild_id`, `role_id`).
    fn find_role(&self, guild_id: u64, role_id: u64) -> (r: Option<usize>)
        ensures
            match r {
                Some(i) => 0 <= i < self.roles@.len() && self.roles@[i as int].guild_id == guild_id
                    && self.roles@[i as int].role_id == role_id,
                None => !has_role(self.roles@, guild_id, role_id),
            },
    {
        let mut i: usize = 0;
        while i < self.roles.len()
            invariant
                0 <= i <= self.roles@.len(),
                forall|j: int|
                    0 <= j < i ==> !(self.roles@[j].guild_id == guild_id && self.roles@[j].role_id
                        == role_id),
            decreases self.roles@.len() - i,
        {
            if self.roles[i].guild_id == guild_id && self.roles[i].role_id == role_id {
                return Some(i);
            }
            i += 1;
        }
        None
    }

    /// How many roles of `guild_id` are owned by `user_id`.
    pub fn list_count(&self, guild_id: u64, user_id: u64) -> (n: u64)
        ensures
            n == count_owned(self.roles@, guild_id, user_id),
    {
        let mut n: u64 = 0;
        let mut i: usize = 0;
        while i < self.roles.len()
            invariant
                0 <= i <= self.roles@.len(),
                n <= i,
                n == count_owned(self.roles@.take(i as int), guild_id, user_id),
            decreases self.roles@.len() - i,
        {
            proof {
                lemma_count_owned_take_step(self.roles@, i as int, guild_id, user_id);
            }
            let rec_owned = match self.roles[i].owner_user_id {
                Some(o) => self.roles[i].guild_id == guild_id && o == user_id,
                None => false,
            };
            if rec_owned {
                n += 1;
            }
            i += 1;
        }
        proof {
            assert(self.roles@.take(self.roles@.len() as int) =~= self.roles@);
        }
        n
    }

    /// The names of the roles of `guild_id` owned by `user_id`, in table
    /// order.
    pub fn list(&self, guild_id: u64, user_id: u64) -> (names: Vec<String>)
        ensures
            names.deep_view() == owned_names(self.roles@, guild_id, user_id),
    {
        let mut names: Vec<String> = Vec::new();
        assert(names.deep_view() =~= owned_names(
            self.roles@.take(0),
            guild_id,
            user_id,
        ));
        let mut i: usize = 0;
        while i < self.roles.len()
            invariant
                0 <= i <= self.roles@.len(),
                names.deep_view() == owned_names(self.roles@.take(i as int), guild_id, user_id),
            decreases self.roles@.len() - i,
        {
            proof {
                lemma_owned_names_take_step(self.roles@, i as int, guild_id, user_id);
            }
            let rec_owned = match self.roles[i].owner_user_id {
                Some(o) => self.roles[i].guild_id == guild_id && o == user_id,
                None => false,
            };
            if rec_owned {
                let ghost before = names.deep_view();
                names.push(self.roles[i].name.clone());
                assert(names.deep_view() =~= before.push(self.roles@[i as int].name@));
            }
            i += 1;
        }
        proof {
            assert(self.roles@.take(self.roles@.len() as int) =~= self.roles@);
        }
        names
    }

    /// How many roles of `guild_id` are orphaned.
    pub fn orphaned_count(&self, guild_id: u64) -> (n: u64)
        ensures
            n == count_orphaned(self.roles@, guild_id),
    {
        let mut n: u64 = 0;
        let mut i: usize = 0;
        while i < self.roles.len()
            invariant
                0 <= i <= self.roles@.len(),
                n <= i,
                n == count_orphaned(self.roles@.take(i as int), guild_id),
            decreases self.roles@.len() - i,
        {
            proof {
                lemma_count_orphaned_take_step(self.roles@, i as int, guild_id);
            }
            if self.roles[i].guild_id == guild_id && self.roles[i].owner_user_id.is_none() {
                n += 1;
            }
            i += 1;
        }
        proof {
            assert(self.roles@.take(self.roles@.len() as int) =~= self.roles@);
        }
        n
    }

    /// The names of the orphaned roles of `guild_id`, in table order.
    pub fn orphaned(&self, guild_id: u64) -> (names: Vec<String>)
        ensures
            names.deep_view() == orphaned_names(self.roles@, guild_id),
    {
        let mut names: Vec<String> = Vec::new();
        assert(names.deep_view() =~= orphaned_names(self.roles@.take(0), guild_id));
        let mut i: usize = 0;
        while i < self.roles.len()
            invariant
                0 <= i <= self.roles@.len(),
                names.deep_view() == orphaned_names(self.roles@.take(i as int), guild_id),
            decreases self.roles@.len() - i,
        {
            proof {
                lemma_orphaned_names_take_step(self.roles@, i as int, guild_id);
            }
            if self.roles[i].guild_id == guild_id && self.roles[i].owner_user_id.is_none() {
                let ghost before = names.deep_view();
                names.push(self.roles[i].name.clone());
                assert(names.deep_view() =~= before.push(self.roles@[i as int].name@));
            }
            i += 1;
        }
        proof {
            assert(self.roles@.take(self.roles@.len() as int) =~= self.roles@);
        }
        names
    }

    /// Who, if anyone, owns role (`guild_id`, `role_id`).
    pub fn query_role(&self, guild_id: u64, role_id: u64) -> (r: QueryRoleResult)
        requires
            self.wf(),
        ensures
            r == spec_query_role(self.roles@, guild_id, role_id),
    {
        match self.find_role(guild_id, role_id) {
            None => QueryRoleResult::NotFound,
            Some(i) => {
                proof {
                    assert(has_role(self.roles@, guild_id, role_id));
                    let w = role_index(self.roles@, guild_id, role_id);
                    assert(self.roles@[w].guild_id == guild_id && self.roles@[w].role_id
                        == role_id);
                    assert(w == i);
                }
                match self.roles[i].owner_user_id {
                    Some(u) => QueryRoleResult::Owned(u),
                    None => QueryRoleResult::Orphan,
                }
            },
        }
    }

    /// Insert a role row, conditioned on a free key and — when an owner
    /// is given — on that owner's quota, all in one transition.  Returns
    /// whether the row was inserted; a duplicate key or a quota
    /// violation both surface as `false`, not as an error.
    pub fn create_role_force(
        &mut self,
        guild_id: u64,
        role_id: u64,
        name: String,
        owner_user_id: Option<u64>,
    ) -> (inserted: bool)
        requires
            old(self).wf(),
        ensures
            final(self).wf(),
            inserted == spec_can_insert_role(old(self).roles@, guild_id, role_id, owner_user_id),
            inserted ==> final(self).roles@ == old(self).roles@.push(
                RoleRecord {
                    role_id,
                    guild_id,
                    name,
                    owner_user_id,
                    deadline: None,
                    warning_day_sent: false,
                    warning_hour_sent: false,
                },
            ) && has_role(final(self).roles@, guild_id, role_id),
            !inserted ==> final(self).roles@ == old(self).roles@,
            has_role(final(self).roles@, guild_id, role_id) == (has_role(
                old(self).roles@,
                guild_id,
                role_id,
            ) || inserted),
            forall|g2: u64, r2: u64|
                !(g2 == guild_id && r2 == role_id) ==> has_role(final(self).roles@, g2, r2)
                    == has_role(old(self).roles@, g2, r2),
            final(self).guilds@ == old(self).guilds@,
            final(self).user_roles@ == old(self).user_roles@,
            final(self).balances@ == old(self).balances@,
    {
        if self.find_role(guild_id, role_id).is_some() {
            return false;
        }
        if let Some(u) = owner_user_id {
            let owned = self.list_count(guild_id, u);
            if owned >= MAX_OWNED_ROLES {
                return false;
            }
        }
        let rec = RoleRecord {
            role_id,
            guild_id,
            name,
            owner_user_id,
            deadline: None,
            warning_day_sent: false,
            warning_hour_sent: false,
        };
        let ghost roles0 = self.roles@;
        proof {
            lemma_role_push_frame(roles0, rec);
        }
        self.roles.push(rec);
        proof {
            assert forall|g2: u64, u2: u64| #[trigger] count_owned(self.roles@, g2, u2)
                <= MAX_OWNED_ROLES by {
                lemma_count_owned_push(roles0, rec, g2, u2);
                assert(count_owned(roles0, g2, u2) <= MAX_OWNED_ROLES);
            }
        }
        true
    }

    /// Insert an owned role row, conditioned on the owner's quota.
    pub fn create_role(
        &mut self,
        guild_id: u64,
        role_id: u64,
        name: String,
        owner_user_id: u64,
    ) -> (inserted: bool)
        requires
            old(self).wf(),
        ensures
            final(self).wf(),
            inserted == spec_can_insert_role(
                old(self).roles@,
                guild_id,
                role_id,
                Some(owner_user_id),
            ),
            inserted ==> final(self).roles@ == old(self).roles@.push(
                RoleRecord {
                    role_id,
                    guild_id,
                    name,
                    owner_user_id: Some(owner_user_id),
                    deadline: None,
                    warning_day_sent: false,
                    warning_hour_sent: false,
                },
            ),
            !inserted ==> final(self).roles@ == old(self).roles@,
            final(self).guilds@ == old(self).guilds@,
            final(self).user_roles@ == old(self).user_roles@,
            final(self).balances@ == old(self).balances@,
    {
        self.create_role_force(guild_id, role_id, name, Some(owner_user_id))
    }

    /// Delete role (`guild_id`, `role_id`), conditioned on `user_id`
    /// owning it.  Returns whether a row was removed; "not owned by the
    /// caller" is `false`, not an error.
    pub fn delete_role(&mut self, guild_id: u64, role_id: u64, user_id: u64) -> (removed: bool)
        requires
            old(self).wf(),
        ensures
            final(self).wf(),
            removed == role_owned_by(old(self).roles@, guild_id, role_id, user_id),
            removed ==> final(self).roles@ == old(self).roles@.remove(
                role_index(old(self).roles@, guild_id, role_id),
            ) && !has_role(final(self).roles@, guild_id, role_id),
            !removed ==> final(self).roles@ == old(self).roles@,
            forall|g2: u64, r2: u64|
                !(g2 == guild_id && r2 == role_id) ==> has_role(final(self).roles@, g2, r2)
                    == has_role(old(self).roles@, g2, r2) && (has_role(old(self).roles@, g2, r2)
                    ==> role_at(final(self).roles@, g2, r2) == role_at(old(self).roles@, g2, r2)),
            final(self).guilds@ == old(self).guilds@,
            final(self).user_roles@ == old(self).user_roles@,
            final(self).balances@ == old(self).balances@,
    {
        match self.find_role(guild_id, role_id) {
            None => {
                assert(!role_owned_by(self.roles@, guild_id, role_id, user_id));
                false
            },
            Some(i) => {
                proof {
                    assert(has_role(self.roles@, guild_id, role_id));
                    let w = role_index(self.roles@, guild_id, role_id);
                    assert(self.roles@[w].guild_id == guild_id && self.roles@[w].role_id
                        == role_id);
                    assert(w == i);
                }
                let is_owner = match self.roles[i].owner_user_id {
                    Some(o) => o == user_id,
                    None => false,
                };
                if !is_owner {
                    assert(!role_owned_by(self.roles@, guild_id, role_id, user_id));
                    return false;
                }
                let ghost roles0 = self.roles@;
                proof {
                    lemma_role_remove_frame(roles0, i as int);
                }
                self.roles.remove(i);
                proof {
                    assert forall|g2: u64, u2: u64| #[trigger] count_owned(self.roles@, g2, u2)
                        <= MAX_OWNED_ROLES by {
                        lemma_count_owned_remove(roles0, i as int, g2, u2);
                        assert(count_owned(roles0, g2, u2) <= MAX_OWNED_ROLES);
                    }
                }
                true
            },
        }
    }

    /// Give orphaned role (`guild_id`, `role_id`) to `user_id`,
    /// conditioned — in the same transition — on the row existing, being
    /// an orphan, and the new owner being under quota.  Returns whether
    /// exactly one row changed.
    pub fn take_ownership(&mut self, guild_id: u64, role_id: u64, user_id: u64) -> (changed: bool)
        requires
            old(self).wf(),
        ensures
            final(self).wf(),
            changed == spec_can_take(old(self).roles@, guild_id, role_id, user_id),
            changed ==> final(self).roles@ == old(self).roles@.update(
                role_index(old(self).roles@, guild_id, role_id),
                RoleRecord {
                    owner_user_id: Some(user_id),
                    ..role_at(old(self).roles@, guild_id, role_id)
                },
            ) && role_owned_by(final(self).roles@, guild_id, role_id, user_id),
            !changed ==> final(self).roles@ == old(self).roles@,
            forall|g2: u64, r2: u64|
                !(g2 == guild_id && r2 == role_id) ==> has_role(final(self).roles@, g2, r2)
                    == has_role(old(self).roles@, g2, r2) && (has_role(old(self).roles@, g2, r2)
                    ==> role_at(final(self).roles@, g2, r2) == role_at(old(self).roles@, g2, r2)),
            final(self).guilds@ == old(self).guilds@,
            final(self).user_roles@ == old(self).user_roles@,
            final(self).balances@ == old(self).balances@,
    {
        match self.find_role(guild_id, role_id) {
            None => false,
            Some(i) => {
                proof {
                    assert(has_role(self.roles@, guild_id, role_id));
                    let w = role_index(self.roles@, guild_id, role_id);
                    assert(self.roles@[w].guild_id == guild_id && self.roles@[w].role_id
                        == role_id);
                    assert(w == i);
                }
                if self.roles[i].owner_user_id.is_some() {
                    return false;
                }
                let owned = self.list_count(guild_id, user_id);
                if owned >= MAX_OWNED_ROLES {
                    return false;
                }
                let ghost roles0 = self.roles@;
                let ghost oldrec = roles0[i as int];
                self.roles[i].owner_user_id = Some(user_id);
                proof {
                    let newrec = self.roles@[i as int];
                    assert(self.roles@ == roles0.update(i as int, newrec));
                    assert(newrec == RoleRecord { owner_user_id: Some(user_id), ..oldrec });
                    lemma_role_update_frame(roles0, i as int, newrec);
                    assert forall|g2: u64, u2: u64| #[trigger] count_owned(self.roles@, g2, u2)
                        <= MAX_OWNED_ROLES by {
                        lemma_count_owned_update(roles0, i as int, newrec, g2, u2);
                        assert(count_owned(roles0, g2, u2) <= MAX_OWNED_ROLES);
                        assert(!owns(oldrec, g2, u2));
                        if owns(newrec, g2, u2) {
                            assert(g2 == guild_id && u2 == user_id);
                        }
                    }
                }
                true
            },
        }
    }
}

/// Law: the per-owner quota is an invariant of the store.  In every
/// well-formed state — and each operation of this crate carries
/// well-formedness from state to state — no user owns more than
/// `MAX_OWNED_ROLES` roles in any one guild, whatever sequence of role
/// creations and ownership claims produced the state.
pub proof fn lemma_quota_invariant(h: &Handler, g: u64, u: u64)
    requires
        h.wf(),
    ensures
        count_owned(h.roles@, g, u) <= MAX_OWNED_ROLES,
{
}

} // verus!
