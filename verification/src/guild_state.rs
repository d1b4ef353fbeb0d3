//! Per-guild cached state: managed roles, the case-sensitive name index,
//! and which user wears which role since when.
//!
//! The state is hydrated from a membership source (the caller hands the
//! role and member listings in as plain values) and then mutated by
//! grant and revoke operations.  Only permission-less roles are ever
//! managed, and every recorded grant refers to a managed role.  A grant
//! is idempotent-once: while one is in place, a second attempt for the
//! same (user, role) pair is refused, never duplicated.

use vstd::prelude::*;

use crate::cooldown::elapsed;

verus! {

/// Minimum age a grant must reach before it may be revoked; also the
/// amount by which hydration backdates pre-existing grants, so that they
/// are immediately eligible for revoke.
pub const GRANT_COOLDOWN_SECONDS: u64 = 60 * 60 * 48;

/// A role as the membership source lists it.
pub struct RoleListing {
    pub role_id: u64,
    pub name: String,
    pub permission_bits: u64,
}

/// A member as the membership source streams it: the user and the roles
/// they currently carry.
pub struct MemberListing {
    pub user_id: u64,
    pub role_ids: Vec<u64>,
}

/// True when the listings carry role `r` without any permission bit:
/// the only kind of role this system ever manages.
pub open spec fn listed_managed(listings: Seq<RoleListing>, r: u64) -> bool {
    exists|i: int|
        0 <= i < listings.len() && listings[i].role_id == r && listings[i].permission_bits == 0
}

/// True when the listings carry a permission-less role named `n`.
pub open spec fn listed_name(listings: Seq<RoleListing>, n: Seq<char>) -> bool {
    exists|i: int|
        0 <= i < listings.len() && listings[i].name@ == n && listings[i].permission_bits == 0
}

/// One recorded grant: `user_id` wears `role_id` since `stamp`.
#[derive(Clone, Copy, PartialEq, Eq, Structural, Debug)]
pub struct GrantRow {
    pub user_id: u64,
    pub role_id: u64,
    pub stamp: u64,
}

/// Why a grant was refused.
#[derive(Clone, Copy, PartialEq, Eq, Structural, Debug)]
pub enum GrantError {
    /// The role is not managed by this system.
    RoleNotManaged,
    /// A grant for this (user, role) pair is already in place.
    AlreadyGranted,
}

/// Why a revoke was refused.
#[derive(Clone, Copy, PartialEq, Eq, Structural, Debug)]
pub enum RevokeError {
    /// No grant for this (user, role) pair is in place.
    NotGranted,
    /// The grant is younger than the required minimum age; the payload
    /// is the remaining wait in seconds.
    CooldownActive(u64),
}

/// True when a grant for (user, role) is recorded.
pub open spec fn granted(grants: Seq<GrantRow>, user: u64, role: u64) -> bool {
    exists|i: int| 0 <= i < grants.len() && grants[i].user_id == user && grants[i].role_id == role
}

/// The stamp of the grant for (user, role); meaningful only when
/// `granted` holds and the pairs are unique.
pub open spec fn grant_stamp(grants: Seq<GrantRow>, user: u64, role: u64) -> u64 {
    let i = choose|i: int|
        0 <= i < grants.len() && grants[i].user_id == user && grants[i].role_id == role;
    grants[i].stamp
}

/// Each (user, role) pair is recorded at most once.
pub open spec fn grants_unique(grants: Seq<GrantRow>) -> bool {
    forall|i: int, j: int|
        0 <= i < j < grants.len() ==> !(grants[i].user_id == grants[j].user_id
            && grants[i].role_id == grants[j].role_id)
}

/// True when `name` is in the name index.
pub open spec fn has_name(names: Seq<String>, name: Seq<char>) -> bool {
    exists|i: int| 0 <= i < names.len() && names[i]@ == name
}

/// The decision `grant` takes on a state with the given managed roles
/// and grants.
pub open spec fn spec_grant_result(
    managed: Seq<u64>,
    grants: Seq<GrantRow>,
    user: u64,
    role: u64,
) -> Result<(), GrantError> {
    if !managed.contains(role) {
        Err(GrantError::RoleNotManaged)
    } else if granted(grants, user, role) {
        Err(GrantError::AlreadyGranted)
    } else {
        Ok(())
    }
}

/// The decision `revoke` takes on the given grants at time `now`.
pub open spec fn spec_revoke_result(
    grants: Seq<GrantRow>,
    user: u64,
    role: u64,
    min_age: u64,
    now: u64,
) -> Result<u64, RevokeError> {
    if !granted(grants, user, role) {
        Err(RevokeError::NotGranted)
    } else if elapsed(now, grant_stamp(grants, user, role)) < min_age {
        Err(RevokeError::CooldownActive(
            (min_age - elapsed(now, grant_stamp(grants, user, role))) as u64,
        ))
    } else {
        Ok(grant_stamp(grants, user, role))
    }
}

/// Cached state of one guild.
pub struct GuildState {
    /// Roles this system created or administers; roles outside this set
    /// are never touched.
    pub managed_roles: Vec<u64>,
    /// Case-sensitive dedup index for new-role creation.
    pub role_names: Vec<String>,
    /// Which user wears which managed role since when.
    pub grants: Vec<GrantRow>,
}

/// Removing grant `i` erases exactly its (user, role) pair and moves no
/// other pair's stamp.
proof fn lemma_remove_grant(grants: Seq<GrantRow>, i: int)
    requires
        grants_unique(grants),
        0 <= i < grants.len(),
    ensures
        grants_unique(grants.remove(i)),
        !granted(grants.remove(i), grants[i].user_id, grants[i].role_id),
        forall|u: u64, r: u64|
            !(u == grants[i].user_id && r == grants[i].role_id) ==> granted(grants.remove(i), u, r)
                == granted(grants, u, r),
        forall|u: u64, r: u64|
            !(u == grants[i].user_id && r == grants[i].role_id) && granted(grants, u, r)
                ==> grant_stamp(grants.remove(i), u, r) == grant_stamp(grants, u, r),
{
    let rest = grants.remove(i);
    let user = grants[i].user_id;
    let role = grants[i].role_id;
    assert forall|w: int| 0 <= w < rest.len() implies !(rest[w].user_id == user && rest[w].role_id
        == role) by {
        if w < i {
            assert(rest[w] == grants[w]);
        } else {
            assert(rest[w] == grants[w + 1]);
        }
    }
    assert forall|u: u64, r: u64| !(u == user && r == role) && granted(rest, u, r) implies granted(
        grants,
        u,
        r,
    ) by {
        let w = choose|w: int| 0 <= w < rest.len() && rest[w].user_id == u && rest[w].role_id == r;
        if w < i {
            assert(rest[w] == grants[w]);
        } else {
            assert(rest[w] == grants[w + 1]);
        }
    }
    assert forall|u: u64, r: u64| !(u == user && r == role) && granted(grants, u, r) implies
        granted(rest, u, r) && grant_stamp(rest, u, r) == grant_stamp(grants, u, r) by {
        let w = choose|w: int|
            0 <= w < grants.len() && grants[w].user_id == u && grants[w].role_id == r;
        if w < i {
            assert(rest[w] == grants[w]);
        } else {
            assert(rest[w - 1] == grants[w]);
        }
        assert(granted(rest, u, r));
        let v = choose|v: int| 0 <= v < rest.len() && rest[v].user_id == u && rest[v].role_id == r;
        let v_orig: int = if v < i {
            v
        } else {
            v + 1
        };
        assert(rest[v] == grants[v_orig]);
        assert(v_orig == w);
        let t = choose|t: int|
            0 <= t < grants.len() && grants[t].user_id == u && grants[t].role_id == r;
        assert(t == w);
    }
}

/// Appending a grant for a fresh (user, role) pair keeps the pairs
/// unique, records its stamp, and moves no other pair's stamp.
proof fn lemma_push_grant(grants: Seq<GrantRow>, g: GrantRow)
    requires
        grants_unique(grants),
        !granted(grants, g.user_id, g.role_id),
    ensures
        grants_unique(grants.push(g)),
        granted(grants.push(g), g.user_id, g.role_id),
        grant_stamp(grants.push(g), g.user_id, g.role_id) == g.stamp,
        forall|u: u64, r: u64|
            !(u == g.user_id && r == g.role_id) ==> granted(grants.push(g), u, r) == granted(
                grants,
                u,
                r,
            ),
        forall|u: u64, r: u64|
            !(u == g.user_id && r == g.role_id) && granted(grants, u, r) ==> grant_stamp(
                grants.push(g),
                u,
                r,
            ) == grant_stamp(grants, u, r),
{
    let grown = grants.push(g);
    assert(grown[grants.len() as int] == g);
    let v0 = choose|v: int|
        0 <= v < grown.len() && grown[v].user_id == g.user_id && grown[v].role_id == g.role_id;
    assert(grown[v0] == grants[v0] || v0 == grants.len());
    assert(v0 == grants.len());
    assert forall|u: u64, r: u64|
        !(u == g.user_id && r == g.role_id) && granted(grown, u, r) implies granted(
        grants,
        u,
        r,
    ) by {
        let w = choose|w: int| 0 <= w < grown.len() && grown[w].user_id == u && grown[w].role_id
            == r;
        assert(w < grants.len());
        assert(grown[w] == grants[w]);
    }
    assert forall|u: u64, r: u64|
        !(u == g.user_id && r == g.role_id) && granted(grants, u, r) implies granted(grown, u, r)
        && grant_stamp(grown, u, r) == grant_stamp(grants, u, r) by {
        let w = choose|w: int|
            0 <= w < grants.len() && grants[w].user_id == u && grants[w].role_id == r;
        assert(grown[w] == grants[w]);
        assert(granted(grown, u, r));
        let v = choose|v: int| 0 <= v < grown.len() && grown[v].user_id == u && grown[v].role_id
            == r;
        assert(v < grants.len());
        assert(v == w);
        let t = choose|t: int|
            0 <= t < grants.len() && grants[t].user_id == u && grants[t].role_id == r;
        assert(t == w);
    }
}

impl GuildState {
    /// Managed roles and names are sets (no duplicates), each (user,
    /// role) pair is granted at most once, and every granted role is
    /// managed.
    pub open spec fn wf(self) -> bool {
        &&& forall|i: int, j: int|
            0 <= i < j < self.managed_roles@.len() ==> self.managed_roles@[i]
                != self.managed_roles@[j]
        &&& forall|i: int, j: int|
            0 <= i < j < self.role_names@.len() ==> self.role_names@[i]@ != self.role_names@[j]@
        &&& grants_unique(self.grants@)
        &&& forall|i: int|
            0 <= i < self.grants@.len() ==> self.managed_roles@.contains(
                #[trigger] self.grants@[i].role_id,
            )
    }

    /// A guild with nothing managed and nothing granted.
    pub fn new() -> (state: Self)
        ensures
            state.wf(),
            state.managed_roles@.len() == 0,
            state.role_names@.len() == 0,
            state.grants@.len() == 0,
    {
        GuildState { managed_roles: Vec::new(), role_names: Vec::new(), grants: Vec::new() }
    }

    /// True when `role` is managed.
    pub fn is_managed(&self, role: u64) -> (r: bool)
        ensures
            r == self.managed_roles@.contains(role),
    {
        let mut i: usize = 0;
        while i < self.managed_roles.len()
            invariant
                0 <= i <= self.managed_roles@.len(),
                forall|j: int| 0 <= j < i ==> self.managed_roles@[j] != role,
            decreases self.managed_roles@.len() - i,
        {
            if self.managed_roles[i] == role {
                return true;
            }
            i += 1;
        }
        false
    }

    /// The index of the grant for (user, role), if one is in place.
    fn find_grant(&self, user: u64, role: u64) -> (r: Option<usize>)
        requires
            self.wf(),
        ensures
            match r {
                Some(i) => 0 <= i < self.grants@.len() && self.grants@[i as int].user_id == user
                    && self.grants@[i as int].role_id == role,
                None => !granted(self.grants@, user, role),
            },
    {
        let mut i: usize = 0;
        while i < self.grants.len()
            invariant
                0 <= i <= self.grants@.len(),
                forall|j: int|
                    0 <= j < i ==> !(self.grants@[j].user_id == user && self.grants@[j].role_id
                        == role),
            decreases self.grants@.len() - i,
        {
            if self.grants[i].user_id == user && self.grants[i].role_id == role {
                return Some(i);
            }
            i += 1;
        }
        None
    }

    /// Add `role` to the managed set (no effect when already managed).
    pub fn add_managed_role(&mut self, role: u64) -> (fresh: bool)
        requires
            old(self).wf(),
        ensures
            final(self).wf(),
            fresh == !old(self).managed_roles@.contains(role),
            fresh ==> final(self).managed_roles@ == old(self).managed_roles@.push(role),
            !fresh ==> final(self).managed_roles@ == old(self).managed_roles@,
            final(self).managed_roles@.contains(role),
            forall|r: u64|
                r != role ==> final(self).managed_roles@.contains(r) == old(
                    self,
                ).managed_roles@.contains(r),
            final(self).role_names@ == old(self).role_names@,
            final(self).grants@ == old(self).grants@,
    {
        let ghost managed0 = self.managed_roles@;
        let mut i: usize = 0;
        while i < self.managed_roles.len()
            invariant
                self == old(self),
                old(self).wf(),
                self.managed_roles@ == managed0,
                0 <= i <= managed0.len(),
                forall|j: int| 0 <= j < i ==> managed0[j] != role,
            decreases managed0.len() - i,
        {
            if self.managed_roles[i] == role {
                assert(managed0.contains(role));
                return false;
            }
            i += 1;
        }
        assert(!managed0.contains(role));
        self.managed_roles.push(role);
        assert(self.managed_roles@[managed0.len() as int] == role);
        assert forall|r: u64| self.managed_roles@.contains(r) implies r == role
            || managed0.contains(r) by {
            let w = choose|w: int| 0 <= w < self.managed_roles@.len() && self.managed_roles@[w]
                == r;
            if w < managed0.len() {
                assert(managed0[w] == r);
            }
        }
        assert forall|r: u64| managed0.contains(r) implies self.managed_roles@.contains(r) by {
            let w = choose|w: int| 0 <= w < managed0.len() && managed0[w] == r;
            assert(self.managed_roles@[w] == r);
        }
        assert forall|i2: int|
            0 <= i2 < self.grants@.len() implies self.managed_roles@.contains(
            #[trigger] self.grants@[i2].role_id,
        ) by {
            assert(managed0.contains(self.grants@[i2].role_id));
        }
        true
    }

    /// Add `name` to the case-sensitive name index; refused when an
    /// identical name is already present.
    pub fn insert_role_name(&mut self, name: String) -> (fresh: bool)
        requires
            old(self).wf(),
        ensures
            final(self).wf(),
            fresh == !has_name(old(self).role_names@, name@),
            fresh ==> final(self).role_names@ == old(self).role_names@.push(name),
            !fresh ==> final(self).role_names@ == old(self).role_names@,
            has_name(final(self).role_names@, name@),
            final(self).managed_roles@ == old(self).managed_roles@,
            final(self).grants@ == old(self).grants@,
    {
        let ghost names0 = self.role_names@;
        let mut i: usize = 0;
        while i < self.role_names.len()
            invariant
                self == old(self),
                old(self).wf(),
                self.role_names@ == names0,
                0 <= i <= names0.len(),
                forall|j: int| 0 <= j < i ==> names0[j]@ != name@,
            decreases names0.len() - i,
        {
            if self.role_names[i] == name {
                assert(has_name(names0, name@));
                return false;
            }
            i += 1;
        }
        assert(!has_name(names0, name@));
        self.role_names.push(name);
        assert(self.role_names@[names0.len() as int]@ == name@);
        assert(has_name(self.role_names@, name@));
        true
    }

    /// Record that `user` wears `role` since `stamp`.
    ///
    /// Fails with `RoleNotManaged` when the role is outside the managed
    /// set (re-verified here, at the moment of the grant), and with
    /// `AlreadyGranted` when a grant for the pair is already in place;
    /// otherwise the grant is inserted.  On failure the state is
    /// unchanged.  The caller performs the external grant action after
    /// this commits and calls `rollback_grant` if that action fails.
    pub fn grant(&mut self, user: u64, role: u64, stamp: u64) -> (r: Result<(), GrantError>)
        requires
            old(self).wf(),
        ensures
            final(self).wf(),
            r == spec_grant_result(old(self).managed_roles@, old(self).grants@, user, role),
            r is Ok ==> final(self).grants@ == old(self).grants@.push(
                GrantRow { user_id: user, role_id: role, stamp },
            ) && granted(final(self).grants@, user, role) && grant_stamp(
                final(self).grants@,
                user,
                role,
            ) == stamp,
            r is Err ==> final(self).grants@ == old(self).grants@,
            final(self).managed_roles@ == old(self).managed_roles@,
            final(self).role_names@ == old(self).role_names@,
            forall|u: u64, r2: u64|
                !(u == user && r2 == role) ==> granted(final(self).grants@, u, r2) == granted(
                    old(self).grants@,
                    u,
                    r2,
                ) && (granted(old(self).grants@, u, r2) ==> grant_stamp(final(self).grants@, u, r2)
                    == grant_stamp(old(self).grants@, u, r2)),
    {
        if !self.is_managed(role) {
            return Err(GrantError::RoleNotManaged);
        }
        match self.find_grant(user, role) {
            Some(_) => Err(GrantError::AlreadyGranted),
            None => {
                proof {
                    lemma_push_grant(
                        self.grants@,
                        GrantRow { user_id: user, role_id: role, stamp },
                    );
                }
                self.grants.push(GrantRow { user_id: user, role_id: role, stamp });
                Ok(())
            },
        }
    }

    /// Remove the grant for (user, role) without any age check: the
    /// compensation a caller runs when the external grant action failed
    /// after `grant` committed.
    pub fn rollback_grant(&mut self, user: u64, role: u64) -> (was_granted: bool)
        requires
            old(self).wf(),
        ensures
            final(self).wf(),
            was_granted == granted(old(self).grants@, user, role),
            !granted(final(self).grants@, user, role),
            !was_granted ==> final(self).grants@ == old(self).grants@,
            final(self).managed_roles@ == old(self).managed_roles@,
            final(self).role_names@ == old(self).role_names@,
            forall|u: u64, r2: u64|
                !(u == user && r2 == role) ==> granted(final(self).grants@, u, r2) == granted(
                    old(self).grants@,
                    u,
                    r2,
                ) && (granted(old(self).grants@, u, r2) ==> grant_stamp(final(self).grants@, u, r2)
                    == grant_stamp(old(self).grants@, u, r2)),
    {
        match self.find_grant(user, role) {
            None => false,
            Some(i) => {
                proof {
                    lemma_remove_grant(self.grants@, i as int);
                }
                self.grants.remove(i);
                true
            },
        }
    }

    /// Remove the grant for (user, role) once it is at least `min_age`
    /// seconds old at time `now`, returning the prior stamp.
    ///
    /// Fails with `NotGranted` when no grant is in place, and with
    /// `CooldownActive` (carrying the remaining wait) while the grant is
    /// too young; in both cases the state is unchanged.
    pub fn revoke(&mut self, user: u64, role: u64, min_age: u64, now: u64) -> (r: Result<
        u64,
        RevokeError,
    >)
        requires
            old(self).wf(),
        ensures
            final(self).wf(),
            r == spec_revoke_result(old(self).grants@, user, role, min_age, now),
            r is Ok ==> !granted(final(self).grants@, user, role),
            r is Err ==> final(self).grants@ == old(self).grants@,
            final(self).managed_roles@ == old(self).managed_roles@,
            final(self).role_names@ == old(self).role_names@,
            forall|u: u64, r2: u64|
                !(u == user && r2 == role) ==> granted(final(self).grants@, u, r2) == granted(
                    old(self).grants@,
                    u,
                    r2,
                ) && (granted(old(self).grants@, u, r2) ==> grant_stamp(final(self).grants@, u, r2)
                    == grant_stamp(old(self).grants@, u, r2)),
    {
        match self.find_grant(user, role) {
            None => Err(RevokeError::NotGranted),
            Some(i) => {
                let stamp = self.grants[i].stamp;
                proof {
                    let w = choose|w: int|
                        0 <= w < self.grants@.len() && self.grants@[w].user_id == user
                            && self.grants@[w].role_id == role;
                    assert(w == i);
                    assert(grant_stamp(self.grants@, user, role) == stamp);
                }
                let waited: u64 = if now >= stamp {
                    now - stamp
                } else {
                    0
                };
                if waited < min_age {
                    Err(RevokeError::CooldownActive(min_age - waited))
                } else {
                    proof {
                        lemma_remove_grant(self.grants@, i as int);
                    }
                    self.grants.remove(i);
                    Ok(stamp)
                }
            },
        }
    }

    /// Record grants for every listed role of one streamed member that
    /// is managed, stamped `stamp` (hydration backdates this stamp by
    /// the grant cooldown so pre-existing grants are immediately
    /// eligible for revoke).  Grants already in place keep their stamp.
    pub fn seed_member(&mut self, user: u64, role_ids: &Vec<u64>, stamp: u64)
        requires
            old(self).wf(),
        ensures
            final(self).wf(),
            final(self).managed_roles@ == old(self).managed_roles@,
            final(self).role_names@ == old(self).role_names@,
            forall|r: u64|
                role_ids@.contains(r) && old(self).managed_roles@.contains(r) ==> granted(
                    final(self).grants@,
                    user,
                    r,
                ),
            forall|u2: u64, r2: u64|
                granted(old(self).grants@, u2, r2) ==> granted(final(self).grants@, u2, r2)
                    && grant_stamp(final(self).grants@, u2, r2) == grant_stamp(
                    old(self).grants@,
                    u2,
                    r2,
                ),
            forall|u2: u64, r2: u64|
                #[trigger] granted(final(self).grants@, u2, r2) ==> granted(
                    old(self).grants@,
                    u2,
                    r2,
                ) || (u2 == user && role_ids@.contains(r2) && grant_stamp(
                    final(self).grants@,
                    u2,
                    r2,
                ) == stamp),
    {
        let mut i: usize = 0;
        while i < role_ids.len()
            invariant
                old(self).wf(),
                self.wf(),
                self.managed_roles@ == old(self).managed_roles@,
                self.role_names@ == old(self).role_names@,
                0 <= i <= role_ids@.len(),
                forall|j: int|
                    0 <= j < i && old(self).managed_roles@.contains(#[trigger] role_ids@[j])
                        ==> granted(self.grants@, user, role_ids@[j]),
                forall|u2: u64, r2: u64|
                    granted(old(self).grants@, u2, r2) ==> granted(self.grants@, u2, r2)
                        && grant_stamp(self.grants@, u2, r2) == grant_stamp(
                        old(self).grants@,
                        u2,
                        r2,
                    ),
                forall|u2: u64, r2: u64|
                    #[trigger] granted(self.grants@, u2, r2) ==> granted(old(self).grants@, u2, r2)
                        || (u2 == user && role_ids@.contains(r2) && grant_stamp(
                        self.grants@,
                        u2,
                        r2,
                    ) == stamp),
            decreases role_ids@.len() - i,
        {
            let r = role_ids[i];
            assert(role_ids@.contains(r));
            if self.is_managed(r) {
                match self.find_grant(user, r) {
                    Some(_) => {
                        assert(granted(self.grants@, user, r));
                    },
                    None => {
                        let ghost pre = self.grants@;
                        proof {
                            lemma_push_grant(pre, GrantRow { user_id: user, role_id: r, stamp });
                        }
                        self.grants.push(GrantRow { user_id: user, role_id: r, stamp });
                        proof {
                            assert forall|u2: u64, r2: u64| #[trigger]
                                granted(self.grants@, u2, r2) implies granted(
                                old(self).grants@,
                                u2,
                                r2,
                            ) || (u2 == user && role_ids@.contains(r2) && grant_stamp(
                                self.grants@,
                                u2,
                                r2,
                            ) == stamp) by {
                                if u2 == user && r2 == r {
                                    assert(grant_stamp(self.grants@, user, r) == stamp);
                                } else {
                                    assert(granted(pre, u2, r2));
                                    assert(grant_stamp(self.grants@, u2, r2) == grant_stamp(
                                        pre,
                                        u2,
                                        r2,
                                    ));
                                }
                            }
                        }
                    },
                }
            }
            i += 1;
        }
        proof {
            assert forall|r: u64|
                role_ids@.contains(r) && old(self).managed_roles@.contains(r) implies granted(
                self.grants@,
                user,
                r,
            ) by {
                let j = choose|j: int| 0 <= j < role_ids@.len() && role_ids@[j] == r;
                assert(old(self).managed_roles@.contains(role_ids@[j]));
            }
        }
    }

    /// Build a guild's state from the membership source's role listing:
    /// every role carrying any permission bit is discarded (the engine
    /// only ever manages permission-less cosmetic roles — a safety
    /// invariant, not an optimisation), the rest become the managed set
    /// and the name index.  Grants start empty; the caller seeds them by
    /// streaming members through `seed_member`.
    pub fn hydrate(listings: &Vec<RoleListing>) -> (state: GuildState)
        ensures
            state.wf(),
            state.grants@.len() == 0,
            forall|r: u64| #[trigger]
                state.managed_roles@.contains(r) <==> listed_managed(listings@, r),
            forall|n: Seq<char>| #[trigger] has_name(state.role_names@, n) ==> listed_name(
                listings@,
                n,
            ),
            forall|i: int|
                0 <= i < listings@.len() && listings@[i].permission_bits == 0 ==> has_name(
                    state.role_names@,
                    #[trigger] listings@[i].name@,
                ),
    {
        let mut state = GuildState::new();
        let mut i: usize = 0;
        while i < listings.len()
            invariant
                state.wf(),
                state.grants@.len() == 0,
                0 <= i <= listings@.len(),
                forall|r: u64| #[trigger]
                    state.managed_roles@.contains(r) ==> exists|j: int|
                        0 <= j < i && listings@[j].role_id == r && listings@[j].permission_bits
                            == 0,
                forall|j: int|
                    0 <= j < i && listings@[j].permission_bits == 0
                        ==> state.managed_roles@.contains(#[trigger] listings@[j].role_id),
                forall|n: Seq<char>| #[trigger] has_name(state.role_names@, n) ==> exists|j: int|
                    0 <= j < i && listings@[j].name@ == n && listings@[j].permission_bits == 0,
                forall|j: int|
                    0 <= j < i && listings@[j].permission_bits == 0 ==> has_name(
                        state.role_names@,
                        #[trigger] listings@[j].name@,
                    ),
            decreases listings@.len() - i,
        {
            if listings[i].permission_bits == 0 {
                let ghost names_before = state.role_names@;
                state.add_managed_role(listings[i].role_id);
                state.insert_role_name(listings[i].name.clone());
                proof {
                    assert forall|n: Seq<char>| #[trigger]
                        has_name(state.role_names@, n) implies (n == listings@[i as int].name@
                        || has_name(names_before, n)) by {
                        let w = choose|w: int|
                            0 <= w < state.role_names@.len() && state.role_names@[w]@ == n;
                        if w < names_before.len() {
                            assert(names_before[w]@ == n);
                        }
                    }
                    assert forall|n: Seq<char>|
                        has_name(names_before, n) implies has_name(state.role_names@, n) by {
                        let w = choose|w: int|
                            0 <= w < names_before.len() && names_before[w]@ == n;
                        assert(state.role_names@[w]@ == n);
                    }
                }
            }
            i += 1;
        }
        state
    }
}

/// Law: the managed set covers every granted role.  In a well-formed
/// state — which every operation here preserves — each recorded grant
/// refers to a role under management, so the engine never touches a
/// role outside its managed set.
pub proof fn lemma_grants_are_managed(state: &GuildState, i: int)
    requires
        state.wf(),
        0 <= i < state.grants@.len(),
    ensures
        state.managed_roles@.contains(state.grants@[i].role_id),
{
}

/// Law: grants are exactly-once.  When a grant for (user, role) succeeds
/// on some state, a second grant attempt for the same pair on the
/// resulting grants is refused with `AlreadyGranted`.
pub proof fn lemma_grant_exactly_once(
    managed: Seq<u64>,
    grants: Seq<GrantRow>,
    user: u64,
    role: u64,
    stamp: u64,
)
    requires
        spec_grant_result(managed, grants, user, role) is Ok,
    ensures
        spec_grant_result(
            managed,
            grants.push(GrantRow { user_id: user, role_id: role, stamp }),
            user,
            role,
        ) == Err::<(), GrantError>(GrantError::AlreadyGranted),
{
    let grown = grants.push(GrantRow { user_id: user, role_id: role, stamp });
    assert(grown[grants.len() as int].user_id == user);
    assert(granted(grown, user, role));
}

/// Law: cooldown monotonicity of revoke.  Right after a successful
/// grant stamped `stamp`, a revoke with minimum age `min_age` is refused
/// with `CooldownActive` as long as less than `min_age` has elapsed;
/// once `min_age` has elapsed it succeeds and returns the stamp; and on
/// grants without the pair (as after that success) it is refused with
/// `NotGranted`.
pub proof fn lemma_revoke_cooldown(
    managed: Seq<u64>,
    grants: Seq<GrantRow>,
    user: u64,
    role: u64,
    stamp: u64,
    min_age: u64,
    early: u64,
    late: u64,
)
    requires
        grants_unique(grants),
        spec_grant_result(managed, grants, user, role) is Ok,
        elapsed(early, stamp) < min_age,
        elapsed(late, stamp) >= min_age,
    ensures
        spec_revoke_result(
            grants.push(GrantRow { user_id: user, role_id: role, stamp }),
            user,
            role,
            min_age,
            early,
        ) == Err::<u64, RevokeError>(RevokeError::CooldownActive((min_age - elapsed(early, stamp)) as u64)),
        spec_revoke_result(
            grants.push(GrantRow { user_id: user, role_id: role, stamp }),
            user,
            role,
            min_age,
            late,
        ) == Ok::<u64, RevokeError>(stamp),
{
    lemma_push_grant(grants, GrantRow { user_id: user, role_id: role, stamp });
}

/// Law: a revoke on grants that do not hold the pair is refused with
/// `NotGranted`; in particular a second revoke right after a successful
/// one is.
pub proof fn lemma_revoke_exactly_once(
    grants: Seq<GrantRow>,
    user: u64,
    role: u64,
    min_age: u64,
    now: u64,
)
    requires
        !granted(grants, user, role),
    ensures
        spec_revoke_result(grants, user, role, min_age, now) == Err::<u64, RevokeError>(RevokeError::NotGranted),
{
}

} // verus!
