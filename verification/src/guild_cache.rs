//! The per-guild index of cached state, hydrated lazily on first
//! reference.
//!
//! Hydration is single-flight per guild: a hydrate call for a guild that
//! is already present changes nothing, so of two callers racing the
//! first access exactly one builds the state and the other receives the
//! same resulting state.  Grant and revoke traffic for one guild runs
//! against that guild's entry alone; entries of other guilds are
//! untouched.

use vstd::prelude::*;

use crate::guild_state::GrantError;
use crate::guild_state::GuildState;
use crate::guild_state::RevokeError;
use crate::guild_state::RoleListing;
use crate::guild_state::spec_grant_result;
use crate::guild_state::spec_revoke_result;
use crate::guild_state::GrantRow;
use crate::guild_state::granted;
use crate::guild_state::grant_stamp;
use crate::guild_state::listed_managed;

verus! {

/// One cached guild.
pub struct CacheEntry {
    pub guild_id: u64,
    pub state: GuildState,
}

/// The lazily-hydrated index of guild state, keyed by guild.
pub struct GuildCache {
    pub entries: Vec<CacheEntry>,
}

/// True when the cache holds guild `g`.
pub open spec fn hydrated(entries: Seq<CacheEntry>, g: u64) -> bool {
    exists|i: int| 0 <= i < entries.len() && entries[i].guild_id == g
}

/// The index of guild `g`'s entry (unique under `GuildCache::wf`).
pub open spec fn cache_index(entries: Seq<CacheEntry>, g: u64) -> int {
    choose|i: int| 0 <= i < entries.len() && entries[i].guild_id == g
}

/// The cached state of guild `g`; meaningful when `hydrated` holds.
pub open spec fn state_of(entries: Seq<CacheEntry>, g: u64) -> GuildState {
    entries[cache_index(entries, g)].state
}

/// Replacing entry `i` by one with the same key changes exactly that
/// guild's state and no other's.
proof fn lemma_cache_update_frame(entries: Seq<CacheEntry>, i: int, x: CacheEntry)
    requires
        forall|a: int, b: int|
            0 <= a < b < entries.len() ==> entries[a].guild_id != entries[b].guild_id,
        0 <= i < entries.len(),
        x.guild_id == entries[i].guild_id,
    ensures
        forall|a: int, b: int|
            0 <= a < b < entries.update(i, x).len() ==> entries.update(i, x)[a].guild_id
                != entries.update(i, x)[b].guild_id,
        cache_index(entries, entries[i].guild_id) == i,
        hydrated(entries.update(i, x), x.guild_id),
        state_of(entries.update(i, x), x.guild_id) == x.state,
        forall|g: u64|
            g != x.guild_id ==> hydrated(entries.update(i, x), g) == hydrated(entries, g)
                && (hydrated(entries, g) ==> state_of(entries.update(i, x), g) == state_of(
                entries,
                g,
            )),
{
    let upd = entries.update(i, x);
    assert(upd[i] == x);
    assert(hydrated(upd, x.guild_id));
    assert forall|w: int| 0 <= w < upd.len() && upd[w].guild_id == x.guild_id implies w == i by {
        if w != i {
            assert(upd[w] == entries[w]);
        }
    }
    let v0 = cache_index(upd, x.guild_id);
    assert(upd[v0].guild_id == x.guild_id);
    assert(v0 == i);
    assert forall|w: int|
        0 <= w < entries.len() && entries[w].guild_id == entries[i].guild_id implies w == i by {
        if w != i {
            assert(upd[w] == entries[w]);
        }
    }
    assert forall|g: u64|
        g != x.guild_id implies hydrated(upd, g) == hydrated(entries, g) && (hydrated(entries, g)
        ==> state_of(upd, g) == state_of(entries, g)) by {
        if hydrated(upd, g) {
            let w = choose|w: int| 0 <= w < upd.len() && upd[w].guild_id == g;
            assert(w != i);
            assert(upd[w] == entries[w]);
            assert(hydrated(entries, g));
        }
        if hydrated(entries, g) {
            let w = choose|w: int| 0 <= w < entries.len() && entries[w].guild_id == g;
            assert(w != i);
            assert(upd[w] == entries[w]);
            assert(hydrated(upd, g));
            let v = cache_index(upd, g);
            assert(v != i);
            assert(upd[v] == entries[v]);
            assert(v == w);
            let t = cache_index(entries, g);
            assert(t == w);
        }
    }
}

impl GuildCache {
    /// Each guild has at most one entry, and every cached state is
    /// well-formed.
    pub open spec fn wf(self) -> bool {
        &&& forall|i: int, j: int|
            0 <= i < j < self.entries@.len() ==> self.entries@[i].guild_id
                != self.entries@[j].guild_id
        &&& forall|i: int| 0 <= i < self.entries@.len() ==> (#[trigger] self.entries@[i].state).wf()
    }

    /// An empty cache: no guild hydrated yet.
    pub fn new() -> (cache: Self)
        ensures
            cache.wf(),
            cache.entries@.len() == 0,
    {
        GuildCache { entries: Vec::new() }
    }

    /// The index of guild `guild_id`'s entry, if hydrated.
    fn find_entry(&self, guild_id: u64) -> (r: Option<usize>)
        ensures
            match r {
                Some(i) => 0 <= i < self.entries@.len() && self.entries@[i as int].guild_id
                    == guild_id,
                None => !hydrated(self.entries@, guild_id),
            },
    {
        let mut i: usize = 0;
        while i < self.entries.len()
            invariant
                0 <= i <= self.entries@.len(),
                forall|j: int| 0 <= j < i ==> self.entries@[j].guild_id != guild_id,
            decreases self.entries@.len() - i,
        {
            if self.entries[i].guild_id == guild_id {
                return Some(i);
            }
            i += 1;
        }
        None
    }

    /// Hydrate guild `guild_id` from the given role listings on first
    /// reference.  Single-flight: when the guild is already hydrated
    /// nothing changes and the caller receives the same resulting state;
    /// `fresh` says whether this call performed the hydration.
    pub fn get_or_hydrate(&mut self, guild_id: u64, listings: &Vec<RoleListing>) -> (fresh: bool)
        requires
            old(self).wf(),
        ensures
            final(self).wf(),
            fresh == !hydrated(old(self).entries@, guild_id),
            hydrated(final(self).entries@, guild_id),
            !fresh ==> final(self).entries@ == old(self).entries@,
            fresh ==> {
                &&& state_of(final(self).entries@, guild_id).grants@.len() == 0
                &&& forall|r: u64| #[trigger]
                    state_of(final(self).entries@, guild_id).managed_roles@.contains(r)
                        <==> listed_managed(listings@, r)
            },
            forall|g: u64|
                g != guild_id ==> hydrated(final(self).entries@, g) == hydrated(
                    old(self).entries@,
                    g,
                ) && (hydrated(old(self).entries@, g) ==> state_of(final(self).entries@, g)
                    == state_of(old(self).entries@, g)),
    {
        match self.find_entry(guild_id) {
            Some(_) => false,
            None => {
                let state = GuildState::hydrate(listings);
                let entry = CacheEntry { guild_id, state };
                let ghost entries0 = self.entries@;
                self.entries.push(entry);
                proof {
                    let grown = self.entries@;
                    assert(grown[entries0.len() as int] == entry);
                    assert(hydrated(grown, guild_id));
                    let v = cache_index(grown, guild_id);
                    assert(grown[v].guild_id == guild_id);
                    assert(v == entries0.len());
                    assert(state_of(grown, guild_id) == entry.state);
                    assert forall|g: u64|
                        g != guild_id implies hydrated(grown, g) == hydrated(entries0, g)
                        && (hydrated(entries0, g) ==> state_of(grown, g) == state_of(
                        entries0,
                        g,
                    )) by {
                        if hydrated(grown, g) {
                            let w = choose|w: int| 0 <= w < grown.len() && grown[w].guild_id == g;
                            assert(w < entries0.len());
                            assert(grown[w] == entries0[w]);
                            assert(hydrated(entries0, g));
                        }
                        if hydrated(entries0, g) {
                            let w = choose|w: int|
                                0 <= w < entries0.len() && entries0[w].guild_id == g;
                            assert(grown[w] == entries0[w]);
                            assert(hydrated(grown, g));
                            let v2 = cache_index(grown, g);
                            assert(v2 < entries0.len());
                            assert(v2 == w);
                            let t = cache_index(entries0, g);
                            assert(t == w);
                        }
                    }
                }
                true
            },
        }
    }

    /// Grant `role` to `user` in hydrated guild `guild_id`: the
    /// transition of `GuildState::grant` on that guild's entry alone.
    pub fn grant(&mut self, guild_id: u64, user: u64, role: u64, stamp: u64) -> (r: Result<
        (),
        GrantError,
    >)
        requires
            old(self).wf(),
            hydrated(old(self).entries@, guild_id),
        ensures
            final(self).wf(),
            hydrated(final(self).entries@, guild_id),
            r == spec_grant_result(
                state_of(old(self).entries@, guild_id).managed_roles@,
                state_of(old(self).entries@, guild_id).grants@,
                user,
                role,
            ),
            r is Ok ==> state_of(final(self).entries@, guild_id).grants@ == state_of(
                old(self).entries@,
                guild_id,
            ).grants@.push(GrantRow { user_id: user, role_id: role, stamp }),
            r is Err ==> state_of(final(self).entries@, guild_id).grants@ == state_of(
                old(self).entries@,
                guild_id,
            ).grants@,
            state_of(final(self).entries@, guild_id).managed_roles@ == state_of(
                old(self).entries@,
                guild_id,
            ).managed_roles@,
            state_of(final(self).entries@, guild_id).role_names@ == state_of(
                old(self).entries@,
                guild_id,
            ).role_names@,
            forall|g: u64|
                g != guild_id ==> hydrated(final(self).entries@, g) == hydrated(
                    old(self).entries@,
                    g,
                ) && (hydrated(old(self).entries@, g) ==> state_of(final(self).entries@, g)
                    == state_of(old(self).entries@, g)),
    {
        let i = match self.find_entry(guild_id) {
            Some(i) => i,
            None => {
                proof {
                    assert(false);
                }
                return Err(GrantError::RoleNotManaged);
            },
        };
        let ghost entries0 = self.entries@;
        proof {
            let w = cache_index(entries0, guild_id);
            assert(entries0[w].guild_id == guild_id);
            assert(w == i);
        }
        let r = self.entries[i].state.grant(user, role, stamp);
        proof {
            lemma_cache_update_frame(entries0, i as int, self.entries@[i as int]);
        }
        r
    }

    /// Revoke `role` from `user` in hydrated guild `guild_id` once the
    /// grant is `min_age` seconds old at `now`: the transition of
    /// `GuildState::revoke` on that guild's entry alone.
    pub fn revoke(&mut self, guild_id: u64, user: u64, role: u64, min_age: u64, now: u64) -> (r:
        Result<u64, RevokeError>)
        requires
            old(self).wf(),
            hydrated(old(self).entries@, guild_id),
        ensures
            final(self).wf(),
            hydrated(final(self).entries@, guild_id),
            r == spec_revoke_result(
                state_of(old(self).entries@, guild_id).grants@,
                user,
                role,
                min_age,
                now,
            ),
            r is Ok ==> !granted(state_of(final(self).entries@, guild_id).grants@, user, role),
            r is Err ==> state_of(final(self).entries@, guild_id).grants@ == state_of(
                old(self).entries@,
                guild_id,
            ).grants@,
            state_of(final(self).entries@, guild_id).managed_roles@ == state_of(
                old(self).entries@,
                guild_id,
            ).managed_roles@,
            state_of(final(self).entries@, guild_id).role_names@ == state_of(
                old(self).entries@,
                guild_id,
            ).role_names@,
            forall|u2: u64, r2: u64|
                !(u2 == user && r2 == role) ==> granted(
                    state_of(final(self).entries@, guild_id).grants@,
                    u2,
                    r2,
                ) == granted(state_of(old(self).entries@, guild_id).grants@, u2, r2) && (granted(
                    state_of(old(self).entries@, guild_id).grants@,
                    u2,
                    r2,
                ) ==> grant_stamp(state_of(final(self).entries@, guild_id).grants@, u2, r2)
                    == grant_stamp(state_of(old(self).entries@, guild_id).grants@, u2, r2)),
            forall|g: u64|
                g != guild_id ==> hydrated(final(self).entries@, g) == hydrated(
                    old(self).entries@,
                    g,
                ) && (hydrated(old(self).entries@, g) ==> state_of(final(self).entries@, g)
                    == state_of(old(self).entries@, g)),
    {
        let i = match self.find_entry(guild_id) {
            Some(i) => i,
            None => {
                proof {
                    assert(false);
                }
                return Err(RevokeError::NotGranted);
            },
        };
        let ghost entries0 = self.entries@;
        proof {
            let w = cache_index(entries0, guild_id);
            assert(entries0[w].guild_id == guild_id);
            assert(w == i);
        }
        let r = self.entries[i].state.revoke(user, role, min_age, now);
        proof {
            lemma_cache_update_frame(entries0, i as int, self.entries@[i as int]);
        }
        r
    }
}

} // verus!
