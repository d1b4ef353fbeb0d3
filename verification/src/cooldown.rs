//! Generic per-key rate limiter.
//!
//! A `CooldownGuard` maps keys to the instant their cooldown window was
//! opened.  A key may be a single subject or an ordered pair (actor,
//! target); keys compare structurally.  `check` is a single atomic
//! check-and-mutate: it either opens a fresh window, clears an expired
//! one, or reports the remaining wait.

use vstd::prelude::*;

verus! {

/// The per-user window between creations of fresh roles.
pub const NEW_ROLE_COOLDOWN_SECONDS: u64 = 60 * 60 * 24 * 14;

/// Key of a rate-limited action: one subject, or an ordered pair of them.
#[derive(Clone, Copy, PartialEq, Eq, Structural, Debug)]
pub enum CooldownKey {
    User(u64),
    Pair(u64, u64),
}

/// An open cooldown window: the key and the instant it was stamped.
#[derive(Clone, Copy, PartialEq, Eq, Structural, Debug)]
pub struct CooldownEntry {
    pub key: CooldownKey,
    pub started: u64,
}

/// Per-key rate limiter state.  An entry present means the window for
/// its key is open; an absent key means no restriction.
pub struct CooldownGuard {
    pub entries: Vec<CooldownEntry>,
}

/// Each key appears in at most one entry.
pub open spec fn unique_keys(entries: Seq<CooldownEntry>) -> bool {
    forall|i: int, j: int| 0 <= i < j < entries.len() ==> entries[i].key != entries[j].key
}

/// True when some entry holds `key`.
pub open spec fn has_key(entries: Seq<CooldownEntry>, key: CooldownKey) -> bool {
    exists|i: int| 0 <= i < entries.len() && entries[i].key == key
}

/// The stamp recorded for `key` (meaningful only when `has_key` holds
/// and the keys are unique).
pub open spec fn stamp_of(entries: Seq<CooldownEntry>, key: CooldownKey) -> u64 {
    let i = choose|i: int| 0 <= i < entries.len() && entries[i].key == key;
    entries[i].started
}

/// Time passed since `stamp`, clamped below at zero so that a stamp in
/// the future counts as no elapsed time at all.
pub open spec fn elapsed(now: u64, stamp: u64) -> int {
    if now >= stamp {
        now - stamp
    } else {
        0
    }
}

/// Removing the one entry that holds `key` erases exactly that key and
/// moves no other key's stamp.
proof fn lemma_remove_entry(entries: Seq<CooldownEntry>, i: int, key: CooldownKey)
    requires
        unique_keys(entries),
        0 <= i < entries.len(),
        entries[i].key == key,
    ensures
        unique_keys(entries.remove(i)),
        !has_key(entries.remove(i), key),
        forall|k: CooldownKey| k != key ==> has_key(entries.remove(i), k) == has_key(entries, k),
        forall|k: CooldownKey|
            k != key && has_key(entries, k) ==> stamp_of(entries.remove(i), k) == stamp_of(
                entries,
                k,
            ),
{
    let rest = entries.remove(i);
    assert forall|w: int| 0 <= w < rest.len() implies rest[w].key != key by {
        if w < i {
            assert(rest[w] == entries[w]);
        } else {
            assert(rest[w] == entries[w + 1]);
        }
    }
    assert forall|k: CooldownKey| k != key && has_key(rest, k) implies has_key(entries, k) by {
        let w = choose|w: int| 0 <= w < rest.len() && rest[w].key == k;
        if w < i {
            assert(rest[w] == entries[w]);
        } else {
            assert(rest[w] == entries[w + 1]);
        }
    }
    assert forall|k: CooldownKey| k != key && has_key(entries, k) implies has_key(rest, k)
        && stamp_of(rest, k) == stamp_of(entries, k) by {
        let w = choose|w: int| 0 <= w < entries.len() && entries[w].key == k;
        if w < i {
            assert(rest[w] == entries[w]);
        } else {
            assert(rest[w - 1] == entries[w]);
        }
        assert(has_key(rest, k));
        let v = choose|v: int| 0 <= v < rest.len() && rest[v].key == k;
        let v_orig: int = if v < i {
            v
        } else {
            v + 1
        };
        assert(rest[v] == entries[v_orig]);
        assert(v_orig == w);
        let u = choose|u: int| 0 <= u < entries.len() && entries[u].key == k;
        assert(u == w);
    }
}

/// Appending an entry for a fresh key keeps the keys unique, records its
/// stamp, and moves no other key's stamp.
proof fn lemma_push_entry(entries: Seq<CooldownEntry>, e: CooldownEntry)
    requires
        unique_keys(entries),
        !has_key(entries, e.key),
    ensures
        unique_keys(entries.push(e)),
        has_key(entries.push(e), e.key),
        forall|k: CooldownKey| k != e.key ==> has_key(entries.push(e), k) == has_key(entries, k),
        forall|k: CooldownKey|
            k != e.key && has_key(entries, k) ==> stamp_of(entries.push(e), k) == stamp_of(
                entries,
                k,
            ),
{
    let grown = entries.push(e);
    assert(grown[entries.len() as int] == e);
    assert forall|k: CooldownKey| k != e.key && has_key(grown, k) implies has_key(entries, k) by {
        let w = choose|w: int| 0 <= w < grown.len() && grown[w].key == k;
        assert(w < entries.len());
        assert(grown[w] == entries[w]);
    }
    assert forall|k: CooldownKey| k != e.key && has_key(entries, k) implies has_key(grown, k)
        && stamp_of(grown, k) == stamp_of(entries, k) by {
        let w = choose|w: int| 0 <= w < entries.len() && entries[w].key == k;
        assert(grown[w] == entries[w]);
        assert(has_key(grown, k));
        let v = choose|v: int| 0 <= v < grown.len() && grown[v].key == k;
        assert(v < entries.len());
        assert(v == w);
        let u = choose|u: int| 0 <= u < entries.len() && entries[u].key == k;
        assert(u == w);
    }
}

impl CooldownGuard {
    /// Each key appears in at most one entry.
    pub open spec fn wf(self) -> bool {
        unique_keys(self.entries@)
    }

    /// A guard with no open window.
    pub fn new() -> (guard: Self)
        ensures
            guard.wf(),
            guard.entries@.len() == 0,
    {
        CooldownGuard { entries: Vec::new() }
    }

    /// Gate an action under `key` with a window of `window` seconds.
    ///
    /// With no entry for `key`, a window stamped `now` is opened and the
    /// action is allowed.  With an entry whose window has fully elapsed,
    /// the entry is removed and the action is allowed (the next check
    /// will open a fresh window).  Otherwise the entry is left as it is
    /// and `Err` carries the seconds remaining.
    pub fn check(&mut self, key: CooldownKey, window: u64, now: u64) -> (r: Result<(), u64>)
        requires
            old(self).wf(),
        ensures
            final(self).wf(),
            r is Ok <==> !has_key(old(self).entries@, key) || elapsed(
                now,
                stamp_of(old(self).entries@, key),
            ) >= window,
            r matches Err(rem) ==> {
                &&& has_key(old(self).entries@, key)
                &&& elapsed(now, stamp_of(old(self).entries@, key)) < window
                &&& rem == window - elapsed(now, stamp_of(old(self).entries@, key))
                &&& final(self).entries@ == old(self).entries@
            },
            !has_key(old(self).entries@, key) ==> final(self).entries@ == old(self).entries@.push(
                CooldownEntry { key, started: now },
            ) && has_key(final(self).entries@, key) && stamp_of(final(self).entries@, key) == now,
            has_key(old(self).entries@, key) && elapsed(
                now,
                stamp_of(old(self).entries@, key),
            ) >= window ==> !has_key(final(self).entries@, key),
            forall|k: CooldownKey|
                k != key ==> (has_key(final(self).entries@, k) == has_key(old(self).entries@, k)
                    && (has_key(old(self).entries@, k) ==> stamp_of(final(self).entries@, k)
                    == stamp_of(old(self).entries@, k))),
    {
        let ghost entries0 = self.entries@;
        let mut i: usize = 0;
        while i < self.entries.len()
            invariant
                entries0 == old(self).entries@,
                self.entries@ == entries0,
                unique_keys(entries0),
                0 <= i <= entries0.len(),
                forall|j: int| 0 <= j < i ==> entries0[j].key != key,
            decreases entries0.len() - i,
        {
            if self.entries[i].key == key {
                let stamp = self.entries[i].started;
                proof {
                    assert(has_key(entries0, key));
                    let w = choose|w: int| 0 <= w < entries0.len() && entries0[w].key == key;
                    assert(w == i);
                    assert(stamp_of(entries0, key) == stamp);
                }
                let waited: u64 = if now >= stamp {
                    now - stamp
                } else {
                    0
                };
                if waited >= window {
                    self.entries.remove(i);
                    proof {
                        lemma_remove_entry(entries0, i as int, key);
                    }
                    return Ok(());
                } else {
                    return Err(window - waited);
                }
            }
            i += 1;
        }
        assert(!has_key(entries0, key));
        proof {
            lemma_push_entry(entries0, CooldownEntry { key, started: now });
        }
        self.entries.push(CooldownEntry { key, started: now });
        proof {
            let grown = self.entries@;
            assert(grown[entries0.len() as int].key == key);
            assert(has_key(grown, key));
            let v = choose|v: int| 0 <= v < grown.len() && grown[v].key == key;
            assert(v == entries0.len());
            assert(stamp_of(grown, key) == now);
        }
        Ok(())
    }
}

} // verus!
