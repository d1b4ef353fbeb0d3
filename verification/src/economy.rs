//! Per-user balances: atomic conditional debit, clamped credit, the
//! periodic income tick, and transfers built from them.
//!
//! Every balance lives in `[0, MAX_BALANCE]`; a user without a row is at
//! the ceiling.  Amount inputs are clamped to the ceiling before use, to
//! bound both overflow and the blast radius of a single transaction.  A
//! debit is one conditional update (`balance >= amount`), so no
//! interleaving of withdrawals can drive a balance below zero.

use vstd::prelude::*;

use crate::store::BalanceRow;
use crate::store::Handler;
use crate::store::MAX_BALANCE;
use crate::store::balance_index;
use crate::store::balances_unique;
use crate::store::has_balance_row;
use crate::store::spec_balance;

verus! {

/// Amounts are clamped to the ceiling before use.
pub open spec fn spec_clamp_amount(amount: u64) -> u64 {
    if amount > MAX_BALANCE {
        MAX_BALANCE
    } else {
        amount
    }
}

/// The balance after crediting `amount` onto `bal`, clamped at the
/// ceiling.
pub open spec fn spec_deposit_new(bal: u64, amount: u64) -> u64 {
    if bal + amount > MAX_BALANCE {
        MAX_BALANCE
    } else {
        (bal + amount) as u64
    }
}

/// The part of a credit that did not fit under the ceiling.
pub open spec fn spec_deposit_leftover(bal: u64, amount: u64) -> u64 {
    if bal + amount > MAX_BALANCE {
        (bal + amount - MAX_BALANCE) as u64
    } else {
        0
    }
}

/// Appending a balance row with a fresh key keeps the keys unique,
/// records its balance, and leaves every other pair's balance unchanged.
proof fn lemma_balance_push_frame(rows: Seq<BalanceRow>, x: BalanceRow)
    requires
        balances_unique(rows),
        !has_balance_row(rows, x.guild_id, x.user_id),
    ensures
        balances_unique(rows.push(x)),
        has_balance_row(rows.push(x), x.guild_id, x.user_id),
        spec_balance(rows.push(x), x.guild_id, x.user_id) == x.balance,
        forall|g: u64, u: u64|
            !(g == x.guild_id && u == x.user_id) ==> spec_balance(rows.push(x), g, u)
                == spec_balance(rows, g, u),
{
    let grown = rows.push(x);
    assert(grown[rows.len() as int] == x);
    assert(has_balance_row(grown, x.guild_id, x.user_id));
    let v0 = balance_index(grown, x.guild_id, x.user_id);
    assert(grown[v0].guild_id == x.guild_id && grown[v0].user_id == x.user_id);
    assert(v0 == rows.len());
    assert forall|g: u64, u: u64|
        !(g == x.guild_id && u == x.user_id) implies spec_balance(grown, g, u) == spec_balance(
        rows,
        g,
        u,
    ) by {
        if has_balance_row(grown, g, u) {
            let w = choose|w: int| 0 <= w < grown.len() && grown[w].guild_id == g
                && grown[w].user_id == u;
            assert(w < rows.len());
            assert(grown[w] == rows[w]);
            assert(has_balance_row(rows, g, u));
        }
        if has_balance_row(rows, g, u) {
            let w = choose|w: int| 0 <= w < rows.len() && rows[w].guild_id == g && rows[w].user_id
                == u;
            assert(grown[w] == rows[w]);
            assert(has_balance_row(grown, g, u));
            let v = balance_index(grown, g, u);
            assert(v < rows.len());
            assert(v == w);
            let t = balance_index(rows, g, u);
            assert(t == w);
        }
    }
}

/// Replacing balance row `i` by a row with the same key keeps the keys
/// unique, records the new balance, and leaves every other pair's
/// balance unchanged.
proof fn lemma_balance_update_frame(rows: Seq<BalanceRow>, i: int, x: BalanceRow)
    requires
        balances_unique(rows),
        0 <= i < rows.len(),
        x.guild_id == rows[i].guild_id,
        x.user_id == rows[i].user_id,
    ensures
        balances_unique(rows.update(i, x)),
        has_balance_row(rows.update(i, x), x.guild_id, x.user_id),
        balance_index(rows, x.guild_id, x.user_id) == i,
        spec_balance(rows.update(i, x), x.guild_id, x.user_id) == x.balance,
        forall|g: u64, u: u64|
            !(g == x.guild_id && u == x.user_id) ==> spec_balance(rows.update(i, x), g, u)
                == spec_balance(rows, g, u),
{
    let upd = rows.update(i, x);
    assert(upd[i] == x);
    assert(has_balance_row(upd, x.guild_id, x.user_id));
    assert forall|w: int|
        0 <= w < upd.len() && upd[w].guild_id == x.guild_id && upd[w].user_id == x.user_id implies w
        == i by {
        if w != i {
            assert(upd[w] == rows[w]);
        }
    }
    let v0 = balance_index(upd, x.guild_id, x.user_id);
    assert(upd[v0].guild_id == x.guild_id && upd[v0].user_id == x.user_id);
    assert(v0 == i);
    assert forall|w: int|
        0 <= w < rows.len() && rows[w].guild_id == x.guild_id && rows[w].user_id == x.user_id
        implies w == i by {
        if w != i {
            assert(upd[w] == rows[w]);
        }
    }
    assert forall|g: u64, u: u64|
        !(g == x.guild_id && u == x.user_id) implies spec_balance(upd, g, u) == spec_balance(
        rows,
        g,
        u,
    ) by {
        if has_balance_row(upd, g, u) {
            let w = choose|w: int| 0 <= w < upd.len() && upd[w].guild_id == g && upd[w].user_id
                == u;
            assert(w != i);
            assert(upd[w] == rows[w]);
            assert(has_balance_row(rows, g, u));
        }
        if has_balance_row(rows, g, u) {
            let w = choose|w: int| 0 <= w < rows.len() && rows[w].guild_id == g && rows[w].user_id
                == u;
            assert(w != i);
            assert(upd[w] == rows[w]);
            assert(has_balance_row(upd, g, u));
            let v = balance_index(upd, g, u);
            assert(v != i);
            assert(upd[v] == rows[v]);
            assert(v == w);
            let t = balance_index(rows, g, u);
            assert(t == w);
        }
    }
}

impl Handler {
    /// The index of the balance row for (`guild_id`, `user_id`).
    fn find_balance(&self, guild_id: u64, user_id: u64) -> (r: Option<usize>)
        ensures
            match r {
                Some(i) => 0 <= i < self.balances@.len() && self.balances@[i as int].guild_id
                    == guild_id && self.balances@[i as int].user_id == user_id,
                None => !has_balance_row(self.balances@, guild_id, user_id),
            },
    {
        let mut i: usize = 0;
        while i < self.balances.len()
            invariant
                0 <= i <= self.balances@.len(),
                forall|j: int|
                    0 <= j < i ==> !(self.balances@[j].guild_id == guild_id
                        && self.balances@[j].user_id == user_id),
            decreases self.balances@.len() - i,
        {
            if self.balances[i].guild_id == guild_id && self.balances[i].user_id == user_id {
                return Some(i);
            }
            i += 1;
        }
        None
    }

    /// Materialise a balance row for (`guild_id`, `user_id`) at the
    /// ceiling, unless one exists.  Returns whether a row was inserted.
    pub fn create_user(&mut self, guild_id: u64, user_id: u64) -> (inserted: bool)
        requires
            old(self).wf(),
        ensures
            final(self).wf(),
            inserted == !has_balance_row(old(self).balances@, guild_id, user_id),
            inserted ==> final(self).balances@ == old(self).balances@.push(
                BalanceRow { user_id, guild_id, balance: MAX_BALANCE },
            ),
            !inserted ==> final(self).balances@ == old(self).balances@,
            spec_balance(final(self).balances@, guild_id, user_id) == spec_balance(
                old(self).balances@,
                guild_id,
                user_id,
            ),
            forall|g2: u64, u2: u64|
                !(g2 == guild_id && u2 == user_id) ==> spec_balance(final(self).balances@, g2, u2)
                    == spec_balance(old(self).balances@, g2, u2),
            final(self).guilds@ == old(self).guilds@,
            final(self).roles@ == old(self).roles@,
            final(self).user_roles@ == old(self).user_roles@,
    {
        match self.find_balance(guild_id, user_id) {
            Some(_) => false,
            None => {
                let row = BalanceRow { user_id, guild_id, balance: MAX_BALANCE };
                proof {
                    lemma_balance_push_frame(self.balances@, row);
                }
                self.balances.push(row);
                true
            },
        }
    }

    /// The balance of (`guild_id`, `user_id`); a user without a row is
    /// at the ceiling.
    pub fn get_balance(&self, guild_id: u64, user_id: u64) -> (bal: u64)
        requires
            self.wf(),
        ensures
            bal == spec_balance(self.balances@, guild_id, user_id),
            bal <= MAX_BALANCE,
    {
        match self.find_balance(guild_id, user_id) {
            None => MAX_BALANCE,
            Some(i) => {
                proof {
                    assert(has_balance_row(self.balances@, guild_id, user_id));
                    let w = balance_index(self.balances@, guild_id, user_id);
                    assert(self.balances@[w].guild_id == guild_id && self.balances@[w].user_id
                        == user_id);
                    assert(w == i);
                }
                self.balances[i].balance
            },
        }
    }

    /// Debit `amount` (clamped to the ceiling) from (`guild_id`,
    /// `user_id`) in one conditional update: the debit happens only when
    /// the balance covers it, and `None` means insufficient funds, not
    /// an error.
    pub fn withdraw(&mut self, guild_id: u64, user_id: u64, amount: u64) -> (r: Option<u64>)
        requires
            old(self).wf(),
        ensures
            final(self).wf(),
            r is Some <==> spec_balance(old(self).balances@, guild_id, user_id)
                >= spec_clamp_amount(amount),
            r matches Some(nb) ==> {
                &&& nb == spec_balance(old(self).balances@, guild_id, user_id)
                    - spec_clamp_amount(amount)
                &&& spec_balance(final(self).balances@, guild_id, user_id) == nb
            },
            r is None ==> final(self).balances@ == old(self).balances@,
            forall|g2: u64, u2: u64|
                !(g2 == guild_id && u2 == user_id) ==> spec_balance(final(self).balances@, g2, u2)
                    == spec_balance(old(self).balances@, g2, u2),
            final(self).guilds@ == old(self).guilds@,
            final(self).roles@ == old(self).roles@,
            final(self).user_roles@ == old(self).user_roles@,
    {
        let amt: u64 = if amount > MAX_BALANCE {
            MAX_BALANCE
        } else {
            amount
        };
        match self.find_balance(guild_id, user_id) {
            Some(i) => {
                proof {
                    assert(has_balance_row(self.balances@, guild_id, user_id));
                    let w = balance_index(self.balances@, guild_id, user_id);
                    assert(self.balances@[w].guild_id == guild_id && self.balances@[w].user_id
                        == user_id);
                    assert(w == i);
                }
                let bal = self.balances[i].balance;
                if bal >= amt {
                    let ghost rows0 = self.balances@;
                    self.balances[i].balance = bal - amt;
                    proof {
                        lemma_balance_update_frame(rows0, i as int, self.balances@[i as int]);
                    }
                    Some(bal - amt)
                } else {
                    None
                }
            },
            None => {
                let row = BalanceRow { user_id, guild_id, balance: MAX_BALANCE - amt };
                proof {
                    lemma_balance_push_frame(self.balances@, row);
                }
                self.balances.push(row);
                Some(MAX_BALANCE - amt)
            },
        }
    }

    /// Credit `amount` (clamped to the ceiling) onto (`guild_id`,
    /// `user_id`), clamping the balance at the ceiling, and return the
    /// part of the credit that did not fit.
    pub fn deposit(&mut self, guild_id: u64, user_id: u64, amount: u64) -> (leftover: u64)
        requires
            old(self).wf(),
        ensures
            final(self).wf(),
            spec_balance(final(self).balances@, guild_id, user_id) == spec_deposit_new(
                spec_balance(old(self).balances@, guild_id, user_id),
                spec_clamp_amount(amount),
            ),
            leftover == spec_deposit_leftover(
                spec_balance(old(self).balances@, guild_id, user_id),
                spec_clamp_amount(amount),
            ),
            forall|g2: u64, u2: u64|
                !(g2 == guild_id && u2 == user_id) ==> spec_balance(final(self).balances@, g2, u2)
                    == spec_balance(old(self).balances@, g2, u2),
            final(self).guilds@ == old(self).guilds@,
            final(self).roles@ == old(self).roles@,
            final(self).user_roles@ == old(self).user_roles@,
    {
        let amt: u64 = if amount > MAX_BALANCE {
            MAX_BALANCE
        } else {
            amount
        };
        match self.find_balance(guild_id, user_id) {
            Some(i) => {
                proof {
                    assert(has_balance_row(self.balances@, guild_id, user_id));
                    let w = balance_index(self.balances@, guild_id, user_id);
                    assert(self.balances@[w].guild_id == guild_id && self.balances@[w].user_id
                        == user_id);
                    assert(w == i);
                }
                let bal = self.balances[i].balance;
                let room = MAX_BALANCE - bal;
                let add: u64 = if amt > room {
                    room
                } else {
                    amt
                };
                let ghost rows0 = self.balances@;
                self.balances[i].balance = bal + add;
                proof {
                    lemma_balance_update_frame(rows0, i as int, self.balances@[i as int]);
                }
                amt - add
            },
            None => {
                // No row: the balance is already at the ceiling, so the
                // whole credit bounces.
                amt
            },
        }
    }

    /// Move `amount` (clamped to the ceiling) from `from_user` to
    /// `to_user` in `guild_id`: debit the sender, credit the recipient,
    /// and refund to the sender whatever bounced off the recipient's
    /// ceiling.  `None` means the sender could not cover the amount; the
    /// result carries the recipient's new balance.
    pub fn transfer(&mut self, guild_id: u64, from_user: u64, to_user: u64, amount: u64) -> (r:
        Option<u64>)
        requires
            old(self).wf(),
        ensures
            final(self).wf(),
            r is Some <==> spec_balance(old(self).balances@, guild_id, from_user)
                >= spec_clamp_amount(amount),
            r is None ==> final(self).balances@ == old(self).balances@,
            from_user != to_user && r is Some ==> {
                &&& spec_balance(final(self).balances@, guild_id, to_user) == spec_deposit_new(
                    spec_balance(old(self).balances@, guild_id, to_user),
                    spec_clamp_amount(amount),
                )
                &&& spec_balance(final(self).balances@, guild_id, from_user) == spec_balance(
                    old(self).balances@,
                    guild_id,
                    from_user,
                ) - spec_clamp_amount(amount) + spec_deposit_leftover(
                    spec_balance(old(self).balances@, guild_id, to_user),
                    spec_clamp_amount(amount),
                )
                &&& r == Some(spec_balance(final(self).balances@, guild_id, to_user))
            },
            from_user == to_user && r is Some ==> {
                &&& spec_balance(final(self).balances@, guild_id, from_user) == spec_balance(
                    old(self).balances@,
                    guild_id,
                    from_user,
                )
                &&& r == Some(spec_balance(old(self).balances@, guild_id, from_user))
            },
            forall|g2: u64, u2: u64|
                !(g2 == guild_id && (u2 == from_user || u2 == to_user)) ==> spec_balance(
                    final(self).balances@,
                    g2,
                    u2,
                ) == spec_balance(old(self).balances@, g2, u2),
            final(self).guilds@ == old(self).guilds@,
            final(self).roles@ == old(self).roles@,
            final(self).user_roles@ == old(self).user_roles@,
    {
        match self.withdraw(guild_id, from_user, amount) {
            None => None,
            Some(_) => {
                let leftover = self.deposit(guild_id, to_user, amount);
                let bounced = self.deposit(guild_id, from_user, leftover);
                proof {
                    assert(bounced == 0);
                }
                Some(self.get_balance(guild_id, to_user))
            },
        }
    }

    /// The periodic income tick: credit `amount` (clamped to the
    /// ceiling) onto every stored balance, clamping each at the ceiling.
    /// Users without a row are already at the ceiling and gain nothing.
    pub fn grant(&mut self, amount: u64)
        requires
            old(self).wf(),
        ensures
            final(self).wf(),
            final(self).balances@.len() == old(self).balances@.len(),
            forall|i: int|
                0 <= i < old(self).balances@.len() ==> final(self).balances@[i] == (BalanceRow {
                    balance: spec_deposit_new(
                        old(self).balances@[i].balance,
                        spec_clamp_amount(amount),
                    ),
                    ..old(self).balances@[i]
                }),
            final(self).guilds@ == old(self).guilds@,
            final(self).roles@ == old(self).roles@,
            final(self).user_roles@ == old(self).user_roles@,
    {
        let amt: u64 = if amount > MAX_BALANCE {
            MAX_BALANCE
        } else {
            amount
        };
        let mut i: usize = 0;
        while i < self.balances.len()
            invariant
                old(self).wf(),
                amt == spec_clamp_amount(amount),
                self.balances@.len() == old(self).balances@.len(),
                0 <= i <= self.balances@.len(),
                forall|j: int|
                    0 <= j < i ==> self.balances@[j] == (BalanceRow {
                        balance: spec_deposit_new(old(self).balances@[j].balance, amt),
                        ..old(self).balances@[j]
                    }),
                forall|j: int|
                    i <= j < self.balances@.len() ==> self.balances@[j] == old(self).balances@[j],
                self.guilds@ == old(self).guilds@,
                self.roles@ == old(self).roles@,
                self.user_roles@ == old(self).user_roles@,
            decreases self.balances@.len() - i,
        {
            let bal = self.balances[i].balance;
            assert(bal <= MAX_BALANCE);
            let room = MAX_BALANCE - bal;
            let add: u64 = if amt > room {
                room
            } else {
                amt
            };
            self.balances[i].balance = bal + add;
            i += 1;
        }
        proof {
            assert forall|a: int, b: int|
                0 <= a < b < self.balances@.len() implies !(self.balances@[a].guild_id
                == self.balances@[b].guild_id && self.balances@[a].user_id
                == self.balances@[b].user_id) by {
                assert(self.balances@[a].guild_id == old(self).balances@[a].guild_id);
                assert(self.balances@[b].guild_id == old(self).balances@[b].guild_id);
            }
        }
    }
}

/// Law: in every well-formed store — and each operation of this crate
/// carries well-formedness from state to state — every balance, looked
/// up for any user after any interleaving of debits and credits, lies in
/// `[0, MAX_BALANCE]`.  A successful `withdraw` returns exactly the old
/// balance minus the clamped amount, which its own condition keeps from
/// going below zero.
/// Law: a successful withdrawal debits exactly the clamped amount: the
/// balance it returns and stores is the prior balance minus that amount,
/// and — the debit being conditioned on sufficiency — never below zero.
pub proof fn lemma_withdraw_never_negative(bal: u64, amount: u64)
    requires
        bal >= spec_clamp_amount(amount),
    ensures
        0 <= bal - spec_clamp_amount(amount),
{
}

pub proof fn lemma_balance_bounds(h: &Handler, g: u64, u: u64)
    requires
        h.wf(),
    ensures
        0 <= spec_balance(h.balances@, g, u) <= MAX_BALANCE,
{
    if has_balance_row(h.balances@, g, u) {
        let w = balance_index(h.balances@, g, u);
        assert(h.balances@[w].guild_id == g && h.balances@[w].user_id == u);
        assert(h.balances@[w].balance <= MAX_BALANCE);
    }
}

} // verus!
