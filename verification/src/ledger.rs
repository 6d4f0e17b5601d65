//! Shadow ledger: per-(user, token) balances with an available/total split,
//! the on-chain mirror, and the withdrawal record store.
//!
//! Amounts are integer micro-units. The standing invariant is that every
//! entry keeps `available <= total`; `total - available` is the reserved
//! collateral. Reserving is the only way to lock collateral, and a reserve
//! against insufficient funds is a recoverable `false`, not an error.

use vstd::prelude::*;

use crate::kv;
use crate::kv::Keyed;
use crate::models::{Balance, WithdrawRequest, WithdrawalRecord, WithdrawalStatus};
use crate::strutil::str_eq;
use crate::sys::now_rfc3339;

verus! {

/// One balance row: the spendable part and the owned total for a key.
pub struct BalanceEntry {
    pub user: String,
    pub token: String,
    pub available: u64,
    pub total: u64,
}

/// Last-known on-chain holding for a key.
pub struct MirrorEntry {
    pub user: String,
    pub token: String,
    pub amount: u64,
}

impl Keyed for BalanceEntry {
    open spec fn key(&self) -> (Seq<char>, Seq<char>) {
        (self.user@, self.token@)
    }
}

impl Keyed for MirrorEntry {
    open spec fn key(&self) -> (Seq<char>, Seq<char>) {
        (self.user@, self.token@)
    }
}

impl Keyed for WithdrawalRecord {
    open spec fn key(&self) -> (Seq<char>, Seq<char>) {
        (self.id@, Seq::<char>::empty())
    }
}

pub struct Ledger {
    balances: Vec<BalanceEntry>,
    on_chain: Vec<MirrorEntry>,
    withdrawals: Vec<WithdrawalRecord>,
}

impl Ledger {
    /// The (available, total) pair under a key; an absent key holds (0, 0).
    pub closed spec fn bal_entry(self, k: (Seq<char>, Seq<char>)) -> (u64, u64) {
        match kv::lookup(self.balances@, k) {
            Some(e) => (e.available, e.total),
            None => (0u64, 0u64),
        }
    }

    /// The mirrored on-chain balance under a key; an absent key holds 0.
    pub closed spec fn chain_bal(self, k: (Seq<char>, Seq<char>)) -> u64 {
        match kv::lookup(self.on_chain@, k) {
            Some(e) => e.amount,
            None => 0u64,
        }
    }

    /// The withdrawal record under a request id, if any.
    pub closed spec fn wrec(self, id: Seq<char>) -> Option<WithdrawalRecord> {
        kv::lookup(self.withdrawals@, (id, Seq::<char>::empty()))
    }

    pub closed spec fn wf(self) -> bool {
        &&& kv::unique_keys(self.balances@)
        &&& kv::unique_keys(self.on_chain@)
        &&& kv::unique_keys(self.withdrawals@)
        &&& forall|i: int|
            0 <= i < self.balances@.len() ==> (#[trigger] self.balances@[i]).available
                <= self.balances@[i].total
    }

    /// The account keys of a well-formed ledger are pairwise distinct.
    pub proof fn lemma_accounts_unique(self)
        requires
            self.wf(),
        ensures
            forall|i: int, j: int|
                0 <= i < j < self.accounts().len() ==> (#[trigger] self.accounts()[i]) != (
                #[trigger] self.accounts()[j]),
    {
        assert forall|i: int, j: int|
            0 <= i < j < self.accounts().len() implies (#[trigger] self.accounts()[i]) != (
        #[trigger] self.accounts()[j]) by {
            assert(self.accounts()[i] == (self.balances@[i].user@, self.balances@[i].token@));
            assert(self.accounts()[j] == (self.balances@[j].user@, self.balances@[j].token@));
            assert(self.balances@[i].key() != self.balances@[j].key());
        }
    }

    /// In a well-formed ledger no key has more available than total.
    pub proof fn lemma_wf_entry(self, k: (Seq<char>, Seq<char>))
        requires
            self.wf(),
        ensures
            self.bal_entry(k).0 <= self.bal_entry(k).1,
    {
        if kv::lookup(self.balances@, k) is Some {
            kv::lemma_lookup_is_elem(self.balances@, k);
        }
    }
}

/// All keys other than `k` hold the same balances in `pre` and `post`.
pub open spec fn same_balances_except(pre: Ledger, post: Ledger, k: (Seq<char>, Seq<char>)) -> bool {
    forall|k2: (Seq<char>, Seq<char>)| k2 != k ==> #[trigger] post.bal_entry(k2) == pre.bal_entry(k2)
}

pub open spec fn same_balances(pre: Ledger, post: Ledger) -> bool {
    forall|k2: (Seq<char>, Seq<char>)| #[trigger] post.bal_entry(k2) == pre.bal_entry(k2)
}

pub open spec fn same_mirror_except(pre: Ledger, post: Ledger, k: (Seq<char>, Seq<char>)) -> bool {
    forall|k2: (Seq<char>, Seq<char>)| k2 != k ==> #[trigger] post.chain_bal(k2) == pre.chain_bal(k2)
}

pub open spec fn same_mirror(pre: Ledger, post: Ledger) -> bool {
    forall|k2: (Seq<char>, Seq<char>)| #[trigger] post.chain_bal(k2) == pre.chain_bal(k2)
}

pub open spec fn same_withdrawals_except(pre: Ledger, post: Ledger, id: Seq<char>) -> bool {
    forall|id2: Seq<char>| id2 != id ==> #[trigger] post.wrec(id2) == pre.wrec(id2)
}

pub open spec fn same_withdrawals(pre: Ledger, post: Ledger) -> bool {
    forall|id2: Seq<char>| #[trigger] post.wrec(id2) == pre.wrec(id2)
}

/// Effect of `credit`: both balance parts and the mirror grow by the amount,
/// everything else stands.
pub open spec fn credited(pre: Ledger, post: Ledger, u: Seq<char>, t: Seq<char>, amt: u64) -> bool {
    let k = (u, t);
    &&& post.bal_entry(k).0 == pre.bal_entry(k).0 + amt
    &&& post.bal_entry(k).1 == pre.bal_entry(k).1 + amt
    &&& post.chain_bal(k) == pre.chain_bal(k) + amt
    &&& same_balances_except(pre, post, k)
    &&& same_mirror_except(pre, post, k)
    &&& same_withdrawals(pre, post)
}

/// A reserve succeeds exactly when the available part covers the amount.
pub open spec fn reserve_succeeds(pre: Ledger, u: Seq<char>, t: Seq<char>, amt: u64) -> bool {
    pre.bal_entry((u, t)).0 >= amt
}

/// Effect of `reserve`: on success the amount moves out of `available` while
/// `total` stands; on failure nothing moves.
pub open spec fn reserved(
    pre: Ledger,
    post: Ledger,
    u: Seq<char>,
    t: Seq<char>,
    amt: u64,
    ok: bool,
) -> bool {
    let k = (u, t);
    &&& ok == reserve_succeeds(pre, u, t, amt)
    &&& (if ok {
        &&& post.bal_entry(k).0 == pre.bal_entry(k).0 - amt
        &&& post.bal_entry(k).1 == pre.bal_entry(k).1
        &&& same_balances_except(pre, post, k)
    } else {
        same_balances(pre, post)
    })
    &&& same_mirror(pre, post)
    &&& same_withdrawals(pre, post)
}

/// Effect of `release`: `available` grows by the amount but never beyond
/// `total`, which stands.
pub open spec fn released(pre: Ledger, post: Ledger, u: Seq<char>, t: Seq<char>, amt: u64) -> bool {
    let k = (u, t);
    let av = pre.bal_entry(k).0;
    let tot = pre.bal_entry(k).1;
    &&& post.bal_entry(k).0 as int == (if av + amt <= tot {
        av + amt
    } else {
        tot as int
    })
    &&& post.bal_entry(k).1 == tot
    &&& same_balances_except(pre, post, k)
    &&& same_mirror(pre, post)
    &&& same_withdrawals(pre, post)
}

/// Effect of `debit_total`: `total` shrinks by the amount, `available` stands.
pub open spec fn debited_total(pre: Ledger, post: Ledger, u: Seq<char>, t: Seq<char>, amt: u64) -> bool {
    let k = (u, t);
    &&& post.bal_entry(k).0 == pre.bal_entry(k).0
    &&& post.bal_entry(k).1 == pre.bal_entry(k).1 - amt
    &&& same_balances_except(pre, post, k)
    &&& same_mirror(pre, post)
    &&& same_withdrawals(pre, post)
}

/// Effect of `adjust_internal_balances`: `total` shifts by `diff` (clamped at
/// zero) while the reserved part `total - available` is preserved as far as
/// the clamp allows.
pub open spec fn adjusted(pre: Ledger, post: Ledger, u: Seq<char>, t: Seq<char>, diff: i128) -> bool {
    let k = (u, t);
    let av = pre.bal_entry(k).0;
    let tot = pre.bal_entry(k).1;
    let held = tot - av;
    let new_tot: int = if tot + diff >= 0 {
        tot + diff
    } else {
        0
    };
    let new_av: int = if new_tot >= held {
        new_tot - held
    } else {
        0
    };
    &&& post.bal_entry(k).0 as int == new_av
    &&& post.bal_entry(k).1 as int == new_tot
    &&& same_balances_except(pre, post, k)
    &&& same_mirror(pre, post)
    &&& same_withdrawals(pre, post)
}

/// Effect of `complete_withdrawal` on the record under `id` (when present)
/// and on the mirror, which loses exactly the amount.
pub open spec fn completed_withdrawal(
    pre: Ledger,
    post: Ledger,
    id: Seq<char>,
    u: Seq<char>,
    t: Seq<char>,
    amt: u64,
    tx: Seq<char>,
) -> bool {
    let k = (u, t);
    &&& (match pre.wrec(id) {
        Some(r) => {
            &&& post.wrec(id) matches Some(r2)
            &&& r2.status == WithdrawalStatus::Completed
            &&& r2.tx_id matches Some(s) && s@ == tx
            &&& r2.last_error is None
            &&& r2.id@ == r.id@
            &&& r2.user_id@ == r.user_id@
            &&& r2.token@ == r.token@
            &&& r2.amount@ == r.amount@
            &&& r2.to@ == r.to@
            &&& r2.updated_at is Some
        },
        None => post.wrec(id) == pre.wrec(id),
    })
    &&& post.chain_bal(k) == pre.chain_bal(k) - amt
    &&& same_withdrawals_except(pre, post, id)
    &&& same_balances(pre, post)
    &&& same_mirror_except(pre, post, k)
}

/// Effect of `fail_withdrawal`: the record (when present) turns `Failed` and
/// carries the error, and both balance parts are restored by the amount.
pub open spec fn failed_withdrawal(
    pre: Ledger,
    post: Ledger,
    id: Seq<char>,
    u: Seq<char>,
    t: Seq<char>,
    amt: u64,
    err: Seq<char>,
) -> bool {
    let k = (u, t);
    &&& (match pre.wrec(id) {
        Some(r) => {
            &&& post.wrec(id) matches Some(r2)
            &&& r2.status == WithdrawalStatus::Failed
            &&& r2.last_error matches Some(s) && s@ == err
            &&& r2.tx_id is None
            &&& r2.id@ == r.id@
            &&& r2.user_id@ == r.user_id@
            &&& r2.token@ == r.token@
            &&& r2.amount@ == r.amount@
            &&& r2.to@ == r.to@
            &&& r2.updated_at is Some
        },
        None => post.wrec(id) == pre.wrec(id),
    })
    &&& post.bal_entry(k).0 == pre.bal_entry(k).0 + amt
    &&& post.bal_entry(k).1 == pre.bal_entry(k).1 + amt
    &&& same_withdrawals_except(pre, post, id)
    &&& same_balances_except(pre, post, k)
    &&& same_mirror(pre, post)
}

/// What a freshly recorded withdrawal looks like.
pub open spec fn fresh_withdrawal_record(
    r: WithdrawalRecord,
    id: Seq<char>,
    req: WithdrawRequest,
) -> bool {
    &&& r.id@ == id
    &&& r.user_id@ == req.user_id@
    &&& r.token@ == req.token@
    &&& r.amount@ == req.amount@
    &&& r.to@ == req.to@
    &&& r.status == WithdrawalStatus::Pending
    &&& r.tx_id is None
    &&& r.last_error is None
    &&& r.updated_at is Some
}

/// A row of `list_balances`, checked against its balance entry.
pub open spec fn balance_row_ok(b: Balance, e: BalanceEntry, l: Ledger) -> bool {
    let k = (e.user@, e.token@);
    &&& b.token@ == e.token@
    &&& b.available == e.available
    &&& b.total == e.total
    &&& b.on_chain == l.chain_bal(k)
    &&& b.drift as int == l.chain_bal(k) - e.total
    &&& b.status@ == "unknown"@
    &&& b.last_reconciled_at is None
}

/// The balance entries of one user, in table order.
pub open spec fn rows_of(s: Seq<BalanceEntry>, u: Seq<char>) -> Seq<BalanceEntry>
    decreases s.len(),
{
    if s.len() == 0 {
        Seq::empty()
    } else if s.last().user@ == u {
        rows_of(s.drop_last(), u).push(s.last())
    } else {
        rows_of(s.drop_last(), u)
    }
}

/// Every row selected for a user belongs to that user.
pub proof fn lemma_rows_of_user(s: Seq<BalanceEntry>, u: Seq<char>)
    ensures
        forall|j: int| 0 <= j < rows_of(s, u).len() ==> (#[trigger] rows_of(s, u)[j]).user@ == u,
    decreases s.len(),
{
    if s.len() > 0 {
        lemma_rows_of_user(s.drop_last(), u);
        let prev = rows_of(s.drop_last(), u);
        assert forall|j: int|
            0 <= j < rows_of(s, u).len() implies (#[trigger] rows_of(s, u)[j]).user@ == u by {
            if s.last().user@ == u {
                assert(rows_of(s, u) == prev.push(s.last()));
                if j < prev.len() {
                    assert(rows_of(s, u)[j] == prev[j]);
                } else {
                    assert(rows_of(s, u)[j] == s.last());
                }
            } else {
                assert(rows_of(s, u) == prev);
            }
        }
    }
}

impl Ledger {
    /// The balance entries of one user, in table order.
    pub closed spec fn user_rows(self, u: Seq<char>) -> Seq<BalanceEntry> {
        rows_of(self.balances@, u)
    }

    /// The keys present in the balance table, in table order.
    pub closed spec fn accounts(self) -> Seq<(Seq<char>, Seq<char>)> {
        self.balances@.map_values(|e: BalanceEntry| (e.user@, e.token@))
    }

    /// Every row of a user's listing belongs to that user.
    pub proof fn lemma_user_rows_user(self, u: Seq<char>)
        ensures
            forall|j: int|
                0 <= j < self.user_rows(u).len() ==> (#[trigger] self.user_rows(u)[j]).user@
                    == u,
    {
        lemma_rows_of_user(self.balances@, u);
    }

    pub fn new() -> (r: Ledger)
        ensures
            r.wf(),
            forall|k: (Seq<char>, Seq<char>)| #[trigger] r.bal_entry(k) == (0u64, 0u64),
            forall|k: (Seq<char>, Seq<char>)| #[trigger] r.chain_bal(k) == 0u64,
            forall|id: Seq<char>| #[trigger] r.wrec(id) is None,
    {
        Ledger { balances: Vec::new(), on_chain: Vec::new(), withdrawals: Vec::new() }
    }

    /// Write the balance pair for a key, creating the entry if absent. The
    /// one mutation every balance operation goes through.
    fn upsert_balance(&mut self, user: &str, token: &str, av: u64, tot: u64)
        requires
            old(self).wf(),
            av <= tot,
        ensures
            final(self).wf(),
            final(self).bal_entry((user@, token@)) == (av, tot),
            same_balances_except(*old(self), *final(self), (user@, token@)),
            same_mirror(*old(self), *final(self)),
            same_withdrawals(*old(self), *final(self)),
    {
        let n = self.balances.len();
        let mut j: usize = 0;
        while j < n
            invariant
                *self == *old(self),
                self.wf(),
                av <= tot,
                0 <= j <= n,
                n == self.balances@.len(),
                forall|a: int|
                    0 <= a < j ==> (#[trigger] self.balances@[a].key()) != (user@, token@),
            decreases n - j,
        {
            let hit_user = str_eq(self.balances[j].user.as_str(), user);
            let hit_token = str_eq(self.balances[j].token.as_str(), token);
            if hit_user && hit_token {
                let e = BalanceEntry {
                    user: self.balances[j].user.clone(),
                    token: self.balances[j].token.clone(),
                    available: av,
                    total: tot,
                };
                proof {
                    kv::lemma_lookup_update(self.balances@, j as int, e);
                }
                let ghost before = self.balances@;
                self.balances[j] = e;
                proof {
                    assert forall|a: int|
                        0 <= a < self.balances@.len() implies (
                    #[trigger] self.balances@[a]).available <= self.balances@[a].total by {
                        if a != j as int {
                            assert(self.balances@[a] == before[a]);
                        }
                    }
                }
                return ;
            }
            j = j + 1;
        }
        proof {
            kv::lemma_lookup_absent(self.balances@, (user@, token@));
        }
        let e = BalanceEntry { user: user.to_owned(), token: token.to_owned(), available: av, total: tot };
        proof {
            kv::lemma_lookup_push(self.balances@, e);
        }
        let ghost before = self.balances@;
        self.balances.push(e);
        proof {
            assert forall|a: int|
                0 <= a < self.balances@.len() implies (#[trigger] self.balances@[a]).available
                <= self.balances@[a].total by {
                if a < before.len() {
                    assert(self.balances@[a] == before[a]);
                }
            }
        }
    }

    /// Write the mirror amount for a key, creating the entry if absent.
    fn upsert_mirror(&mut self, user: &str, token: &str, amount: u64)
        requires
            old(self).wf(),
        ensures
            final(self).wf(),
            final(self).chain_bal((user@, token@)) == amount,
            same_mirror_except(*old(self), *final(self), (user@, token@)),
            same_balances(*old(self), *final(self)),
            same_withdrawals(*old(self), *final(self)),
    {
        let n = self.on_chain.len();
        let mut j: usize = 0;
        while j < n
            invariant
                *self == *old(self),
                self.wf(),
                0 <= j <= n,
                n == self.on_chain@.len(),
                forall|a: int|
                    0 <= a < j ==> (#[trigger] self.on_chain@[a].key()) != (user@, token@),
            decreases n - j,
        {
            let hit_user = str_eq(self.on_chain[j].user.as_str(), user);
            let hit_token = str_eq(self.on_chain[j].token.as_str(), token);
            if hit_user && hit_token {
                let e = MirrorEntry {
                    user: self.on_chain[j].user.clone(),
                    token: self.on_chain[j].token.clone(),
                    amount,
                };
                proof {
                    kv::lemma_lookup_update(self.on_chain@, j as int, e);
                }
                self.on_chain[j] = e;
                return ;
            }
            j = j + 1;
        }
        proof {
            kv::lemma_lookup_absent(self.on_chain@, (user@, token@));
        }
        let e = MirrorEntry { user: user.to_owned(), token: token.to_owned(), amount };
        proof {
            kv::lemma_lookup_push(self.on_chain@, e);
        }
        self.on_chain.push(e);
    }

    /// Write the withdrawal record under its id, creating or replacing it.
    fn upsert_withdrawal(&mut self, rec: WithdrawalRecord)
        requires
            old(self).wf(),
        ensures
            final(self).wf(),
            final(self).wrec(rec.id@) == Some(rec),
            same_withdrawals_except(*old(self), *final(self), rec.id@),
            same_balances(*old(self), *final(self)),
            same_mirror(*old(self), *final(self)),
    {
        let n = self.withdrawals.len();
        let ghost target = rec.id@;
        let mut j: usize = 0;
        while j < n
            invariant
                *self == *old(self),
                self.wf(),
                0 <= j <= n,
                n == self.withdrawals@.len(),
                forall|a: int|
                    0 <= a < j ==> (#[trigger] self.withdrawals@[a].key()) != (
                        target,
                        Seq::<char>::empty(),
                    ),
                rec.id@ == target,
            decreases n - j,
        {
            if str_eq(self.withdrawals[j].id.as_str(), rec.id.as_str()) {
                proof {
                    kv::lemma_lookup_update(self.withdrawals@, j as int, rec);
                }
                self.withdrawals[j] = rec;
                return ;
            }
            j = j + 1;
        }
        proof {
            kv::lemma_lookup_absent(self.withdrawals@, (target, Seq::<char>::empty()));
            kv::lemma_lookup_push(self.withdrawals@, rec);
        }
        self.withdrawals.push(rec);
    }

    /// Add to both `available` and `total`, and to the on-chain mirror: an
    /// observed deposit.
    pub fn credit(&mut self, user: &str, token: &str, amt: u64)
        requires
            old(self).wf(),
            old(self).bal_entry((user@, token@)).1 + amt <= u64::MAX,
            old(self).chain_bal((user@, token@)) + amt <= u64::MAX,
        ensures
            final(self).wf(),
            credited(*old(self), *final(self), user@, token@, amt),
    {
        proof {
            old(self).lemma_wf_entry((user@, token@));
        }
        let (av, tot) = self.internal_balance(user, token);
        let m = self.on_chain_balance(user, token);
        self.upsert_balance(user, token, av + amt, tot + amt);
        let ghost l1 = *self;
        self.upsert_mirror(user, token, m + amt);
        proof {
            let k = (user@, token@);
            assert forall|k2: (Seq<char>, Seq<char>)| k2 != k implies #[trigger] self.bal_entry(
                k2,
            ) == old(self).bal_entry(k2) by {
                assert(self.bal_entry(k2) == l1.bal_entry(k2));
                assert(l1.bal_entry(k2) == old(self).bal_entry(k2));
            }
            assert forall|k2: (Seq<char>, Seq<char>)| k2 != k implies #[trigger] self.chain_bal(
                k2,
            ) == old(self).chain_bal(k2) by {
                assert(l1.chain_bal(k2) == old(self).chain_bal(k2));
            }
            assert forall|id2: Seq<char>| #[trigger]
                self.wrec(id2) == old(self).wrec(id2) by {
                assert(self.wrec(id2) == l1.wrec(id2));
            }
        }
    }

    /// Lock collateral: move `amt` out of `available` if it is covered.
    /// Returns whether it was. `total` never moves here.
    pub fn reserve(&mut self, user: &str, token: &str, amt: u64) -> (ok: bool)
        requires
            old(self).wf(),
        ensures
            final(self).wf(),
            reserved(*old(self), *final(self), user@, token@, amt, ok),
    {
        let (av, tot) = self.internal_balance(user, token);
        if av < amt {
            return false;
        }
        proof {
            old(self).lemma_wf_entry((user@, token@));
        }
        self.upsert_balance(user, token, av - amt, tot);
        true
    }

    /// Unlock collateral: restore `available` by `amt`, but never above
    /// `total`.
    pub fn release(&mut self, user: &str, token: &str, amt: u64)
        requires
            old(self).wf(),
        ensures
            final(self).wf(),
            released(*old(self), *final(self), user@, token@, amt),
    {
        let (av, tot) = self.internal_balance(user, token);
        proof {
            old(self).lemma_wf_entry((user@, token@));
        }
        let new_av: u64 = if amt <= tot - av {
            av + amt
        } else {
            tot
        };
        self.upsert_balance(user, token, new_av, tot);
    }

    /// Finalize a spend: `total` shrinks by `amt` while `available` stands.
    /// Only previously reserved collateral may be debited.
    pub fn debit_total(&mut self, user: &str, token: &str, amt: u64)
        requires
            old(self).wf(),
            old(self).bal_entry((user@, token@)).0 + amt <= old(self).bal_entry(
                (user@, token@),
            ).1,
        ensures
            final(self).wf(),
            debited_total(*old(self), *final(self), user@, token@, amt),
    {
        let (av, tot) = self.internal_balance(user, token);
        self.upsert_balance(user, token, av, tot - amt);
    }

    /// Read the (available, total) pair for a key.
    pub fn internal_balance(&self, user: &str, token: &str) -> (r: (u64, u64))
        requires
            self.wf(),
        ensures
            r == self.bal_entry((user@, token@)),
    {
        let n = self.balances.len();
        let mut j: usize = 0;
        while j < n
            invariant
                0 <= j <= n,
                self.wf(),
                n == self.balances@.len(),
                forall|a: int|
                    0 <= a < j ==> (#[trigger] self.balances@[a].key()) != (user@, token@),
            decreases n - j,
        {
            let hit_user = str_eq(self.balances[j].user.as_str(), user);
            let hit_token = str_eq(self.balances[j].token.as_str(), token);
            if hit_user && hit_token {
                proof {
                    kv::lemma_lookup_present(self.balances@, j as int);
                }
                return (self.balances[j].available, self.balances[j].total);
            }
            j = j + 1;
        }
        proof {
            kv::lemma_lookup_absent(self.balances@, (user@, token@));
        }
        (0, 0)
    }

    /// Read the mirrored on-chain balance for a key.
    pub fn on_chain_balance(&self, user: &str, token: &str) -> (r: u64)
        requires
            self.wf(),
        ensures
            r == self.chain_bal((user@, token@)),
    {
        let n = self.on_chain.len();
        let mut j: usize = 0;
        while j < n
            invariant
                0 <= j <= n,
                self.wf(),
                n == self.on_chain@.len(),
                forall|a: int|
                    0 <= a < j ==> (#[trigger] self.on_chain@[a].key()) != (user@, token@),
            decreases n - j,
        {
            let hit_user = str_eq(self.on_chain[j].user.as_str(), user);
            let hit_token = str_eq(self.on_chain[j].token.as_str(), token);
            if hit_user && hit_token {
                proof {
                    kv::lemma_lookup_present(self.on_chain@, j as int);
                }
                return self.on_chain[j].amount;
            }
            j = j + 1;
        }
        proof {
            kv::lemma_lookup_absent(self.on_chain@, (user@, token@));
        }
        0
    }

    /// Reconciler-only repair: shift `total` by `diff` (clamping at zero)
    /// while preserving the reserved part as far as the clamp allows.
    pub fn adjust_internal_balances(&mut self, user: &str, token: &str, diff: i128)
        requires
            old(self).wf(),
            old(self).bal_entry((user@, token@)).1 + diff <= u64::MAX,
        ensures
            final(self).wf(),
            adjusted(*old(self), *final(self), user@, token@, diff),
    {
        let (av, tot) = self.internal_balance(user, token);
        proof {
            old(self).lemma_wf_entry((user@, token@));
        }
        let shifted: i128 = tot as i128 + diff;
        let new_tot: u64 = if shifted >= 0 {
            shifted as u64
        } else {
            0
        };
        let held: u64 = tot - av;
        let new_av: u64 = if new_tot >= held {
            new_tot - held
        } else {
            0
        };
        self.upsert_balance(user, token, new_av, new_tot);
    }

    /// All keys currently present in the balance table.
    pub fn account_keys(&self) -> (r: Vec<(String, String)>)
        ensures
            r@.len() == self.accounts().len(),
            forall|j: int|
                0 <= j < r@.len() ==> ((#[trigger] r@[j]).0@, r@[j].1@) == self.accounts()[j],
    {
        let n = self.balances.len();
        let mut r: Vec<(String, String)> = Vec::new();
        let mut j: usize = 0;
        while j < n
            invariant
                0 <= j <= n,
                n == self.balances@.len(),
                r@.len() == j,
                forall|a: int|
                    0 <= a < j ==> ((#[trigger] r@[a]).0@, r@[a].1@) == self.accounts()[a],
            decreases n - j,
        {
            r.push((self.balances[j].user.clone(), self.balances[j].token.clone()));
            j = j + 1;
        }
        r
    }

    /// List one user's balances, with mirror and drift, reconciliation
    /// status still unknown.
    pub fn list_balances(&self, user: &str) -> (r: Vec<Balance>)
        requires
            self.wf(),
        ensures
            r@.len() == self.user_rows(user@).len(),
            forall|j: int|
                0 <= j < r@.len() ==> balance_row_ok(
                    #[trigger] r@[j],
                    self.user_rows(user@)[j],
                    *self,
                ),
    {
        let n = self.balances.len();
        let mut r: Vec<Balance> = Vec::new();
        let mut j: usize = 0;
        while j < n
            invariant
                0 <= j <= n,
                self.wf(),
                n == self.balances@.len(),
                r@.len() == rows_of(self.balances@.subrange(0, j as int), user@).len(),
                forall|a: int|
                    0 <= a < r@.len() ==> balance_row_ok(
                        #[trigger] r@[a],
                        rows_of(self.balances@.subrange(0, j as int), user@)[a],
                        *self,
                    ),
            decreases n - j,
        {
            let ghost prev = rows_of(self.balances@.subrange(0, j as int), user@);
            proof {
                assert(self.balances@.subrange(0, j + 1).drop_last() =~= self.balances@.subrange(
                    0,
                    j as int,
                ));
                assert(self.balances@.subrange(0, j + 1).last() == self.balances@[j as int]);
            }
            if str_eq(self.balances[j].user.as_str(), user) {
                let chain = self.on_chain_balance(user, self.balances[j].token.as_str());
                let tot = self.balances[j].total;
                let b = Balance {
                    token: self.balances[j].token.clone(),
                    available: self.balances[j].available,
                    total: tot,
                    on_chain: chain,
                    drift: chain as i128 - tot as i128,
                    status: "unknown".to_owned(),
                    last_reconciled_at: None,
                };
                r.push(b);
                proof {
                    assert(rows_of(self.balances@.subrange(0, j + 1), user@) == prev.push(
                        self.balances@[j as int],
                    ));
                }
            } else {
                proof {
                    assert(rows_of(self.balances@.subrange(0, j + 1), user@) == prev);
                }
            }
            j = j + 1;
        }
        proof {
            assert(self.balances@.subrange(0, n as int) =~= self.balances@);
        }
        r
    }

    /// Index of the withdrawal record for the id, if present.
    fn find_withdrawal(&self, id: &str) -> (r: Option<usize>)
        requires
            self.wf(),
        ensures
            match r {
                Some(i) => i < self.withdrawals@.len() && self.wrec(id@) == Some(
                    self.withdrawals@[i as int],
                ) && self.withdrawals@[i as int].id@ == id@,
                None => self.wrec(id@) is None,
            },
    {
        let n = self.withdrawals.len();
        let mut j: usize = 0;
        while j < n
            invariant
                0 <= j <= n,
                self.wf(),
                n == self.withdrawals@.len(),
                forall|a: int|
                    0 <= a < j ==> (#[trigger] self.withdrawals@[a].key()) != (
                        id@,
                        Seq::<char>::empty(),
                    ),
            decreases n - j,
        {
            if str_eq(self.withdrawals[j].id.as_str(), id) {
                proof {
                    kv::lemma_lookup_present(self.withdrawals@, j as int);
                }
                return Some(j);
            }
            j = j + 1;
        }
        proof {
            kv::lemma_lookup_absent(self.withdrawals@, (id@, Seq::<char>::empty()));
        }
        None
    }

    /// Create (or overwrite) the `Pending` record for a withdrawal request.
    pub fn record_withdrawal(&mut self, id: &str, request: &WithdrawRequest)
        requires
            old(self).wf(),
        ensures
            final(self).wf(),
            final(self).wrec(id@) matches Some(r) && fresh_withdrawal_record(r, id@, *request),
            same_withdrawals_except(*old(self), *final(self), id@),
            same_balances(*old(self), *final(self)),
            same_mirror(*old(self), *final(self)),
    {
        let ts = now_rfc3339();
        let rec = WithdrawalRecord {
            id: id.to_owned(),
            user_id: request.user_id.clone(),
            token: request.token.clone(),
            amount: request.amount.clone(),
            to: request.to.clone(),
            status: WithdrawalStatus::Pending,
            tx_id: None,
            last_error: None,
            updated_at: Some(ts),
        };
        self.upsert_withdrawal(rec);
    }

    /// Mark the record `Completed` with its transaction id, and take
    /// exactly the amount off the on-chain mirror.
    pub fn complete_withdrawal(&mut self, id: &str, user: &str, token: &str, amount: u64, tx_id: &str)
        requires
            old(self).wf(),
            old(self).chain_bal((user@, token@)) >= amount,
        ensures
            final(self).wf(),
            completed_withdrawal(
                *old(self),
                *final(self),
                id@,
                user@,
                token@,
                amount,
                tx_id@,
            ),
    {
        match self.find_withdrawal(id) {
            Some(i) => {
                let ts = now_rfc3339();
                let rec = WithdrawalRecord {
                    id: self.withdrawals[i].id.clone(),
                    user_id: self.withdrawals[i].user_id.clone(),
                    token: self.withdrawals[i].token.clone(),
                    amount: self.withdrawals[i].amount.clone(),
                    to: self.withdrawals[i].to.clone(),
                    status: WithdrawalStatus::Completed,
                    tx_id: Some(tx_id.to_owned()),
                    last_error: None,
                    updated_at: Some(ts),
                };
                self.upsert_withdrawal(rec);
            },
            None => {},
        }
        let ghost l1 = *self;
        let m = self.on_chain_balance(user, token);
        self.upsert_mirror(user, token, m - amount);
        proof {
            let k = (user@, token@);
            assert forall|k2: (Seq<char>, Seq<char>)| k2 != k implies #[trigger] self.chain_bal(
                k2,
            ) == old(self).chain_bal(k2) by {
                assert(l1.chain_bal(k2) == old(self).chain_bal(k2));
            }
            assert forall|k2: (Seq<char>, Seq<char>)| #[trigger]
                self.bal_entry(k2) == old(self).bal_entry(k2) by {
                assert(self.bal_entry(k2) == l1.bal_entry(k2));
                assert(l1.bal_entry(k2) == old(self).bal_entry(k2));
            }
            assert forall|id2: Seq<char>| id2 != id@ implies #[trigger] self.wrec(id2) == old(
                self,
            ).wrec(id2) by {
                assert(self.wrec(id2) == l1.wrec(id2));
                assert(l1.wrec(id2) == old(self).wrec(id2));
            }
            assert(self.wrec(id@) == l1.wrec(id@));
        }
    }

    /// Mark the record `Failed` with the error, and restore both balance
    /// parts by the amount: the funds never left.
    pub fn fail_withdrawal(&mut self, id: &str, user: &str, token: &str, amount: u64, error: &str)
        requires
            old(self).wf(),
            old(self).bal_entry((user@, token@)).1 + amount <= u64::MAX,
        ensures
            final(self).wf(),
            failed_withdrawal(*old(self), *final(self), id@, user@, token@, amount, error@),
    {
        match self.find_withdrawal(id) {
            Some(i) => {
                let ts = now_rfc3339();
                let rec = WithdrawalRecord {
                    id: self.withdrawals[i].id.clone(),
                    user_id: self.withdrawals[i].user_id.clone(),
                    token: self.withdrawals[i].token.clone(),
                    amount: self.withdrawals[i].amount.clone(),
                    to: self.withdrawals[i].to.clone(),
                    status: WithdrawalStatus::Failed,
                    tx_id: None,
                    last_error: Some(error.to_owned()),
                    updated_at: Some(ts),
                };
                self.upsert_withdrawal(rec);
            },
            None => {},
        }
        let ghost l1 = *self;
        proof {
            old(self).lemma_wf_entry((user@, token@));
            assert(l1.bal_entry((user@, token@)) == old(self).bal_entry((user@, token@)));
        }
        let (av, tot) = self.internal_balance(user, token);
        self.upsert_balance(user, token, av + amount, tot + amount);
        proof {
            let k = (user@, token@);
            assert forall|k2: (Seq<char>, Seq<char>)| k2 != k implies #[trigger] self.bal_entry(
                k2,
            ) == old(self).bal_entry(k2) by {
                assert(l1.bal_entry(k2) == old(self).bal_entry(k2));
            }
            assert forall|k2: (Seq<char>, Seq<char>)| #[trigger]
                self.chain_bal(k2) == old(self).chain_bal(k2) by {
                assert(self.chain_bal(k2) == l1.chain_bal(k2));
                assert(l1.chain_bal(k2) == old(self).chain_bal(k2));
            }
            assert forall|id2: Seq<char>| id2 != id@ implies #[trigger] self.wrec(id2) == old(
                self,
            ).wrec(id2) by {
                assert(self.wrec(id2) == l1.wrec(id2));
                assert(l1.wrec(id2) == old(self).wrec(id2));
            }
            assert(self.wrec(id@) == l1.wrec(id@));
        }
    }

    /// Read the withdrawal record for an id.
    pub fn get_withdrawal(&self, id: &str) -> (r: Option<&WithdrawalRecord>)
        requires
            self.wf(),
        ensures
            (r is Some) == (self.wrec(id@) is Some),
            r matches Some(rec) ==> self.wrec(id@) == Some(*rec),
    {
        match self.find_withdrawal(id) {
            Some(i) => Some(&self.withdrawals[i]),
            None => None,
        }
    }
}

/// Law: crediting a fresh key and then reserving the full amount succeeds
/// and leaves nothing available with the whole amount still owned.
pub proof fn lemma_credit_then_reserve(
    pre: Ledger,
    mid: Ledger,
    post: Ledger,
    u: Seq<char>,
    t: Seq<char>,
    amt: u64,
    ok: bool,
)
    requires
        pre.bal_entry((u, t)) == (0u64, 0u64),
        credited(pre, mid, u, t, amt),
        reserved(mid, post, u, t, amt, ok),
    ensures
        ok,
        post.bal_entry((u, t)).0 == 0,
        post.bal_entry((u, t)).1 == amt,
{
}

/// Law: releasing exactly what a successful reserve locked restores the
/// balance pair that stood before the reserve.
pub proof fn lemma_reserve_then_release(
    pre: Ledger,
    mid: Ledger,
    post: Ledger,
    u: Seq<char>,
    t: Seq<char>,
    amt: u64,
)
    requires
        pre.wf(),
        reserved(pre, mid, u, t, amt, true),
        released(mid, post, u, t, amt),
    ensures
        post.bal_entry((u, t)) == pre.bal_entry((u, t)),
{
    pre.lemma_wf_entry((u, t));
}

} // verus!
