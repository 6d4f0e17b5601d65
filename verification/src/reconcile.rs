//! Reconciler: compares shadow state against the chain, absorbs dust, and
//! pauses pools on drift.
//!
//! Account passes read the ledger's own mirror; pool passes take the chain
//! readings as arguments, so the comparison logic is verified for every
//! value the chain can return. Pausing is the only mitigation: the backend
//! holds no key and cannot repair the chain side.

use vstd::prelude::*;

use crate::keeta::KeetaClient;
use crate::kv;
use crate::kv::Keyed;
use crate::ledger::{balance_row_ok, same_mirror, same_withdrawals, BalanceEntry, Ledger};
use crate::models::Balance;
use crate::pool::{LiquidityPool, PoolError};
use crate::pool_manager::{same_pools_except, PoolManager};
use crate::strutil::str_eq;
use crate::sys::now_rfc3339;
use vstd::string::StringExecFns;

verus! {

/// Dust ceiling for automatic correction, in micro-units: one ten-thousandth
/// of a token.
pub const AUTO_CORRECT_THRESHOLD: u64 = 100;

#[derive(Clone, Copy, Debug, PartialEq, Eq, Structural)]
pub enum AccountStatus {
    Healthy,
    AutoCorrected,
    Drift,
}

/// How a divergence is classified: none at all is healthy, dust within the
/// threshold is absorbed, anything larger is drift and left alone.
pub open spec fn classify(diff: int) -> AccountStatus {
    if diff == 0 {
        AccountStatus::Healthy
    } else if -(AUTO_CORRECT_THRESHOLD as int) <= diff <= AUTO_CORRECT_THRESHOLD as int {
        AccountStatus::AutoCorrected
    } else {
        AccountStatus::Drift
    }
}

/// The wire rendering of a status.
pub open spec fn status_str(s: AccountStatus) -> Seq<char> {
    match s {
        AccountStatus::Healthy => "healthy"@,
        AccountStatus::AutoCorrected => "auto_corrected"@,
        AccountStatus::Drift => "drift_detected"@,
    }
}

impl AccountStatus {
    pub fn as_str(&self) -> (r: &'static str)
        ensures
            r@ == status_str(*self),
    {
        match self {
            AccountStatus::Healthy => "healthy",
            AccountStatus::AutoCorrected => "auto_corrected",
            AccountStatus::Drift => "drift_detected",
        }
    }
}

/// Outcome of one account visit.
pub struct AccountReport {
    pub status: AccountStatus,
    pub on_chain: u64,
    pub drift: i128,
    pub last_checked: String,
}

pub struct ReportEntry {
    pub user: String,
    pub token: String,
    pub report: AccountReport,
}

impl Keyed for ReportEntry {
    open spec fn key(&self) -> (Seq<char>, Seq<char>) {
        (self.user@, self.token@)
    }
}

/// Outcome of one pool visit.
pub struct PoolReconcileResult {
    pub pool_id: String,
    pub drift_a: i128,
    pub drift_b: i128,
    pub status: String,
}

/// What a live tick leaves of a pool, given that the demo chain client
/// reads every storage account as empty: the mirror is zeroed and stamped,
/// pending settlement is cleared, and any funded shadow reserve counts as
/// drift, so the pool ends paused unless it was empty.
pub open spec fn reconciled_against_empty_chain(p: LiquidityPool, p2: LiquidityPool) -> bool {
    &&& p2.paused == (p.paused || !(p.reserve_a == 0 && p.reserve_b == 0))
    &&& p2.on_chain_reserve_a == 0
    &&& p2.on_chain_reserve_b == 0
    &&& p2.last_reconciled_at is Some
    &&& !p2.pending_settlement
    &&& (LiquidityPool {
        paused: p.paused,
        on_chain_reserve_a: p.on_chain_reserve_a,
        on_chain_reserve_b: p.on_chain_reserve_b,
        last_reconciled_at: p.last_reconciled_at,
        pending_settlement: p.pending_settlement,
        ..p2
    }) == p
}

/// The reconciler's report store, keyed by (user, token).
pub struct Reconciler {
    reports: Vec<ReportEntry>,
}

/// One account key has been through a tick: its report carries the
/// classification of the divergence found, and dust was absorbed so that
/// afterwards the shadow total matches the mirror exactly.
pub open spec fn account_reconciled(
    l0: Ledger,
    l1: Ledger,
    rec: Reconciler,
    u: Seq<char>,
    t: Seq<char>,
) -> bool {
    let k = (u, t);
    let diff0 = l0.chain_bal(k) - l0.bal_entry(k).1;
    let held = l0.bal_entry(k).1 - l0.bal_entry(k).0;
    let st = classify(diff0);
    &&& (match rec.report_of(k) {
        Some(rep) => {
            &&& rep.status == st
            &&& rep.on_chain == l0.chain_bal(k)
            &&& rep.drift == l0.chain_bal(k) - l1.bal_entry(k).1
            &&& rep.last_checked@.len() > 0
        },
        None => false,
    })
    &&& (st == AccountStatus::AutoCorrected ==> {
        &&& l1.bal_entry(k).1 == l0.chain_bal(k)
        &&& l1.chain_bal(k) - l1.bal_entry(k).1 == 0
        &&& l1.bal_entry(k).0 as int == (if l0.chain_bal(k) >= held {
            l0.chain_bal(k) - held
        } else {
            0
        })
        // absorbing dust keeps the reserved collateral whenever the mirror
        // covers it; only a mirror below the reserved part can eat into it
        &&& (l0.chain_bal(k) >= held ==> l1.bal_entry(k).1 - l1.bal_entry(k).0 == held)
    })
    &&& (st != AccountStatus::AutoCorrected ==> l1.bal_entry(k) == l0.bal_entry(k))
    &&& l1.chain_bal(k) == l0.chain_bal(k)
}

impl Reconciler {
    /// The report recorded for a key, if any.
    pub closed spec fn report_of(self, k: (Seq<char>, Seq<char>)) -> Option<AccountReport> {
        match kv::lookup(self.reports@, k) {
            Some(e) => Some(e.report),
            None => None,
        }
    }

    pub closed spec fn wf(self) -> bool {
        kv::unique_keys(self.reports@)
    }

    pub fn new() -> (r: Reconciler)
        ensures
            r.wf(),
            forall|k: (Seq<char>, Seq<char>)| #[trigger] r.report_of(k) is None,
    {
        Reconciler { reports: Vec::new() }
    }

    /// Write the report for a key, creating or replacing its entry.
    fn upsert_report(&mut self, user: &str, token: &str, report: AccountReport)
        requires
            old(self).wf(),
        ensures
            final(self).wf(),
            final(self).report_of((user@, token@)) == Some(report),
            forall|k2: (Seq<char>, Seq<char>)|
                k2 != (user@, token@) ==> #[trigger] final(self).report_of(k2) == old(
                    self,
                ).report_of(k2),
    {
        let n = self.reports.len();
        let mut j: usize = 0;
        while j < n
            invariant
                *self == *old(self),
                self.wf(),
                0 <= j <= n,
                n == self.reports@.len(),
                forall|a: int|
                    0 <= a < j ==> (#[trigger] self.reports@[a].key()) != (user@, token@),
            decreases n - j,
        {
            let hit_user = str_eq(self.reports[j].user.as_str(), user);
            let hit_token = str_eq(self.reports[j].token.as_str(), token);
            if hit_user && hit_token {
                let e = ReportEntry {
                    user: self.reports[j].user.clone(),
                    token: self.reports[j].token.clone(),
                    report,
                };
                proof {
                    kv::lemma_lookup_update(self.reports@, j as int, e);
                }
                self.reports[j] = e;
                return ;
            }
            j = j + 1;
        }
        proof {
            kv::lemma_lookup_absent(self.reports@, (user@, token@));
        }
        let e = ReportEntry { user: user.to_owned(), token: token.to_owned(), report };
        proof {
            kv::lemma_lookup_push(self.reports@, e);
        }
        self.reports.push(e);
    }

    /// One reconciliation tick over every account key: classify the
    /// divergence between mirror and shadow total, absorb dust, and record
    /// a report. Larger drift is recorded and left untouched.
    pub fn run_once(&mut self, ledger: &mut Ledger)
        requires
            old(self).wf(),
            old(ledger).wf(),
        ensures
            final(self).wf(),
            final(ledger).wf(),
            forall|j: int|
                0 <= j < old(ledger).accounts().len() ==> account_reconciled(
                    *old(ledger),
                    *final(ledger),
                    *final(self),
                    (#[trigger] old(ledger).accounts()[j]).0,
                    old(ledger).accounts()[j].1,
                ),
            forall|u: Seq<char>, t: Seq<char>|
                !old(ledger).accounts().contains((u, t)) ==> #[trigger] final(ledger).bal_entry(
                    (u, t),
                ) == old(ledger).bal_entry((u, t)) && final(self).report_of((u, t)) == old(
                    self,
                ).report_of((u, t)),
            same_mirror(*old(ledger), *final(ledger)),
            same_withdrawals(*old(ledger), *final(ledger)),
    {
        proof {
            old(ledger).lemma_accounts_unique();
        }
        let keys = ledger.account_keys();
        let n = keys.len();
        let ghost l0 = *old(ledger);
        let ghost rec0 = *old(self);
        let ghost accounts = l0.accounts();
        let mut i: usize = 0;
        while i < n
            invariant
                0 <= i <= n,
                self.wf(),
                ledger.wf(),
                n == accounts.len(),
                keys@.len() == accounts.len(),
                accounts == l0.accounts(),
                forall|j: int|
                    0 <= j < n ==> ((#[trigger] keys@[j]).0@, keys@[j].1@) == accounts[j],
                forall|a: int, b: int| 0 <= a < b < n ==> accounts[a] != accounts[b],
                forall|j: int|
                    0 <= j < i ==> account_reconciled(
                        l0,
                        *ledger,
                        *self,
                        (#[trigger] accounts[j]).0,
                        accounts[j].1,
                    ),
                forall|j: int|
                    i <= j < n ==> #[trigger] ledger.bal_entry(accounts[j]) == l0.bal_entry(
                        accounts[j],
                    ),
                forall|j: int|
                    i <= j < n ==> #[trigger] self.report_of(accounts[j]) == rec0.report_of(
                        accounts[j],
                    ),
                forall|u: Seq<char>, t: Seq<char>|
                    !accounts.contains((u, t)) ==> #[trigger] ledger.bal_entry((u, t))
                        == l0.bal_entry((u, t)) && self.report_of((u, t)) == rec0.report_of(
                        (u, t),
                    ),
                same_mirror(l0, *ledger),
                same_withdrawals(l0, *ledger),
            decreases n - i,
        {
            let ghost k = accounts[i as int];
            let ghost led_pre = *ledger;
            let ghost rec_pre = *self;
            let user = keys[i].0.as_str();
            let token = keys[i].1.as_str();
            let bal = ledger.internal_balance(user, token);
            let tot = bal.1;
            let chain = ledger.on_chain_balance(user, token);
            let diff: i128 = chain as i128 - tot as i128;
            proof {
                let ki = keys@[i as int];
                assert((ki.0@, ki.1@) == accounts[i as int]);
                assert(k == (user@, token@));
                assert(ledger.bal_entry(k) == l0.bal_entry(k));
                assert(ledger.chain_bal(k) == l0.chain_bal(k));
            }
            let status: AccountStatus = if diff == 0 {
                AccountStatus::Healthy
            } else if -(AUTO_CORRECT_THRESHOLD as i128) <= diff && diff <= AUTO_CORRECT_THRESHOLD
                as i128 {
                ledger.adjust_internal_balances(user, token, diff);
                AccountStatus::AutoCorrected
            } else {
                AccountStatus::Drift
            };
            let bal2 = ledger.internal_balance(user, token);
            let tot2 = bal2.1;
            let final_diff: i128 = chain as i128 - tot2 as i128;
            let report = AccountReport {
                status,
                on_chain: chain,
                drift: final_diff,
                last_checked: now_rfc3339(),
            };
            self.upsert_report(user, token, report);
            proof {
                assert(account_reconciled(l0, *ledger, *self, k.0, k.1));
                assert forall|j: int|
                    0 <= j < i + 1 implies account_reconciled(
                    l0,
                    *ledger,
                    *self,
                    (#[trigger] accounts[j]).0,
                    accounts[j].1,
                ) by {
                    if j < i {
                        assert(accounts[j] != k);
                        assert(ledger.bal_entry(accounts[j]) == led_pre.bal_entry(accounts[j]));
                        assert(ledger.chain_bal(accounts[j]) == led_pre.chain_bal(accounts[j]));
                        assert(self.report_of(accounts[j]) == rec_pre.report_of(accounts[j]));
                    }
                }
                assert forall|j: int|
                    i + 1 <= j < n implies #[trigger] ledger.bal_entry(accounts[j])
                    == l0.bal_entry(accounts[j]) && self.report_of(accounts[j])
                    == rec0.report_of(accounts[j]) by {
                    assert(accounts[j] != k);
                    assert(led_pre.bal_entry(accounts[j]) == l0.bal_entry(accounts[j]));
                    assert(ledger.bal_entry(accounts[j]) == led_pre.bal_entry(accounts[j]));
                    assert(rec_pre.report_of(accounts[j]) == rec0.report_of(accounts[j]));
                    assert(self.report_of(accounts[j]) == rec_pre.report_of(accounts[j]));
                }
                assert forall|u: Seq<char>, t: Seq<char>|
                    !accounts.contains((u, t)) implies #[trigger] ledger.bal_entry((u, t))
                    == l0.bal_entry((u, t)) && self.report_of((u, t)) == rec0.report_of(
                    (u, t),
                ) by {
                    assert((u, t) != k) by {
                        if (u, t) == k {
                            assert(accounts.contains(k)) by {
                                assert(accounts[i as int] == k);
                            }
                        }
                    }
                    assert(led_pre.bal_entry((u, t)) == l0.bal_entry((u, t)));
                    assert(ledger.bal_entry((u, t)) == led_pre.bal_entry((u, t)));
                    assert(rec_pre.report_of((u, t)) == rec0.report_of((u, t)));
                    assert(self.report_of((u, t)) == rec_pre.report_of((u, t)));
                }
            }
            i = i + 1;
        }
    }

    /// A row of a reconciled balance snapshot: where a report exists its
    /// status, mirror value and drift overlay the raw listing.
    pub open spec fn snapshot_row_ok(self, b: Balance, e: BalanceEntry, l: Ledger) -> bool {
        match self.report_of((e.user@, e.token@)) {
            Some(rep) => {
                &&& b.token@ == e.token@
                &&& b.available == e.available
                &&& b.total == e.total
                &&& b.on_chain == rep.on_chain
                &&& b.drift == rep.drift
                &&& b.status@ == status_str(rep.status)
                &&& b.last_reconciled_at matches Some(ts) && ts@ == rep.last_checked@
            },
            None => balance_row_ok(b, e, l),
        }
    }

    /// Index of the report entry for a key, if present.
    fn find_report(&self, user: &str, token: &str) -> (r: Option<usize>)
        requires
            self.wf(),
        ensures
            match r {
                Some(i) => i < self.reports@.len() && self.report_of((user@, token@)) == Some(
                    self.reports@[i as int].report,
                ),
                None => self.report_of((user@, token@)) is None,
            },
    {
        let n = self.reports.len();
        let mut j: usize = 0;
        while j < n
            invariant
                0 <= j <= n,
                self.wf(),
                n == self.reports@.len(),
                forall|a: int|
                    0 <= a < j ==> (#[trigger] self.reports@[a].key()) != (user@, token@),
            decreases n - j,
        {
            let hit_user = str_eq(self.reports[j].user.as_str(), user);
            let hit_token = str_eq(self.reports[j].token.as_str(), token);
            if hit_user && hit_token {
                proof {
                    kv::lemma_lookup_present(self.reports@, j as int);
                }
                return Some(j);
            }
            j = j + 1;
        }
        proof {
            kv::lemma_lookup_absent(self.reports@, (user@, token@));
        }
        None
    }

    /// One user's balances with the latest reconciliation overlay.
    pub fn snapshot_balances(&self, ledger: &Ledger, user: &str) -> (r: Vec<Balance>)
        requires
            self.wf(),
            ledger.wf(),
        ensures
            r@.len() == ledger.user_rows(user@).len(),
            forall|j: int|
                0 <= j < r@.len() ==> self.snapshot_row_ok(
                    #[trigger] r@[j],
                    ledger.user_rows(user@)[j],
                    *ledger,
                ),
    {
        let mut rows = ledger.list_balances(user);
        let n = rows.len();
        let ghost entries = ledger.user_rows(user@);
        proof {
            ledger.lemma_user_rows_user(user@);
        }
        let mut i: usize = 0;
        while i < n
            invariant
                0 <= i <= n,
                self.wf(),
                ledger.wf(),
                n == rows@.len(),
                rows@.len() == entries.len(),
                entries == ledger.user_rows(user@),
                forall|j: int|
                    i <= j < n ==> balance_row_ok(#[trigger] rows@[j], entries[j], *ledger),
                forall|j: int| i <= j < n ==> (#[trigger] entries[j]).user@ == user@,
                forall|j: int|
                    0 <= j < i ==> self.snapshot_row_ok(#[trigger] rows@[j], entries[j], *ledger),
            decreases n - i,
        {
            match self.find_report(user, rows[i].token.as_str()) {
                Some(ri) => {
                    let b = Balance {
                        token: rows[i].token.clone(),
                        available: rows[i].available,
                        total: rows[i].total,
                        on_chain: self.reports[ri].report.on_chain,
                        drift: self.reports[ri].report.drift,
                        status: self.reports[ri].report.status.as_str().to_owned(),
                        last_reconciled_at: Some(self.reports[ri].report.last_checked.clone()),
                    };
                    rows[i] = b;
                },
                None => {},
            }
            i = i + 1;
        }
        rows
    }

    /// Reconcile one pool against chain readings already in hand: compute
    /// the drift on each reserve, pause the pool if either is nonzero, and
    /// persist the mirror with its timestamp.
    pub fn apply_pool_reconciliation(
        &self,
        pm: &mut PoolManager,
        pool_id: &str,
        on_chain_a: u64,
        on_chain_b: u64,
        timestamp: String,
    ) -> (r: Result<PoolReconcileResult, PoolError>)
        requires
            old(pm).wf(),
        ensures
            final(pm).wf(),
            old(pm).pool_of(pool_id@) is None ==> r == Err::<PoolReconcileResult, PoolError>(
                PoolError::PoolNotFound,
            ) && *final(pm) == *old(pm),
            old(pm).pool_of(pool_id@) matches Some(p) ==> ({
                let da = on_chain_a - p.reserve_a;
                let db = on_chain_b - p.reserve_b;
                let drifted = !(da == 0 && db == 0);
                &&& r matches Ok(res)
                &&& res.pool_id@ == pool_id@
                &&& res.drift_a == da
                &&& res.drift_b == db
                &&& res.status@ == (if drifted {
                    "drift"@
                } else {
                    "ok"@
                })
                &&& (final(pm)).pool_of(pool_id@) == Some(
                    (LiquidityPool {
                        paused: (p.paused || drifted),
                        on_chain_reserve_a: on_chain_a,
                        on_chain_reserve_b: on_chain_b,
                        last_reconciled_at: Some(timestamp),
                        pending_settlement: false,
                        ..p
                    }),
                )
                &&& same_pools_except(*old(pm), *final(pm), pool_id@)
            }),
    {
        let pool = match pm.get_pool(pool_id) {
            Some(p) => p,
            None => {
                return Err(PoolError::PoolNotFound);
            },
        };
        let drift_a: i128 = on_chain_a as i128 - pool.reserve_a as i128;
        let drift_b: i128 = on_chain_b as i128 - pool.reserve_b as i128;
        let drifted = !(drift_a == 0 && drift_b == 0);
        let ghost pm0 = *pm;
        let status: String = if drifted {
            match pm.pause_pool(pool_id) {
                Ok(_) => {},
                Err(_) => {},
            }
            "drift".to_owned()
        } else {
            "ok".to_owned()
        };
        let ghost pm1 = *pm;
        match pm.update_reconciliation(pool_id, on_chain_a, on_chain_b, timestamp) {
            Ok(_) => {},
            Err(_) => {},
        }
        proof {
            assert forall|id2: Seq<char>|
                id2 != pool_id@ implies #[trigger] final(pm).pool_of(id2) == old(pm).pool_of(
                id2,
            ) by {
                assert(final(pm).pool_of(id2) == pm1.pool_of(id2));
                assert(pm1.pool_of(id2) == pm0.pool_of(id2));
            }
        }
        Ok(PoolReconcileResult { pool_id: pool_id.to_owned(), drift_a, drift_b, status })
    }

    /// Reconcile one pool against the chain client's readings, stamping the
    /// time. The read is query-only; pausing is the defined mitigation. The
    /// demo client reads every storage account as empty, so the drifts are
    /// the negated shadow reserves.
    pub fn reconcile_pool(
        &self,
        pm: &mut PoolManager,
        client: &KeetaClient,
        pool_id: &str,
    ) -> (r: Result<PoolReconcileResult, PoolError>)
        requires
            old(pm).wf(),
        ensures
            final(pm).wf(),
            (r is Ok) == (old(pm).pool_of(pool_id@) is Some),
            forall|id2: Seq<char>|
                id2 != pool_id@ ==> #[trigger] final(pm).pool_of(id2) == old(pm).pool_of(id2),
            old(pm).pool_of(pool_id@) matches Some(p) ==> ({
                &&& r matches Ok(res)
                &&& res.pool_id@ == pool_id@
                &&& res.drift_a == 0 - p.reserve_a
                &&& res.drift_b == 0 - p.reserve_b
                &&& res.status@ == (if p.reserve_a == 0 && p.reserve_b == 0 {
                    "ok"@
                } else {
                    "drift"@
                })
                &&& ((final(pm)).pool_of(pool_id@) matches Some(p2)
                    && reconciled_against_empty_chain(p, p2))
            }),
    {
        let pool = match pm.get_pool(pool_id) {
            Some(p) => p,
            None => {
                return Err(PoolError::PoolNotFound);
            },
        };
        let on_chain_a = match client.verify_pool_reserves(
            pool.on_chain_storage_account.as_str(),
            pool.token_a.as_str(),
        ) {
            Ok(v) => v,
            Err(_) => 0,
        };
        let on_chain_b = match client.verify_pool_reserves(
            pool.on_chain_storage_account.as_str(),
            pool.token_b.as_str(),
        ) {
            Ok(v) => v,
            Err(_) => 0,
        };
        let now = now_rfc3339();
        self.apply_pool_reconciliation(pm, pool_id, on_chain_a, on_chain_b, now)
    }

    /// Reconcile every registered pool in turn: after the pass each pool
    /// has been through a tick against the demo chain's empty readings.
    pub fn reconcile_all_pools(&self, pm: &mut PoolManager, client: &KeetaClient)
        requires
            old(pm).wf(),
        ensures
            final(pm).wf(),
            forall|id: Seq<char>|
                old(pm).pool_of(id) matches Some(p) ==> ((#[trigger] (final(pm)).pool_of(id))
                    matches Some(p2) && reconciled_against_empty_chain(p, p2)),
    {
        proof {
            old(pm).lemma_pool_ids_unique();
        }
        let pools = pm.list_pools();
        let n = pools.len();
        let ghost pm0 = *old(pm);
        let mut i: usize = 0;
        while i < n
            invariant
                0 <= i <= n,
                pm.wf(),
                pm0.wf(),
                n == pm0.pool_seq().len(),
                pools@ == pm0.pool_seq(),
                forall|a: int, b: int|
                    0 <= a < b < n ==> (#[trigger] pm0.pool_seq()[a]).id@ != (
                    #[trigger] pm0.pool_seq()[b]).id@,
                forall|j: int|
                    0 <= j < i ==> ((#[trigger] pm.pool_of(pm0.pool_seq()[j].id@)) matches Some(
                        p2,
                    ) && reconciled_against_empty_chain(pm0.pool_seq()[j], p2)),
                forall|j: int|
                    i <= j < n ==> #[trigger] pm.pool_of(pm0.pool_seq()[j].id@) == pm0.pool_of(
                        pm0.pool_seq()[j].id@,
                    ),
            decreases n - i,
        {
            let ghost k = pm0.pool_seq()[i as int].id@;
            let ghost pm_pre = *pm;
            proof {
                pm0.lemma_seq_pool_of(i as int);
                assert(pm.pool_of(k) == Some(pm0.pool_seq()[i as int]));
            }
            let _ = self.reconcile_pool(pm, client, pools[i].id.as_str());
            proof {
                assert forall|j: int|
                    0 <= j < i + 1 implies ((#[trigger] pm.pool_of(pm0.pool_seq()[j].id@))
                    matches Some(p2) && reconciled_against_empty_chain(
                    pm0.pool_seq()[j],
                    p2,
                )) by {
                    if j < i {
                        assert(pm0.pool_seq()[j].id@ != k);
                        assert(pm.pool_of(pm0.pool_seq()[j].id@) == pm_pre.pool_of(
                            pm0.pool_seq()[j].id@,
                        ));
                    }
                }
                assert forall|j: int|
                    i + 1 <= j < n implies #[trigger] pm.pool_of(pm0.pool_seq()[j].id@)
                    == pm0.pool_of(pm0.pool_seq()[j].id@) by {
                    assert(pm0.pool_seq()[j].id@ != k);
                    assert(pm.pool_of(pm0.pool_seq()[j].id@) == pm_pre.pool_of(
                        pm0.pool_seq()[j].id@,
                    ));
                }
            }
            i = i + 1;
        }
        proof {
            assert forall|id: Seq<char>|
                pm0.pool_of(id) is Some implies ((#[trigger] pm.pool_of(id)) matches Some(p2)
                && reconciled_against_empty_chain(pm0.pool_of(id)->0, p2)) by {
                pm0.lemma_pool_of_in_seq(id);
                let j = choose|j: int|
                    0 <= j < pm0.pool_seq().len() && pm0.pool_of(id) == Some(
                        #[trigger] pm0.pool_seq()[j],
                    ) && pm0.pool_seq()[j].id@ == id;
                assert(pm.pool_of(pm0.pool_seq()[j].id@) matches Some(p2)
                    && reconciled_against_empty_chain(pm0.pool_seq()[j], p2));
            }
        }
    }
}

} // verus!
