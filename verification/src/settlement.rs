//! Settlement queue: a typed, strictly first-in-first-out pipeline of chain
//! operations, and the terminal write-back of a withdrawal's outcome.
//!
//! The queue holds state only; the loop that drains it performs the chain
//! call and hands the outcome to `settle_withdrawal`, which is verified for
//! every outcome the chain can produce.

use vstd::prelude::*;

use crate::ledger::{completed_withdrawal, failed_withdrawal, fresh_withdrawal_record, Ledger};
use crate::models::{WithdrawEnqueued, WithdrawRequest};
use crate::sys::mint_id;

verus! {

/// One queued chain operation.
pub enum SettlementOp {
    Withdraw { id: String, request: WithdrawRequest, amount: u64 },
    PoolDeposit {
        id: String,
        user_id: String,
        pool_storage_account: String,
        token: String,
        amount: u64,
    },
    PoolWithdraw {
        id: String,
        pool_storage_account: String,
        user_id: String,
        token: String,
        amount: u64,
    },
}

/// The pending operations, oldest first.
pub struct SettlementQueue {
    ops: Vec<SettlementOp>,
}

impl SettlementQueue {
    /// The queued operations, oldest first.
    pub closed spec fn ops_seq(self) -> Seq<SettlementOp> {
        self.ops@
    }

    pub fn new() -> (r: SettlementQueue)
        ensures
            r.ops_seq() == Seq::<SettlementOp>::empty(),
    {
        SettlementQueue { ops: Vec::new() }
    }

    /// Record the withdrawal as `Pending` in the ledger and queue its chain
    /// submission. The caller has already reserved and debited; balances do
    /// not move here.
    pub fn enqueue(&mut self, ledger: &mut Ledger, request: WithdrawRequest, amount: u64) -> (r:
        WithdrawEnqueued)
        requires
            old(ledger).wf(),
        ensures
            final(ledger).wf(),
            r.request_id@.len() == 36,
            r.status@ == "pending"@,
            final(ledger).wrec(r.request_id@) matches Some(rec) && fresh_withdrawal_record(
                rec,
                r.request_id@,
                request,
            ),
            crate::ledger::same_withdrawals_except(*old(ledger), *final(ledger), r.request_id@),
            crate::ledger::same_balances(*old(ledger), *final(ledger)),
            crate::ledger::same_mirror(*old(ledger), *final(ledger)),
            final(self).ops_seq().len() == old(self).ops_seq().len() + 1,
            final(self).ops_seq().subrange(0, old(self).ops_seq().len() as int) == old(
                self,
            ).ops_seq(),
            final(self).ops_seq().last() matches SettlementOp::Withdraw {
                id,
                request: req,
                amount: amt,
            } && id@ == r.request_id@ && req == request && amt == amount,
    {
        let id = mint_id();
        ledger.record_withdrawal(id.as_str(), &request);
        let op = SettlementOp::Withdraw { id: id.clone(), request, amount };
        self.ops.push(op);
        proof {
            assert(self.ops@.subrange(0, old(self).ops@.len() as int) =~= old(self).ops@);
        }
        WithdrawEnqueued { request_id: id, status: "pending".to_owned() }
    }

    /// Queue the chain transfer of a pool deposit. Fire-and-log: the wallet
    /// is the authority, so no record is kept.
    pub fn enqueue_pool_deposit(
        &mut self,
        user_id: String,
        pool_storage_account: String,
        token: String,
        amount: u64,
    ) -> (r: String)
        ensures
            r@.len() == 36,
            final(self).ops_seq().len() == old(self).ops_seq().len() + 1,
            final(self).ops_seq().subrange(0, old(self).ops_seq().len() as int) == old(
                self,
            ).ops_seq(),
            final(self).ops_seq().last() matches SettlementOp::PoolDeposit {
                id,
                user_id: u,
                pool_storage_account: p,
                token: t,
                amount: a,
            } && id@ == r@ && u == user_id && p == pool_storage_account && t == token && a
                == amount,
    {
        let id = mint_id();
        let op = SettlementOp::PoolDeposit {
            id: id.clone(),
            user_id,
            pool_storage_account,
            token,
            amount,
        };
        self.ops.push(op);
        proof {
            assert(self.ops@.subrange(0, old(self).ops@.len() as int) =~= old(self).ops@);
        }
        id
    }

    /// Queue the chain transfer of a pool withdrawal. Fire-and-log.
    pub fn enqueue_pool_withdraw(
        &mut self,
        pool_storage_account: String,
        user_id: String,
        token: String,
        amount: u64,
    ) -> (r: String)
        ensures
            r@.len() == 36,
            final(self).ops_seq().len() == old(self).ops_seq().len() + 1,
            final(self).ops_seq().subrange(0, old(self).ops_seq().len() as int) == old(
                self,
            ).ops_seq(),
            final(self).ops_seq().last() matches SettlementOp::PoolWithdraw {
                id,
                pool_storage_account: p,
                user_id: u,
                token: t,
                amount: a,
            } && id@ == r@ && u == user_id && p == pool_storage_account && t == token && a
                == amount,
    {
        let id = mint_id();
        let op = SettlementOp::PoolWithdraw {
            id: id.clone(),
            pool_storage_account,
            user_id,
            token,
            amount,
        };
        self.ops.push(op);
        proof {
            assert(self.ops@.subrange(0, old(self).ops@.len() as int) =~= old(self).ops@);
        }
        id
    }

    /// Hand out the oldest pending operation.
    pub fn pop_next(&mut self) -> (r: Option<SettlementOp>)
        ensures
            old(self).ops_seq().len() == 0 ==> r is None && *final(self) == *old(self),
            old(self).ops_seq().len() > 0 ==> (r matches Some(op) && op == old(
                self,
            ).ops_seq().first() && final(self).ops_seq() == old(self).ops_seq().drop_first()),
    {
        if self.ops.len() == 0 {
            return None;
        }
        let op = self.ops.remove(0);
        proof {
            assert(self.ops@ =~= old(self).ops@.drop_first());
        }
        Some(op)
    }
}

/// Terminal write-back of a withdrawal's chain outcome: success completes
/// the record and lowers the mirror by exactly the amount; failure marks it
/// failed and restores both balance parts. No retry follows either way.
pub fn settle_withdrawal(
    ledger: &mut Ledger,
    id: &str,
    user: &str,
    token: &str,
    amount: u64,
    outcome: Result<String, String>,
) -> (r: bool)
    requires
        old(ledger).wf(),
        outcome is Ok ==> old(ledger).chain_bal((user@, token@)) >= amount,
        outcome is Err ==> old(ledger).bal_entry((user@, token@)).1 + amount <= u64::MAX,
    ensures
        final(ledger).wf(),
        r == (outcome is Ok),
        outcome matches Ok(tx) ==> completed_withdrawal(
            *old(ledger),
            *final(ledger),
            id@,
            user@,
            token@,
            amount,
            tx@,
        ),
        outcome matches Err(m) ==> failed_withdrawal(
            *old(ledger),
            *final(ledger),
            id@,
            user@,
            token@,
            amount,
            m@,
        ),
{
    match outcome {
        Ok(tx) => {
            ledger.complete_withdrawal(id, user, token, amount, tx.as_str());
            true
        },
        Err(m) => {
            ledger.fail_withdrawal(id, user, token, amount, m.as_str());
            false
        },
    }
}

} // verus!
