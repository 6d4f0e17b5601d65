//! Request-surface cores: the computation each boundary handler performs
//! once its input is plain values.

use vstd::prelude::*;

use crate::amounts::{parse_units, spec_parse_units};
use crate::ledger::{reserve_succeeds, same_balances, same_mirror, same_withdrawals, Ledger};
use crate::models::{AuthChallenge, AuthSession, WithdrawEnqueued, WithdrawRequest};
use crate::settlement::{SettlementOp, SettlementQueue};
use crate::strutil::starts_with_str;
use crate::sys::mint_id;
use vstd::string::StrSliceExecFns;
use vstd::string::StringExecFns;

verus! {

/// Rejection of a withdrawal request before anything is enqueued.
#[derive(Clone, Copy, Debug, PartialEq, Eq, Structural)]
pub enum WithdrawFlowError {
    InvalidAmount,
    InsufficientBalance,
}

/// The withdrawal pipeline entry: parse the amount, reserve it, finalize
/// the spend, and enqueue the chain submission. On success the key's
/// available and total have both fallen by the amount and a `Pending`
/// record exists under the returned id.
pub fn withdraw_flow(
    ledger: &mut Ledger,
    queue: &mut SettlementQueue,
    request: WithdrawRequest,
) -> (r: Result<WithdrawEnqueued, WithdrawFlowError>)
    requires
        old(ledger).wf(),
    ensures
        final(ledger).wf(),
        ({
            let amt = spec_parse_units(request.amount@);
            match amt {
                None => r == Err::<WithdrawEnqueued, WithdrawFlowError>(
                    WithdrawFlowError::InvalidAmount,
                ) && *final(ledger) == *old(ledger) && *final(queue) == *old(queue),
                Some(a) => if a == 0 {
                    r == Err::<WithdrawEnqueued, WithdrawFlowError>(
                        WithdrawFlowError::InvalidAmount,
                    ) && *final(ledger) == *old(ledger) && *final(queue) == *old(queue)
                } else if !reserve_succeeds(*old(ledger), request.user_id@, request.token@, a) {
                    &&& r == Err::<WithdrawEnqueued, WithdrawFlowError>(
                        WithdrawFlowError::InsufficientBalance,
                    )
                    &&& *final(queue) == *old(queue)
                    &&& same_balances(*old(ledger), *final(ledger))
                    &&& same_mirror(*old(ledger), *final(ledger))
                    &&& same_withdrawals(*old(ledger), *final(ledger))
                } else {
                    &&& r matches Ok(enq)
                    &&& enq.request_id@.len() == 36
                    &&& enq.status@ == "pending"@
                    &&& (final(ledger)).bal_entry((request.user_id@, request.token@)).0
                        == (*old(ledger)).bal_entry((request.user_id@, request.token@)).0 - a
                    &&& (final(ledger)).bal_entry((request.user_id@, request.token@)).1
                        == (*old(ledger)).bal_entry((request.user_id@, request.token@)).1 - a
                    &&& (forall|k2: (Seq<char>, Seq<char>)|
                        k2 != (request.user_id@, request.token@) ==> (#[trigger] (final(
                        ledger)).bal_entry(k2)) == (*old(ledger)).bal_entry(k2))
                    &&& same_mirror(*old(ledger), *final(ledger))
                    &&& (final(ledger)).wrec(enq.request_id@) matches Some(rec)
                        && rec.status is Pending && rec.user_id@ == request.user_id@ && rec.token@
                        == request.token@ && rec.amount@ == request.amount@
                    &&& (final(queue)).ops_seq().len() == (*old(queue)).ops_seq().len() + 1
                    &&& (final(queue)).ops_seq().last() matches SettlementOp::Withdraw {
                        id,
                        request: rq,
                        amount,
                    } && id@ == enq.request_id@ && amount == a
                },
            }
        }),
{
    let amount = match parse_units(request.amount.as_str()) {
        Some(a) => a,
        None => {
            return Err(WithdrawFlowError::InvalidAmount);
        },
    };
    if amount == 0 {
        return Err(WithdrawFlowError::InvalidAmount);
    }
    let ok = ledger.reserve(request.user_id.as_str(), request.token.as_str(), amount);
    if !ok {
        return Err(WithdrawFlowError::InsufficientBalance);
    }
    let ghost l1 = *ledger;
    proof {
        old(ledger).lemma_wf_entry((request.user_id@, request.token@));
    }
    ledger.debit_total(request.user_id.as_str(), request.token.as_str(), amount);
    let ghost l2 = *ledger;
    let ghost saved = request;
    let enq = queue.enqueue(ledger, request, amount);
    proof {
        let k = (saved.user_id@, saved.token@);
        assert(ledger.bal_entry(k) == l2.bal_entry(k));
        assert forall|k2: (Seq<char>, Seq<char>)|
            k2 != k implies #[trigger] ledger.bal_entry(k2) == old(ledger).bal_entry(k2) by {
            assert(ledger.bal_entry(k2) == l2.bal_entry(k2));
            assert(l2.bal_entry(k2) == l1.bal_entry(k2));
            assert(l1.bal_entry(k2) == old(ledger).bal_entry(k2));
        }
        assert forall|k2: (Seq<char>, Seq<char>)| #[trigger]
            ledger.chain_bal(k2) == old(ledger).chain_bal(k2) by {
            assert(ledger.chain_bal(k2) == l2.chain_bal(k2));
            assert(l2.chain_bal(k2) == l1.chain_bal(k2));
            assert(l1.chain_bal(k2) == old(ledger).chain_bal(k2));
        }
    }
    Ok(enq)
}

/// Open a demo session: the bearer token names its user.
pub fn create_session(user_id: String) -> (r: AuthSession)
    ensures
        r.user_id == user_id,
        r.jwt@ == "demo-token-for-"@ + user_id@,
{
    let jwt = "demo-token-for-".to_owned().concat(user_id.as_str());
    AuthSession { user_id, jwt }
}

/// Mint a fresh challenge nonce.
pub fn new_auth_challenge() -> (r: AuthChallenge)
    ensures
        r.nonce@.len() == 36,
{
    AuthChallenge { nonce: mint_id() }
}

/// A market-data channel a client may subscribe to.
pub enum ChannelKind {
    Orderbook(String),
    Trades(String),
    Unknown,
}

/// Classify a subscription channel: `orderbook:<market>`, `trades:<market>`,
/// or neither.
pub fn classify_channel(channel: &str) -> (r: ChannelKind)
    ensures
        channel@.len() >= 10 && channel@.subrange(0, 10) == "orderbook:"@ ==> (r matches
            ChannelKind::Orderbook(m) && m@ == channel@.subrange(10, channel@.len() as int)),
        !(channel@.len() >= 10 && channel@.subrange(0, 10) == "orderbook:"@) && channel@.len() >= 7
            && channel@.subrange(0, 7) == "trades:"@ ==> (r matches ChannelKind::Trades(m) && m@
            == channel@.subrange(7, channel@.len() as int)),
        !(channel@.len() >= 10 && channel@.subrange(0, 10) == "orderbook:"@) && !(channel@.len()
            >= 7 && channel@.subrange(0, 7) == "trades:"@) ==> r is Unknown,
{
    proof {
        reveal_strlit("orderbook:");
        reveal_strlit("trades:");
    }
    if starts_with_str(channel, "orderbook:") {
        let market = channel.substring_char(10, channel.unicode_len()).to_owned();
        ChannelKind::Orderbook(market)
    } else if starts_with_str(channel, "trades:") {
        let market = channel.substring_char(7, channel.unicode_len()).to_owned();
        ChannelKind::Trades(market)
    } else {
        ChannelKind::Unknown
    }
}

} // verus!
