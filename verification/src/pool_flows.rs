//! Pool request flows: the cores of the pool endpoints, from plain request
//! values to registry, ledger and settlement effects.
//!
//! Each contract pins the outcome case by case; ledger effects are given as
//! a chain of the ledger's own transition predicates, one per operation the
//! flow performs. Effects are stated in full for requests whose three keys
//! (the two pool tokens and the LP token) are pairwise distinct; degenerate
//! same-symbol requests still execute as the handlers always did, with only
//! well-formedness claimed.

use vstd::prelude::*;

use crate::amounts::{all_dec_digits, digits_value, parse_u64};
use crate::keeta::KeetaClient;
use crate::ledger::{credited, debited_total, released, reserved, same_withdrawals, Ledger};
use crate::pool::{LiquidityPool, PoolError, PoolType};
use crate::pool_manager::{same_pools_except, spec_pool_id, PoolManager};
use crate::settlement::{SettlementOp, SettlementQueue};
use crate::strutil::str_eq;
use vstd::string::StringExecFns;

verus! {

/// Demo top-up handed to wallets first seen by the legacy custodial pool
/// endpoint.
pub const DEMO_CREDIT: u64 = 10_000_000;

/// Whole-unit amount a request string denotes: its digits' value, or zero
/// when it is not a plain number that fits.
pub open spec fn parsed_or_zero(s: Seq<char>) -> u64 {
    if s.len() > 0 && all_dec_digits(s) && digits_value(s) <= u64::MAX as int {
        digits_value(s) as u64
    } else {
        0
    }
}

/// Parse a whole-unit amount, defaulting to zero as the handlers do.
pub fn parse_amount_or_zero(s: &str) -> (r: u64)
    ensures
        r == parsed_or_zero(s@),
{
    match parse_u64(s) {
        Some(v) => v,
        None => 0,
    }
}

/// How an errored pool request is reported.
#[derive(Clone, Copy, Debug, PartialEq, Eq, Structural)]
pub enum PoolFlowError {
    InsufficientBalanceA,
    InsufficientBalanceB,
    InsufficientLpBalance,
    InvalidAmountIn,
    InvalidAmountOut,
    BelowDeclaredMinimum,
    /// The request cannot be priced inside the integer model (a weighted
    /// pool, or values beyond the 128-bit intermediates).
    Unsupported,
    Pool(PoolError),
}

/// Pool type selected by a request.
pub open spec fn spec_pool_type_choice(o: Option<String>) -> PoolType {
    match o {
        Some(s) => if s@ == "stable_swap"@ {
            PoolType::StableSwap { amplification: 100 }
        } else if s@ == "weighted"@ {
            PoolType::Weighted { weight_a: 80, weight_b: 20 }
        } else {
            PoolType::ConstantProduct
        },
        None => PoolType::ConstantProduct,
    }
}

fn pool_type_choice(o: &Option<String>) -> (r: PoolType)
    ensures
        r == spec_pool_type_choice(*o),
{
    match o {
        Some(s) => {
            if str_eq(s.as_str(), "stable_swap") {
                PoolType::StableSwap { amplification: 100 }
            } else if str_eq(s.as_str(), "weighted") {
                PoolType::Weighted { weight_a: 80, weight_b: 20 }
            } else {
                PoolType::ConstantProduct
            }
        },
        None => PoolType::ConstantProduct,
    }
}

/// Effect of the demo top-up: a fresh-looking key (nothing available) is
/// credited `DEMO_CREDIT` when that fits; any other key is left alone.
pub open spec fn demo_boosted(pre: Ledger, post: Ledger, w: Seq<char>, t: Seq<char>) -> bool {
    let k = (w, t);
    if pre.bal_entry(k).0 == 0 && pre.bal_entry(k).1 + DEMO_CREDIT <= u64::MAX && pre.chain_bal(k)
        + DEMO_CREDIT <= u64::MAX {
        credited(pre, post, w, t, DEMO_CREDIT)
    } else {
        post == pre
    }
}

/// The available part after the demo top-up.
pub open spec fn boosted_available(l: Ledger, w: Seq<char>, t: Seq<char>) -> int {
    let k = (w, t);
    if l.bal_entry(k).0 == 0 && l.bal_entry(k).1 + DEMO_CREDIT <= u64::MAX && l.chain_bal(k)
        + DEMO_CREDIT <= u64::MAX {
        l.bal_entry(k).0 + DEMO_CREDIT
    } else {
        l.bal_entry(k).0 as int
    }
}

/// Top a fresh demo wallet up, when the credit is representable.
fn ensure_demo_funds(ledger: &mut Ledger, wallet: &str, token: &str)
    requires
        old(ledger).wf(),
    ensures
        final(ledger).wf(),
        demo_boosted(*old(ledger), *final(ledger), wallet@, token@),
        boosted_available(*old(ledger), wallet@, token@) == (final(ledger)).bal_entry(
            (wallet@, token@),
        ).0,
{
    let bal = ledger.internal_balance(wallet, token);
    let ch = ledger.on_chain_balance(wallet, token);
    if bal.0 == 0 && bal.1 <= u64::MAX - DEMO_CREDIT && ch <= u64::MAX - DEMO_CREDIT {
        ledger.credit(wallet, token, DEMO_CREDIT);
    }
}

/// Credit that skips silently when the amount cannot be represented on the
/// key; the effect either way.
pub open spec fn guarded_credit(
    pre: Ledger,
    post: Ledger,
    w: Seq<char>,
    t: Seq<char>,
    amount: u64,
) -> bool {
    if pre.bal_entry((w, t)).1 + amount <= u64::MAX && pre.chain_bal((w, t)) + amount
        <= u64::MAX {
        credited(pre, post, w, t, amount)
    } else {
        post == pre
    }
}

fn credit_guarded(ledger: &mut Ledger, wallet: &str, token: &str, amount: u64)
    requires
        old(ledger).wf(),
    ensures
        final(ledger).wf(),
        guarded_credit(*old(ledger), *final(ledger), wallet@, token@, amount),
{
    let bal = ledger.internal_balance(wallet, token);
    let ch = ledger.on_chain_balance(wallet, token);
    if bal.1 <= u64::MAX - amount && ch <= u64::MAX - amount {
        ledger.credit(wallet, token, amount);
    }
}

/// Request to create a pool through the legacy custodial endpoint.
pub struct CreatePoolRequest {
    pub wallet_address: String,
    pub token_a: String,
    pub token_b: String,
    pub initial_amount_a: String,
    pub initial_amount_b: String,
    pub fee_rate: Option<u64>,
    pub pool_type: Option<String>,
}

/// What pool creation hands back.
#[derive(Debug)]
pub struct CreatePoolResponse {
    pub pool_id: String,
    pub storage_account: String,
    pub lp_token: String,
    pub lp_tokens_minted: u64,
}

/// The storage-account address minted for a legacy custodial pool.
pub open spec fn spec_legacy_storage_account(ta: Seq<char>, tb: Seq<char>) -> Seq<char> {
    "keeta:storage:pool:"@ + spec_pool_id(ta, tb) + ":"@ + ta + ":"@ + tb
}

/// Create a pool from a request: top the wallet up if it looks fresh,
/// reserve and spend both deposits, register the pool, and credit the
/// bootstrap LP supply to the wallet.
pub fn create_pool_flow(pm: &mut PoolManager, ledger: &mut Ledger, req: &CreatePoolRequest) -> (r:
    Result<CreatePoolResponse, PoolFlowError>)
    requires
        old(pm).wf(),
        old(ledger).wf(),
    ensures
        final(pm).wf(),
        final(ledger).wf(),
        same_withdrawals(*old(ledger), *final(ledger)),
        ({
            let l0 = *old(ledger);
            let w = req.wallet_address@;
            let ta = req.token_a@;
            let tb = req.token_b@;
            let a = parsed_or_zero(req.initial_amount_a@);
            let b = parsed_or_zero(req.initial_amount_b@);
            let id = spec_pool_id(ta, tb);
            ta != tb ==> {
                if boosted_available(l0, w, ta) < a {
                    &&& r == Err::<CreatePoolResponse, PoolFlowError>(
                        PoolFlowError::InsufficientBalanceA,
                    )
                    &&& *final(pm) == *old(pm)
                    &&& exists|m1: Ledger|
                        demo_boosted(l0, m1, w, ta) && #[trigger] reserved(
                            m1,
                            *final(ledger),
                            w,
                            ta,
                            a,
                            false,
                        )
                } else if boosted_available(l0, w, tb) < b {
                    &&& r == Err::<CreatePoolResponse, PoolFlowError>(
                        PoolFlowError::InsufficientBalanceB,
                    )
                    &&& *final(pm) == *old(pm)
                    &&& exists|m1: Ledger, m2: Ledger, m3: Ledger, m4: Ledger|
                        #![trigger reserved(m1, m2, w, ta, a, true), reserved(m3, m4, w, tb, b, false)]
                        demo_boosted(l0, m1, w, ta) && reserved(m1, m2, w, ta, a, true)
                            && demo_boosted(m2, m3, w, tb) && reserved(m3, m4, w, tb, b, false)
                            && released(m4, *final(ledger), w, ta, a)
                } else if !(old(pm).pool_of(id) is None && a * b >= 4) {
                    &&& (old(pm).pool_of(id) is Some ==> r == Err::<
                        CreatePoolResponse,
                        PoolFlowError,
                    >(PoolFlowError::Pool(PoolError::PoolAlreadyExists)))
                    &&& (old(pm).pool_of(id) is None ==> r == Err::<
                        CreatePoolResponse,
                        PoolFlowError,
                    >(PoolFlowError::Pool(PoolError::InsufficientLiquidity)))
                    &&& *final(pm) == *old(pm)
                    &&& exists|m1: Ledger, m2: Ledger, m3: Ledger, m4: Ledger, m5: Ledger|
                        #![trigger reserved(m1, m2, w, ta, a, true), reserved(m3, m4, w, tb, b, true), released(m4, m5, w, ta, a)]
                        demo_boosted(l0, m1, w, ta) && reserved(m1, m2, w, ta, a, true)
                            && demo_boosted(m2, m3, w, tb) && reserved(m3, m4, w, tb, b, true)
                            && released(m4, m5, w, ta, a) && released(m5, *final(ledger), w, tb, b)
                } else {
                    &&& r matches Ok(resp)
                    &&& (final(pm)).pool_of(id) matches Some(p)
                    &&& p.id@ == id
                    &&& p.token_a@ == ta
                    &&& p.token_b@ == tb
                    &&& p.reserve_a == a
                    &&& p.reserve_b == b
                    &&& crate::arith::is_isqrt(a * b, p.total_lp_supply + 1)
                    &&& p.fee_rate == (match req.fee_rate {
                        Some(f) => f,
                        None => 30u64,
                    })
                    &&& p.pool_type == spec_pool_type_choice(req.pool_type)
                    &&& !p.paused
                    &&& p.lp_token@ == "LP-"@ + ta + "-"@ + tb
                    &&& p.on_chain_storage_account@ == spec_legacy_storage_account(ta, tb)
                    &&& !p.pending_settlement
                    &&& resp.pool_id@ == id
                    &&& resp.storage_account@ == p.on_chain_storage_account@
                    &&& resp.lp_token@ == p.lp_token@
                    &&& resp.lp_tokens_minted == p.total_lp_supply
                    &&& same_pools_except(*old(pm), *final(pm), id)
                    &&& exists|m1: Ledger, m2: Ledger, m3: Ledger, m4: Ledger, m5: Ledger, m6: Ledger|
                        #![trigger reserved(m1, m2, w, ta, a, true), reserved(m3, m4, w, tb, b, true), debited_total(m4, m5, w, ta, a), debited_total(m5, m6, w, tb, b)]
                        demo_boosted(l0, m1, w, ta) && reserved(m1, m2, w, ta, a, true)
                            && demo_boosted(m2, m3, w, tb) && reserved(m3, m4, w, tb, b, true)
                            && debited_total(m4, m5, w, ta, a) && debited_total(m5, m6, w, tb, b)
                            && guarded_credit(m6, *final(ledger), w, p.lp_token@, p.total_lp_supply)
                }
            }
        }),
{
    let w = req.wallet_address.as_str();
    let amount_a = parse_amount_or_zero(req.initial_amount_a.as_str());
    let amount_b = parse_amount_or_zero(req.initial_amount_b.as_str());
    let fee_rate: u64 = match req.fee_rate {
        Some(f) => f,
        None => 30,
    };
    let pool_type = pool_type_choice(&req.pool_type);
    let ghost l0 = *ledger;
    ensure_demo_funds(ledger, w, req.token_a.as_str());
    let ghost m1 = *ledger;
    let ok_a = ledger.reserve(w, req.token_a.as_str(), amount_a);
    if !ok_a {
        return Err(PoolFlowError::InsufficientBalanceA);
    }
    let ghost m2 = *ledger;
    ensure_demo_funds(ledger, w, req.token_b.as_str());
    let ghost m3 = *ledger;
    proof {
        if req.token_a@ != req.token_b@ {
            assert(m2.bal_entry((req.wallet_address@, req.token_b@)) == l0.bal_entry(
                (req.wallet_address@, req.token_b@),
            ));
            assert(m2.chain_bal((req.wallet_address@, req.token_b@)) == l0.chain_bal(
                (req.wallet_address@, req.token_b@),
            ));
        }
    }
    let ok_b = ledger.reserve(w, req.token_b.as_str(), amount_b);
    if !ok_b {
        let ghost m4 = *ledger;
        ledger.release(w, req.token_a.as_str(), amount_a);
        return Err(PoolFlowError::InsufficientBalanceB);
    }
    let ghost m4 = *ledger;
    match pm.create_pool(
        req.token_a.clone(),
        req.token_b.clone(),
        amount_a,
        amount_b,
        fee_rate,
        pool_type,
    ) {
        Ok(pool_id) => {
            let storage_account = "keeta:storage:pool:".to_owned().concat(pool_id.as_str()).concat(
                ":",
            ).concat(req.token_a.as_str()).concat(":").concat(req.token_b.as_str());
            let _ = pm.update_storage_account(pool_id.as_str(), storage_account);
            proof {
                let ka = (req.wallet_address@, req.token_a@);
                m1.lemma_wf_entry(ka);
                if req.token_a@ != req.token_b@ {
                    assert(m3.bal_entry(ka) == m2.bal_entry(ka));
                    assert(m4.bal_entry(ka) == m3.bal_entry(ka));
                }
            }
            ledger.debit_total(w, req.token_a.as_str(), amount_a);
            let ghost m5 = *ledger;
            proof {
                let kb = (req.wallet_address@, req.token_b@);
                m3.lemma_wf_entry(kb);
                if req.token_a@ != req.token_b@ {
                    assert(m5.bal_entry(kb) == m4.bal_entry(kb));
                }
            }
            ledger.debit_total(w, req.token_b.as_str(), amount_b);
            let ghost m6 = *ledger;
            let pool = match pm.get_pool(pool_id.as_str()) {
                Some(p) => p,
                None => vstd::pervasive::unreached(),
            };
            credit_guarded(ledger, w, pool.lp_token.as_str(), pool.total_lp_supply);
            proof {
                assert forall|id2: Seq<char>| #[trigger]
                    ledger.wrec(id2) == old(ledger).wrec(id2) by {
                    assert(ledger.wrec(id2) == m6.wrec(id2));
                    assert(m6.wrec(id2) == m5.wrec(id2));
                    assert(m5.wrec(id2) == m4.wrec(id2));
                    assert(m4.wrec(id2) == m3.wrec(id2));
                    assert(m3.wrec(id2) == m2.wrec(id2));
                    assert(m2.wrec(id2) == m1.wrec(id2));
                    assert(m1.wrec(id2) == old(ledger).wrec(id2));
                }
            }
            Ok(CreatePoolResponse {
                pool_id: pool.id,
                storage_account: pool.on_chain_storage_account,
                lp_token: pool.lp_token,
                lp_tokens_minted: pool.total_lp_supply,
            })
        },
        Err(e) => {
            let ghost m4b = *ledger;
            ledger.release(w, req.token_a.as_str(), amount_a);
            let ghost m5 = *ledger;
            ledger.release(w, req.token_b.as_str(), amount_b);
            proof {
                assert forall|id2: Seq<char>| #[trigger]
                    ledger.wrec(id2) == old(ledger).wrec(id2) by {
                    assert(ledger.wrec(id2) == m5.wrec(id2));
                    assert(m5.wrec(id2) == m4.wrec(id2));
                    assert(m4.wrec(id2) == m3.wrec(id2));
                    assert(m3.wrec(id2) == m2.wrec(id2));
                    assert(m2.wrec(id2) == m1.wrec(id2));
                    assert(m1.wrec(id2) == old(ledger).wrec(id2));
                }
            }
            Err(PoolFlowError::Pool(e))
        },
    }
}

/// Request to deposit liquidity into a pool.
pub struct AddLiquidityRequest {
    pub wallet_address: String,
    pub pool_id: String,
    pub amount_a_desired: String,
    pub amount_b_desired: String,
    pub amount_a_min: Option<String>,
    pub amount_b_min: Option<String>,
}

/// What a liquidity deposit hands back. The pool share is in basis points.
#[derive(Debug)]
pub struct AddLiquidityResponse {
    pub amount_a: u64,
    pub amount_b: u64,
    pub lp_tokens: u64,
    pub share_of_pool: u64,
}

/// Request to withdraw liquidity from a pool.
pub struct RemoveLiquidityRequest {
    pub wallet_address: String,
    pub pool_id: String,
    pub lp_tokens: String,
    pub amount_a_min: Option<String>,
    pub amount_b_min: Option<String>,
}

/// What a liquidity withdrawal hands back.
#[derive(Debug)]
pub struct RemoveLiquidityResponse {
    pub amount_a: u64,
    pub amount_b: u64,
    pub fees_earned_a: u64,
    pub fees_earned_b: u64,
}

/// The mint computation is defined within the integer model for this pool
/// and deposit.
pub open spec fn flow_mint_defined(p: LiquidityPool, a: u64, b: u64) -> bool {
    p.total_lp_supply != 0 && p.reserve_a >= 1 && p.reserve_b >= 1 && p.lp_mint_liq(a, b)
        <= u64::MAX
}

/// LP tokens minted by the deposit flow: the pool's own mint where it is
/// defined and nonzero, and the one-token fallback the handler always used
/// otherwise.
fn flow_mint(pool: &LiquidityPool, a: u64, b: u64) -> (r: u64)
    ensures
        flow_mint_defined(*pool, a, b) ==> r == (if pool.lp_mint_liq(a, b) == 0 {
            1u64
        } else {
            pool.lp_mint_liq(a, b) as u64
        }),
        pool.total_lp_supply == 0 && a * b >= 4 ==> crate::arith::is_isqrt(
            a * b,
            r + (crate::pool::MINIMUM_LIQUIDITY as int),
        ),
        pool.total_lp_supply == 0 && a * b < 4 ==> r == 1u64,
        pool.total_lp_supply != 0 && !flow_mint_defined(*pool, a, b) ==> r == 1u64,
{
    if pool.total_lp_supply == 0 {
        match pool.calculate_lp_mint(a, b) {
            Ok(v) => v,
            Err(_) => 1,
        }
    } else {
        if pool.reserve_a >= 1 && pool.reserve_b >= 1 {
            proof {
                crate::arith::lemma_mul_le(
                    a as int,
                    pool.total_lp_supply as int,
                    u64::MAX as int,
                    u64::MAX as int,
                );
                crate::arith::lemma_mul_le(
                    b as int,
                    pool.total_lp_supply as int,
                    u64::MAX as int,
                    u64::MAX as int,
                );
            }
            let la: u128 = (a as u128 * pool.total_lp_supply as u128) / pool.reserve_a as u128;
            let lb: u128 = (b as u128 * pool.total_lp_supply as u128) / pool.reserve_b as u128;
            let liq: u128 = if la <= lb {
                la
            } else {
                lb
            };
            if liq <= u64::MAX as u128 {
                match pool.calculate_lp_mint(a, b) {
                    Ok(v) => v,
                    Err(_) => 1,
                }
            } else {
                1
            }
        } else {
            1
        }
    }
}

/// Deposit liquidity: adjust the desired amounts onto the pool ratio,
/// reserve and spend them, queue the chain transfers, mint LP tokens to
/// the wallet, and fold the deposit into the shadow reserves.
pub fn add_liquidity_flow(
    pm: &mut PoolManager,
    ledger: &mut Ledger,
    queue: &mut SettlementQueue,
    client: &KeetaClient,
    req: &AddLiquidityRequest,
) -> (r: Result<AddLiquidityResponse, PoolFlowError>)
    requires
        old(pm).wf(),
        old(ledger).wf(),
    ensures
        final(pm).wf(),
        final(ledger).wf(),
        same_withdrawals(*old(ledger), *final(ledger)),
        old(pm).pool_of(req.pool_id@) is None ==> r == Err::<AddLiquidityResponse, PoolFlowError>(
            PoolFlowError::Pool(PoolError::PoolNotFound),
        ) && *final(pm) == *old(pm) && *final(ledger) == *old(ledger) && *final(queue) == *old(
            queue,
        ),
        old(pm).pool_of(req.pool_id@) matches Some(p) ==> (p.token_a@ != p.token_b@ ==> ({
            let l0 = *old(ledger);
            let w = req.wallet_address@;
            let ta = p.token_a@;
            let tb = p.token_b@;
            let ad = parsed_or_zero(req.amount_a_desired@);
            let bd = parsed_or_zero(req.amount_b_desired@);
            let a = p.spec_optimal_amounts(ad, bd).0 as u64;
            let b = p.spec_optimal_amounts(ad, bd).1 as u64;
            if l0.bal_entry((w, ta)).0 < a {
                &&& r == Err::<AddLiquidityResponse, PoolFlowError>(
                    PoolFlowError::InsufficientBalanceA,
                )
                &&& *final(pm) == *old(pm)
                &&& *final(queue) == *old(queue)
                &&& reserved(l0, *final(ledger), w, ta, a, false)
            } else if l0.bal_entry((w, tb)).0 < b {
                &&& r == Err::<AddLiquidityResponse, PoolFlowError>(
                    PoolFlowError::InsufficientBalanceB,
                )
                &&& *final(pm) == *old(pm)
                &&& *final(queue) == *old(queue)
                &&& exists|m1: Ledger, m2: Ledger|
                    #![trigger reserved(l0, m1, w, ta, a, true), reserved(m1, m2, w, tb, b, false)]
                    reserved(l0, m1, w, ta, a, true) && reserved(m1, m2, w, tb, b, false)
                        && released(m2, *final(ledger), w, ta, a)
            } else {
                &&& r matches Ok(resp)
                &&& resp.amount_a == a
                &&& resp.amount_b == b
                &&& (flow_mint_defined(p, a, b) ==> resp.lp_tokens == (if p.lp_mint_liq(a, b)
                    == 0 {
                    1u64
                } else {
                    p.lp_mint_liq(a, b) as u64
                }))
                &&& (p.total_lp_supply == 0 && a * b >= 4 ==> crate::arith::is_isqrt(
                    a * b,
                    resp.lp_tokens + (crate::pool::MINIMUM_LIQUIDITY as int),
                ))
                &&& (p.total_lp_supply == 0 && a * b < 4 ==> resp.lp_tokens == 1u64)
                &&& resp.share_of_pool as int == (if p.total_lp_supply > 0 {
                    let s = (resp.lp_tokens * 10000) / (p.total_lp_supply as int);
                    if s <= u64::MAX as int {
                        s
                    } else {
                        u64::MAX as int
                    }
                } else {
                    10000int
                })
                &&& (p.reserve_a + a <= u64::MAX && p.reserve_b + b <= u64::MAX
                    && p.total_lp_supply + resp.lp_tokens <= u64::MAX ==> (final(pm)).pool_of(
                    req.pool_id@,
                ) == Some(
                    (LiquidityPool {
                        reserve_a: (p.reserve_a + a) as u64,
                        reserve_b: (p.reserve_b + b) as u64,
                        total_lp_supply: (p.total_lp_supply + resp.lp_tokens) as u64,
                        ..p
                    }),
                ))
                &&& !(p.reserve_a + a <= u64::MAX && p.reserve_b + b <= u64::MAX
                    && p.total_lp_supply + resp.lp_tokens <= u64::MAX) ==> *final(pm) == *old(pm)
                &&& same_pools_except(*old(pm), *final(pm), req.pool_id@)
                &&& (p.on_chain_storage_account@.len() == 0 ==> *final(queue) == *old(queue))
                &&& (p.on_chain_storage_account@.len() > 0 ==> (final(queue)).ops_seq().len()
                    == (*old(queue)).ops_seq().len() + 2 && ((final(queue)).ops_seq()[(*old(
                    queue,
                )).ops_seq().len() as int] matches SettlementOp::PoolDeposit {
                    token: t1,
                    amount: a1,
                    ..
                } && t1@ == ta && a1 == a) && ((final(queue)).ops_seq().last() matches
                    SettlementOp::PoolDeposit { token: t2, amount: a2, .. } && t2@ == tb && a2
                    == b))
                &&& exists|m1: Ledger, m2: Ledger, m3: Ledger, m4: Ledger|
                    #![trigger reserved(l0, m1, w, ta, a, true), reserved(m1, m2, w, tb, b, true), debited_total(m2, m3, w, ta, a), debited_total(m3, m4, w, tb, b)]
                    reserved(l0, m1, w, ta, a, true) && reserved(m1, m2, w, tb, b, true)
                        && debited_total(m2, m3, w, ta, a) && debited_total(m3, m4, w, tb, b)
                        && guarded_credit(m4, *final(ledger), w, p.lp_token@, resp.lp_tokens)
            }
        })),
{
    let ad = parse_amount_or_zero(req.amount_a_desired.as_str());
    let bd = parse_amount_or_zero(req.amount_b_desired.as_str());
    let pool = match pm.get_pool(req.pool_id.as_str()) {
        Some(p) => p,
        None => {
            return Err(PoolFlowError::Pool(PoolError::PoolNotFound));
        },
    };
    let w = req.wallet_address.as_str();
    if !pool.on_chain_storage_account.as_str().is_empty() {
        match client.verify_acl(w, pool.on_chain_storage_account.as_str(), "STORAGE_DEPOSIT") {
            Ok(true) => {},
            Ok(false) => {
                return Err(PoolFlowError::Pool(PoolError::InvalidToken));
            },
            Err(_) => {},
        }
    }
    let amounts = pool.calculate_optimal_amounts(ad, bd);
    let amount_a = amounts.0;
    let amount_b = amounts.1;
    let ghost l0 = *ledger;
    let ok_a = ledger.reserve(w, pool.token_a.as_str(), amount_a);
    if !ok_a {
        return Err(PoolFlowError::InsufficientBalanceA);
    }
    let ghost m1 = *ledger;
    proof {
        if pool.token_a@ != pool.token_b@ {
            assert(m1.bal_entry((req.wallet_address@, pool.token_b@)) == l0.bal_entry(
                (req.wallet_address@, pool.token_b@),
            ));
        }
    }
    let ok_b = ledger.reserve(w, pool.token_b.as_str(), amount_b);
    if !ok_b {
        let ghost m2 = *ledger;
        ledger.release(w, pool.token_a.as_str(), amount_a);
        return Err(PoolFlowError::InsufficientBalanceB);
    }
    let ghost m2 = *ledger;
    let lp_tokens = flow_mint(&pool, amount_a, amount_b);
    if !pool.on_chain_storage_account.as_str().is_empty() {
        let _ = queue.enqueue_pool_deposit(
            req.wallet_address.clone(),
            pool.on_chain_storage_account.clone(),
            pool.token_a.clone(),
            amount_a,
        );
        let _ = queue.enqueue_pool_deposit(
            req.wallet_address.clone(),
            pool.on_chain_storage_account.clone(),
            pool.token_b.clone(),
            amount_b,
        );
    }
    proof {
        let ka = (req.wallet_address@, pool.token_a@);
        l0.lemma_wf_entry(ka);
        if pool.token_a@ != pool.token_b@ {
            assert(m2.bal_entry(ka) == m1.bal_entry(ka));
        }
    }
    ledger.debit_total(w, pool.token_a.as_str(), amount_a);
    let ghost m3 = *ledger;
    proof {
        let kb = (req.wallet_address@, pool.token_b@);
        m1.lemma_wf_entry(kb);
        if pool.token_a@ != pool.token_b@ {
            assert(m3.bal_entry(kb) == m2.bal_entry(kb));
        }
    }
    ledger.debit_total(w, pool.token_b.as_str(), amount_b);
    let ghost m4 = *ledger;
    credit_guarded(ledger, w, pool.lp_token.as_str(), lp_tokens);
    let fits_pool = pool.reserve_a <= u64::MAX - amount_a && pool.reserve_b <= u64::MAX - amount_b
        && pool.total_lp_supply <= u64::MAX - lp_tokens;
    if fits_pool {
        let _ = pm.apply_liquidity_added(req.pool_id.as_str(), amount_a, amount_b, lp_tokens);
    }
    let share_of_pool: u64 = if pool.total_lp_supply > 0 {
        let s: u128 = (lp_tokens as u128 * 10000) / pool.total_lp_supply as u128;
        if s <= u64::MAX as u128 {
            s as u64
        } else {
            u64::MAX
        }
    } else {
        10000
    };
    proof {
        assert forall|id2: Seq<char>| #[trigger] ledger.wrec(id2) == old(ledger).wrec(id2) by {
            assert(ledger.wrec(id2) == m4.wrec(id2));
            assert(m4.wrec(id2) == m3.wrec(id2));
            assert(m3.wrec(id2) == m2.wrec(id2));
            assert(m2.wrec(id2) == m1.wrec(id2));
            assert(m1.wrec(id2) == old(ledger).wrec(id2));
        }
    }
    Ok(AddLiquidityResponse { amount_a, amount_b, lp_tokens, share_of_pool })
}

/// Withdraw liquidity: burn the wallet's LP tokens, queue the chain
/// transfers back, credit both tokens, and fold the removal into the
/// shadow reserves.
pub fn remove_liquidity_flow(
    pm: &mut PoolManager,
    ledger: &mut Ledger,
    queue: &mut SettlementQueue,
    req: &RemoveLiquidityRequest,
) -> (r: Result<RemoveLiquidityResponse, PoolFlowError>)
    requires
        old(pm).wf(),
        old(ledger).wf(),
    ensures
        final(pm).wf(),
        final(ledger).wf(),
        same_withdrawals(*old(ledger), *final(ledger)),
        old(pm).pool_of(req.pool_id@) is None ==> r == Err::<
            RemoveLiquidityResponse,
            PoolFlowError,
        >(PoolFlowError::Pool(PoolError::PoolNotFound)) && *final(pm) == *old(pm)
            && *final(ledger) == *old(ledger) && *final(queue) == *old(queue),
        old(pm).pool_of(req.pool_id@) matches Some(p) ==> ({
            let l0 = *old(ledger);
            let w = req.wallet_address@;
            let lp = parsed_or_zero(req.lp_tokens@);
            if p.paused {
                r == Err::<RemoveLiquidityResponse, PoolFlowError>(
                    PoolFlowError::Pool(PoolError::PoolPaused),
                ) && *final(pm) == *old(pm) && *final(ledger) == *old(ledger) && *final(queue)
                    == *old(queue)
            } else if lp == 0 {
                r == Err::<RemoveLiquidityResponse, PoolFlowError>(
                    PoolFlowError::Pool(PoolError::InsufficientLiquidityBurned),
                ) && *final(pm) == *old(pm) && *final(ledger) == *old(ledger) && *final(queue)
                    == *old(queue)
            } else if lp > p.total_lp_supply {
                r == Err::<RemoveLiquidityResponse, PoolFlowError>(
                    PoolFlowError::Pool(PoolError::InsufficientLPTokens),
                ) && *final(pm) == *old(pm) && *final(ledger) == *old(ledger) && *final(queue)
                    == *old(queue)
            } else if l0.bal_entry((w, p.lp_token@)).0 < lp {
                &&& r == Err::<RemoveLiquidityResponse, PoolFlowError>(
                    PoolFlowError::InsufficientLpBalance,
                )
                &&& *final(pm) == *old(pm)
                &&& *final(queue) == *old(queue)
                &&& reserved(l0, *final(ledger), w, p.lp_token@, lp, false)
            } else {
                let a = p.remove_amounts(lp).0 as u64;
                let b = p.remove_amounts(lp).1 as u64;
                &&& r matches Ok(resp)
                &&& resp.amount_a == a
                &&& resp.amount_b == b
                &&& resp.fees_earned_a == 0
                &&& resp.fees_earned_b == 0
                &&& (final(pm)).pool_of(req.pool_id@) == Some(
                    (LiquidityPool {
                        reserve_a: (p.reserve_a - a) as u64,
                        reserve_b: (p.reserve_b - b) as u64,
                        total_lp_supply: (p.total_lp_supply - lp) as u64,
                        ..p
                    }),
                )
                &&& same_pools_except(*old(pm), *final(pm), req.pool_id@)
                &&& (p.on_chain_storage_account@.len() == 0 ==> *final(queue) == *old(queue))
                &&& (p.on_chain_storage_account@.len() > 0 ==> (final(queue)).ops_seq().len()
                    == (*old(queue)).ops_seq().len() + 2 && ((final(queue)).ops_seq()[(*old(
                    queue,
                )).ops_seq().len() as int] matches SettlementOp::PoolWithdraw {
                    token: t1,
                    amount: a1,
                    ..
                } && t1@ == p.token_a@ && a1 == a) && ((final(queue)).ops_seq().last() matches
                    SettlementOp::PoolWithdraw { token: t2, amount: a2, .. } && t2@ == p.token_b@
                    && a2 == b))
                &&& exists|m1: Ledger, m2: Ledger, m3: Ledger|
                    #![trigger reserved(l0, m1, w, p.lp_token@, lp, true), debited_total(m1, m2, w, p.lp_token@, lp), guarded_credit(m2, m3, w, p.token_a@, a)]
                    reserved(l0, m1, w, p.lp_token@, lp, true) && debited_total(
                        m1,
                        m2,
                        w,
                        p.lp_token@,
                        lp,
                    ) && guarded_credit(m2, m3, w, p.token_a@, a) && guarded_credit(
                        m3,
                        *final(ledger),
                        w,
                        p.token_b@,
                        b,
                    )
            }
        }),
{
    let lp_tokens = parse_amount_or_zero(req.lp_tokens.as_str());
    let pool = match pm.get_pool(req.pool_id.as_str()) {
        Some(p) => p,
        None => {
            return Err(PoolFlowError::Pool(PoolError::PoolNotFound));
        },
    };
    if pool.paused {
        return Err(PoolFlowError::Pool(PoolError::PoolPaused));
    }
    let w = req.wallet_address.as_str();
    let amounts = match pool.calculate_remove_amounts(lp_tokens) {
        Ok(v) => v,
        Err(e) => {
            return Err(PoolFlowError::Pool(e));
        },
    };
    let amount_a = amounts.0;
    let amount_b = amounts.1;
    let ghost l0 = *ledger;
    let ok = ledger.reserve(w, pool.lp_token.as_str(), lp_tokens);
    if !ok {
        return Err(PoolFlowError::InsufficientLpBalance);
    }
    let ghost m1 = *ledger;
    proof {
        l0.lemma_wf_entry((req.wallet_address@, pool.lp_token@));
    }
    ledger.debit_total(w, pool.lp_token.as_str(), lp_tokens);
    let ghost m2 = *ledger;
    if !pool.on_chain_storage_account.as_str().is_empty() {
        let _ = queue.enqueue_pool_withdraw(
            pool.on_chain_storage_account.clone(),
            req.wallet_address.clone(),
            pool.token_a.clone(),
            amount_a,
        );
        let _ = queue.enqueue_pool_withdraw(
            pool.on_chain_storage_account.clone(),
            req.wallet_address.clone(),
            pool.token_b.clone(),
            amount_b,
        );
    }
    credit_guarded(ledger, w, pool.token_a.as_str(), amount_a);
    let ghost m3 = *ledger;
    credit_guarded(ledger, w, pool.token_b.as_str(), amount_b);
    let _ = pm.apply_liquidity_removed(req.pool_id.as_str(), amount_a, amount_b, lp_tokens);
    proof {
        assert forall|id2: Seq<char>| #[trigger] ledger.wrec(id2) == old(ledger).wrec(id2) by {
            assert(ledger.wrec(id2) == m3.wrec(id2));
            assert(m3.wrec(id2) == m2.wrec(id2));
            assert(m2.wrec(id2) == m1.wrec(id2));
            assert(m1.wrec(id2) == old(ledger).wrec(id2));
        }
    }
    Ok(RemoveLiquidityResponse {
        amount_a,
        amount_b,
        fees_earned_a: 0,
        fees_earned_b: 0,
    })
}

/// A pure pricing query.
pub struct QuoteRequest {
    pub pool_id: String,
    pub token_in: String,
    pub amount_in: String,
}

/// A quote: the output, the fee taken, the price impact in basis points,
/// and the floor after the standard half-percent slippage allowance.
#[derive(Debug)]
pub struct QuoteResponse {
    pub amount_out: u64,
    pub fee: u64,
    pub price_impact: u64,
    pub minimum_received: u64,
    pub route: String,
}

/// The pool prices this input within the integer model.
pub open spec fn quote_supported(p: LiquidityPool, amount_in: u64, token_in: Seq<char>) -> bool {
    &&& p.integer_priced()
    &&& p.fee_ok()
    &&& p.amp_ok()
    &&& p.swap_fits(amount_in, token_in)
}

/// Decide `swap_fits` at run time with checked 128-bit arithmetic.
fn check_swap_fits(p: &LiquidityPool, amount_in: u64, token_in: &str) -> (r: bool)
    requires
        p.fee_ok(),
        p.amp_ok(),
    ensures
        r == p.swap_fits(amount_in, token_in@),
{
    let hit_a = str_eq(token_in, p.token_a.as_str());
    let hit_b = str_eq(token_in, p.token_b.as_str());
    let (ri, ro) = if hit_a {
        (p.reserve_a, p.reserve_b)
    } else if hit_b {
        (p.reserve_b, p.reserve_a)
    } else {
        return true;
    };
    proof {
        crate::arith::lemma_mul_le(
            amount_in as int,
            (10000 - p.fee_rate) as int,
            u64::MAX as int,
            10000,
        );
        crate::arith::lemma_mul_le(ro as int, 0, u64::MAX as int, u64::MAX as int);
    }
    let raw_fee: u128 = amount_in as u128 * (10000 - p.fee_rate) as u128;
    let cp_ok = match raw_fee.checked_mul(ro as u128) {
        Some(_) => true,
        None => false,
    };
    match p.pool_type {
        PoolType::ConstantProduct => cp_ok,
        PoolType::StableSwap { amplification } => {
            if !cp_ok {
                return false;
            }
            let afd: u128 = raw_fee / 10000;
            proof {
                crate::arith::lemma_mul_le(
                    ro as int,
                    amplification as int,
                    u64::MAX as int,
                    u64::MAX as int,
                );
                crate::arith::lemma_mul_le(
                    ri as int,
                    amplification as int,
                    u64::MAX as int,
                    u64::MAX as int,
                );
            }
            let amp_out: u128 = ro as u128 * amplification as u128;
            let amp_in: u128 = ri as u128 * amplification as u128;
            let num_ok = match afd.checked_mul(amp_out) {
                Some(_) => true,
                None => false,
            };
            if !num_ok {
                return false;
            }
            let den_ok = match amp_in.checked_add(afd) {
                Some(_) => true,
                None => false,
            };
            if !den_ok {
                return false;
            }
            let balanced: bool = if ri > ro {
                (ri as u128) * 10 < (ro as u128) * 11
            } else {
                (ro as u128) * 10 < (ri as u128) * 11
            };
            if balanced {
                proof {
                    if ri == 0 || ro == 0 {
                        assert(!crate::pool::ss_balanced(ri, ro));
                    }
                    assert(amp_in >= 1) by (nonlinear_arith)
                        requires
                            amp_in == ri * amplification,
                            ri >= 1,
                            amplification >= 1,
                    ;
                }
                let out: u128 = (afd * amp_out) / (amp_in + afd);
                out <= u64::MAX as u128
            } else {
                true
            }
        },
        PoolType::Weighted { .. } => true,
    }
}

/// Decide `impact_fits` at run time, given the successful quote.
fn check_impact_fits(p: &LiquidityPool, amount_in: u64, token_in: &str, o: u64) -> (r: bool)
    requires
        amount_in >= 1,
        p.spec_swap_out(amount_in, token_in@) == Ok::<u64, PoolError>(o),
        p.swap_reserves_spec(token_in@) is Some,
    ensures
        r == p.impact_fits(amount_in, token_in@),
{
    let hit_a = str_eq(token_in, p.token_a.as_str());
    let hit_b = str_eq(token_in, p.token_b.as_str());
    let (ri, ro) = if hit_a {
        (p.reserve_a, p.reserve_b)
    } else if hit_b {
        (p.reserve_b, p.reserve_a)
    } else {
        return true;
    };
    proof {
        crate::arith::lemma_mul_le(o as int, ri as int, u64::MAX as int, u64::MAX as int);
        crate::arith::lemma_mul_le(amount_in as int, ro as int, u64::MAX as int, u64::MAX as int);
    }
    let exec_side: u128 = o as u128 * ri as u128;
    let mid_side: u128 = amount_in as u128 * ro as u128;
    let num: u128 = if exec_side >= mid_side {
        exec_side - mid_side
    } else {
        mid_side - exec_side
    };
    proof {
        // a successful quote implies liquidity on the output side
        if ro == 0 {
            assert(!crate::pool::ss_balanced(ri, ro));
        }
        assert(mid_side >= 1) by (nonlinear_arith)
            requires
                mid_side == amount_in * ro,
                amount_in >= 1,
                ro >= 1,
        ;
    }
    match num.checked_mul(10000) {
        Some(scaled) => scaled / mid_side <= u64::MAX as u128,
        None => false,
    }
}

/// Price a quote request: the swap output, the fee on the input, the
/// impact in basis points, and the half-percent slippage floor.
pub fn quote_flow(pm: &PoolManager, req: &QuoteRequest) -> (r: Result<QuoteResponse, PoolFlowError>)
    requires
        pm.wf(),
    ensures
        pm.pool_of(req.pool_id@) is None ==> r == Err::<QuoteResponse, PoolFlowError>(
            PoolFlowError::Pool(PoolError::PoolNotFound),
        ),
        pm.pool_of(req.pool_id@) matches Some(p) ==> ({
            let amount_in = parsed_or_zero(req.amount_in@);
            if !quote_supported(p, amount_in, req.token_in@) {
                r == Err::<QuoteResponse, PoolFlowError>(PoolFlowError::Unsupported)
            } else {
                match p.spec_swap_out(amount_in, req.token_in@) {
                    Err(e) => r == Err::<QuoteResponse, PoolFlowError>(PoolFlowError::Pool(e)),
                    Ok(o) => {
                        &&& r matches Ok(resp)
                        &&& resp.amount_out == o
                        &&& resp.fee as int == (amount_in * p.fee_rate) / 10000
                        &&& resp.minimum_received as int == (o * 995) / 1000
                        &&& resp.route@ == "pool"@
                        &&& (amount_in > 0 && p.impact_fits(amount_in, req.token_in@)
                            ==> (p.swap_reserves_spec(req.token_in@) matches Some((ri, ro))
                            && resp.price_impact == LiquidityPool::impact_bp_val(
                            amount_in,
                            o,
                            ri,
                            ro,
                        ) as u64))
                        &&& (!(amount_in > 0 && p.impact_fits(amount_in, req.token_in@))
                            ==> resp.price_impact == 0)
                    },
                }
            }
        }),
{
    let amount_in = parse_amount_or_zero(req.amount_in.as_str());
    let pool = match pm.get_pool(req.pool_id.as_str()) {
        Some(p) => p,
        None => {
            return Err(PoolFlowError::Pool(PoolError::PoolNotFound));
        },
    };
    let integer_priced = match pool.pool_type {
        PoolType::Weighted { .. } => false,
        _ => true,
    };
    if !integer_priced {
        return Err(PoolFlowError::Unsupported);
    }
    if pool.fee_rate > 10000 {
        return Err(PoolFlowError::Unsupported);
    }
    match pool.pool_type {
        PoolType::StableSwap { amplification } => {
            if amplification < 1 {
                return Err(PoolFlowError::Unsupported);
            }
        },
        _ => {},
    }
    if !check_swap_fits(&pool, amount_in, req.token_in.as_str()) {
        return Err(PoolFlowError::Unsupported);
    }
    let amount_out = match pool.get_amount_out(amount_in, req.token_in.as_str()) {
        Ok(o) => o,
        Err(e) => {
            return Err(PoolFlowError::Pool(e));
        },
    };
    proof {
        crate::arith::lemma_mul_le(amount_in as int, pool.fee_rate as int, u64::MAX as int, 10000);
        crate::arith::lemma_div_bound_le(
            amount_in as int * pool.fee_rate as int,
            10000,
            u64::MAX as int,
        );
        crate::arith::lemma_mul_le(amount_out as int, 995, u64::MAX as int, 995);
        crate::arith::lemma_div_bound_le(amount_out as int * 995, 1000, u64::MAX as int);
    }
    let fee: u64 = ((amount_in as u128 * pool.fee_rate as u128) / 10000) as u64;
    let minimum_received: u64 = ((amount_out as u128 * 995) / 1000) as u64;
    proof {
        assert(pool.swap_reserves_spec(req.token_in@) is Some);
    }
    let price_impact: u64 = if amount_in > 0 && check_impact_fits(
        &pool,
        amount_in,
        req.token_in.as_str(),
        amount_out,
    ) {
        let iv = match pool.calculate_price_impact(amount_in, req.token_in.as_str()) {
            Ok(v) => v,
            Err(_) => 0,
        };
        proof {
            let rr = pool.swap_reserves_spec(req.token_in@)->0;
            assert(iv == LiquidityPool::impact_bp_val(amount_in, amount_out, rr.0, rr.1) as u64);
        }
        iv
    } else {
        0
    };
    Ok(QuoteResponse {
        amount_out,
        fee,
        price_impact,
        minimum_received,
        route: "pool".to_owned(),
    })
}

/// Telemetry for a swap the user's wallet confirmed on chain.
pub struct SwapTelemetryRequest {
    pub pool_id: String,
    pub token_in: String,
    pub token_out: String,
    pub amount_in: String,
    pub amount_out: String,
    pub min_amount_out: Option<String>,
    pub wallet_address: Option<String>,
    pub storage_account: Option<String>,
    pub tx_signature: Option<String>,
    pub confirmed_at: Option<String>,
}

/// Acknowledgement of recorded telemetry.
#[derive(Debug)]
pub struct SwapTelemetryResponse {
    pub success: bool,
    pub pending_reconciliation: bool,
}

/// Record a confirmed on-chain swap: validate the amounts, refuse reports
/// under their own declared minimum, and store the telemetry. Reserves are
/// not touched; the reconciler remains the authority for them.
pub fn record_swap_telemetry_flow(pm: &mut PoolManager, req: &SwapTelemetryRequest) -> (r: Result<
    SwapTelemetryResponse,
    PoolFlowError,
>)
    requires
        old(pm).wf(),
    ensures
        final(pm).wf(),
        old(pm).pool_of(req.pool_id@) is None ==> r == Err::<
            SwapTelemetryResponse,
            PoolFlowError,
        >(PoolFlowError::Pool(PoolError::PoolNotFound)) && *final(pm) == *old(pm),
        old(pm).pool_of(req.pool_id@) is Some ==> ({
            if !(req.amount_in@.len() > 0 && all_dec_digits(req.amount_in@) && digits_value(
                req.amount_in@,
            ) <= u64::MAX as int) {
                r == Err::<SwapTelemetryResponse, PoolFlowError>(PoolFlowError::InvalidAmountIn)
                    && *final(pm) == *old(pm)
            } else if !(req.amount_out@.len() > 0 && all_dec_digits(req.amount_out@)
                && digits_value(req.amount_out@) <= u64::MAX as int) {
                r == Err::<SwapTelemetryResponse, PoolFlowError>(PoolFlowError::InvalidAmountOut)
                    && *final(pm) == *old(pm)
            } else {
                let ain = parsed_or_zero(req.amount_in@);
                let aout = parsed_or_zero(req.amount_out@);
                let below = match req.min_amount_out {
                    Some(ms) => ms@.len() > 0 && all_dec_digits(ms@) && digits_value(ms@)
                        <= u64::MAX as int && aout < parsed_or_zero(ms@),
                    None => false,
                };
                if below {
                    r == Err::<SwapTelemetryResponse, PoolFlowError>(
                        PoolFlowError::BelowDeclaredMinimum,
                    ) && *final(pm) == *old(pm)
                } else {
                    &&& r matches Ok(resp) && resp.success && resp.pending_reconciliation
                    &&& (final(pm)).pool_of(req.pool_id@) matches Some(p2)
                        && p2.pending_settlement && p2.last_swap_amount_in == Some(ain)
                        && p2.last_swap_amount_out == Some(aout) && (p2.last_swap_token_in
                        matches Some(t) && t@ == req.token_in@) && (p2.last_swap_token_out
                        matches Some(t) && t@ == req.token_out@)
                    &&& same_pools_except(*old(pm), *final(pm), req.pool_id@)
                }
            }
        }),
{
    match pm.get_pool(req.pool_id.as_str()) {
        Some(_) => {},
        None => {
            return Err(PoolFlowError::Pool(PoolError::PoolNotFound));
        },
    }
    let amount_in = match parse_u64(req.amount_in.as_str()) {
        Some(v) => v,
        None => {
            return Err(PoolFlowError::InvalidAmountIn);
        },
    };
    let amount_out = match parse_u64(req.amount_out.as_str()) {
        Some(v) => v,
        None => {
            return Err(PoolFlowError::InvalidAmountOut);
        },
    };
    match &req.min_amount_out {
        Some(ms) => {
            match parse_u64(ms.as_str()) {
                Some(m) => {
                    if amount_out < m {
                        return Err(PoolFlowError::BelowDeclaredMinimum);
                    }
                },
                None => {},
            }
        },
        None => {},
    }
    let tx_signature = crate::pool_manager::clone_opt_string(&req.tx_signature);
    let confirmed_at = crate::pool_manager::clone_opt_string(&req.confirmed_at);
    match pm.record_swap_confirmation(
        req.pool_id.as_str(),
        req.token_in.as_str(),
        req.token_out.as_str(),
        amount_in,
        amount_out,
        tx_signature,
        confirmed_at,
    ) {
        Ok(_) => {},
        Err(_) => {},
    }
    Ok(SwapTelemetryResponse { success: true, pending_reconciliation: true })
}

/// Notification that a user created a pool on chain with their own wallet.
pub struct PoolCreatedNotification {
    pub pool_id: String,
    pub storage_account: String,
    pub token_a: String,
    pub token_b: String,
    pub initial_a: String,
    pub initial_b: String,
    pub tx_hash: String,
    pub creator: String,
    pub lp_token: String,
    pub lp_tokens_minted: String,
}

/// What tracking a notification leaves of an already-registered pool: the
/// storage account and mirror are taken from the notification, the pool is
/// stamped and left unpaused, and every other field stands.
pub open spec fn tracked_pool_updated(
    q: LiquidityPool,
    q2: LiquidityPool,
    storage: String,
    a: u64,
    b: u64,
) -> bool {
    &&& q2.on_chain_storage_account == storage
    &&& q2.on_chain_reserve_a == a
    &&& q2.on_chain_reserve_b == b
    &&& q2.last_reconciled_at is Some
    &&& !q2.pending_settlement
    &&& !q2.paused
    &&& (LiquidityPool {
        on_chain_storage_account: q.on_chain_storage_account,
        on_chain_reserve_a: q.on_chain_reserve_a,
        on_chain_reserve_b: q.on_chain_reserve_b,
        last_reconciled_at: q.last_reconciled_at,
        pending_settlement: q.pending_settlement,
        paused: q.paused,
        ..q2
    }) == q
}

/// Track a pool the user created on chain: register it if unknown, then
/// store its storage account and mirror reserves, and leave it unpaused
/// and ready to quote. The backend takes no custody.
pub fn notify_pool_created_flow(pm: &mut PoolManager, req: &PoolCreatedNotification) -> (r: Result<
    String,
    PoolError,
>)
    requires
        old(pm).wf(),
    ensures
        final(pm).wf(),
        ({
            let ta = req.token_a@;
            let tb = req.token_b@;
            let a = parsed_or_zero(req.initial_a@);
            let b = parsed_or_zero(req.initial_b@);
            let fresh = old(pm).pool_of(spec_pool_id(ta, tb)) is None;
            &&& (fresh && a * b < 4 ==> r == Err::<String, PoolError>(
                PoolError::InsufficientLiquidity,
            ) && *final(pm) == *old(pm))
            &&& (fresh && a * b >= 4 ==> (r matches Ok(id) && id@ == spec_pool_id(ta, tb)
                && ((final(pm)).pool_of(spec_pool_id(ta, tb)) matches Some(p) && p.reserve_a == a
                && p.reserve_b == b && p.on_chain_storage_account == req.storage_account
                && p.on_chain_reserve_a == a && p.on_chain_reserve_b == b && !p.paused
                && p.last_reconciled_at is Some) && same_pools_except(
                *old(pm),
                *final(pm),
                spec_pool_id(ta, tb),
            )))
            &&& (!fresh ==> (r matches Ok(id) && id@ == req.pool_id@))
            &&& (!fresh ==> (old(pm).pool_of(req.pool_id@) matches Some(q)
                ==> ((final(pm)).pool_of(req.pool_id@) matches Some(q2) && tracked_pool_updated(
                q,
                q2,
                req.storage_account,
                a,
                b,
            )) && same_pools_except(*old(pm), *final(pm), req.pool_id@)))
            &&& (!fresh && old(pm).pool_of(req.pool_id@) is None ==> *final(pm) == *old(pm))
        }),
{
    let initial_a = parse_amount_or_zero(req.initial_a.as_str());
    let initial_b = parse_amount_or_zero(req.initial_b.as_str());
    let ghost pm0 = *pm;
    let pool_id: String = match pm.create_pool(
        req.token_a.clone(),
        req.token_b.clone(),
        initial_a,
        initial_b,
        30,
        PoolType::ConstantProduct,
    ) {
        Ok(id) => id,
        Err(PoolError::PoolAlreadyExists) => req.pool_id.clone(),
        Err(e) => {
            return Err(e);
        },
    };
    let ghost pm1 = *pm;
    let _ = pm.update_storage_account(pool_id.as_str(), req.storage_account.clone());
    let ghost pm2 = *pm;
    let _ = pm.update_on_chain_reserves(pool_id.as_str(), initial_a, initial_b);
    let ghost pm3 = *pm;
    let _ = pm.unpause_pool(pool_id.as_str());
    proof {
        assert forall|id2: Seq<char>|
            id2 != pool_id@ implies #[trigger] pm.pool_of(id2) == pm0.pool_of(id2) by {
            assert(pm.pool_of(id2) == pm3.pool_of(id2));
            assert(pm3.pool_of(id2) == pm2.pool_of(id2));
            assert(pm2.pool_of(id2) == pm1.pool_of(id2));
            assert(pm1.pool_of(id2) == pm0.pool_of(id2));
        }
    }
    Ok(pool_id)
}

/// The wire projection of a pool: the on-chain storage account where one
/// is known, the internally derived address otherwise.
pub struct PoolInfo {
    pub id: String,
    pub token_a: String,
    pub token_b: String,
    pub reserve_a: u64,
    pub reserve_b: u64,
    pub lp_token: String,
    pub total_lp_supply: u64,
    pub fee_rate: u64,
    pub pool_type: PoolType,
    pub storage_account: String,
    pub is_paused: bool,
    pub pending_settlement: bool,
    pub last_swap_signature: Option<String>,
    pub last_swap_confirmed_at: Option<String>,
    pub last_swap_token_in: Option<String>,
    pub last_swap_token_out: Option<String>,
    pub last_swap_amount_in: Option<u64>,
    pub last_swap_amount_out: Option<u64>,
}

/// Project a pool onto its wire form.
pub fn pool_info_of(p: &LiquidityPool) -> (r: PoolInfo)
    ensures
        r.id@ == p.id@,
        r.token_a@ == p.token_a@,
        r.token_b@ == p.token_b@,
        r.reserve_a == p.reserve_a,
        r.reserve_b == p.reserve_b,
        r.lp_token@ == p.lp_token@,
        r.total_lp_supply == p.total_lp_supply,
        r.fee_rate == p.fee_rate,
        r.pool_type == p.pool_type,
        r.storage_account@ == (if p.on_chain_storage_account@.len() > 0 {
            p.on_chain_storage_account@
        } else {
            p.storage_account@
        }),
        r.is_paused == p.paused,
        r.pending_settlement == p.pending_settlement,
        r.last_swap_signature == p.last_swap_signature,
        r.last_swap_confirmed_at == p.last_swap_at,
        r.last_swap_token_in == p.last_swap_token_in,
        r.last_swap_token_out == p.last_swap_token_out,
        r.last_swap_amount_in == p.last_swap_amount_in,
        r.last_swap_amount_out == p.last_swap_amount_out,
{
    let storage_account = if !p.on_chain_storage_account.as_str().is_empty() {
        p.on_chain_storage_account.clone()
    } else {
        p.storage_account.clone()
    };
    PoolInfo {
        id: p.id.clone(),
        token_a: p.token_a.clone(),
        token_b: p.token_b.clone(),
        reserve_a: p.reserve_a,
        reserve_b: p.reserve_b,
        lp_token: p.lp_token.clone(),
        total_lp_supply: p.total_lp_supply,
        fee_rate: p.fee_rate,
        pool_type: p.pool_type,
        storage_account,
        is_paused: p.paused,
        pending_settlement: p.pending_settlement,
        last_swap_signature: crate::pool_manager::clone_opt_string(&p.last_swap_signature),
        last_swap_confirmed_at: crate::pool_manager::clone_opt_string(&p.last_swap_at),
        last_swap_token_in: crate::pool_manager::clone_opt_string(&p.last_swap_token_in),
        last_swap_token_out: crate::pool_manager::clone_opt_string(&p.last_swap_token_out),
        last_swap_amount_in: p.last_swap_amount_in,
        last_swap_amount_out: p.last_swap_amount_out,
    }
}

} // verus!
