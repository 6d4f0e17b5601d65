//! Coordination core of a non-custodial exchange: a shadow ledger with
//! reservation semantics, a serialized limit-order engine, an AMM pool
//! registry with integer pricing, a typed settlement pipeline with a
//! withdrawal state machine, and a reconciler that absorbs dust and pauses
//! pools on drift.

use vstd::prelude::*;

mod amounts;
mod arith;
mod engine;
mod flows;
mod keeta;
mod kv;
mod ledger;
mod models;
mod pool;
mod pool_flows;
mod pool_manager;
mod reconcile;
mod rfq;
mod settlement;
mod strutil;
mod sys;

pub use amounts::{parse_u64, parse_units, MICRO};
pub use arith::{is_isqrt, isqrt_u128};
pub use engine::{
    collateral_backed, collateral_exact, lemma_backed_covers_order, lemma_lockstep_preserves_exact, parse_market, spec_parse_market,
    spec_reservation, EngineError, LimitOrder, OpenOrder, OrderBook, PlacedOrder, Side,
};
pub use flows::{
    classify_channel, create_session, new_auth_challenge, withdraw_flow, ChannelKind,
    WithdrawFlowError,
};
pub use keeta::{healthcheck, KeetaClient, KeetaError};
pub use ledger::{
    adjusted, completed_withdrawal, credited, debited_total, failed_withdrawal,
    fresh_withdrawal_record, lemma_credit_then_reserve, lemma_reserve_then_release, released,
    reserve_succeeds, reserved, same_balances, same_mirror, same_withdrawals, BalanceEntry,
    Ledger,
};
pub use models::{
    AuthChallenge, AuthSession, Balance, DepositAddress, WithdrawEnqueued, WithdrawRequest,
    WithdrawalRecord, WithdrawalStatus,
};
pub use pool::{
    cp_out_val, lemma_mint_then_remove_bounded, spec_cp_out, spec_stable_out, ss_balanced,
    LiquidityPool, PoolError, PoolType, MINIMUM_LIQUIDITY,
};
pub use pool_flows::{
    add_liquidity_flow, create_pool_flow, notify_pool_created_flow, pool_info_of, quote_flow,
    record_swap_telemetry_flow, remove_liquidity_flow, AddLiquidityRequest, AddLiquidityResponse,
    tracked_pool_updated, CreatePoolRequest, CreatePoolResponse, PoolCreatedNotification,
    PoolFlowError, PoolInfo, QuoteRequest, QuoteResponse, RemoveLiquidityRequest,
    RemoveLiquidityResponse, SwapTelemetryRequest, SwapTelemetryResponse, DEMO_CREDIT,
};
pub use pool_manager::{created_pool_ok, spec_pool_id, PoolManager};
pub use reconcile::{
    account_reconciled, classify, reconciled_against_empty_chain, AccountReport, AccountStatus,
    PoolReconcileResult, Reconciler, AUTO_CORRECT_THRESHOLD,
};
pub use rfq::{
    decode_hex, init_rfq_data, DeclarationStatus, DeclarationStore, KeetaRFQManager,
    KeetaRFQMetadata, KeetaRFQOrder, RFQApprovalRequest, RFQDeclaration, RFQDeclarationRequest,
    RFQDeclarationResponse, RFQFillRequest, RFQFillResponse, RFQMakerMeta, RFQOrder, RfqSeedData,
};
pub use settlement::{settle_withdrawal, SettlementOp, SettlementQueue};

verus! {

} // verus!
