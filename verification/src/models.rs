//! Plain data carried across the request surface.
//!
//! Amount-bearing fields are integers in micro-units (see `amounts`);
//! rendering them as decimal text is the boundary's concern.

use vstd::prelude::*;

verus! {

/// Challenge nonce handed out before a session is opened.
#[derive(Debug)]
pub struct AuthChallenge {
    pub nonce: String,
}

/// An opened session: the user and their bearer token.
#[derive(Debug)]
pub struct AuthSession {
    pub user_id: String,
    pub jwt: String,
}

/// One row of a user's balance listing, enriched with reconciliation state.
#[derive(Debug)]
pub struct Balance {
    pub token: String,
    pub available: u64,
    pub total: u64,
    pub on_chain: u64,
    pub drift: i128,
    pub status: String,
    pub last_reconciled_at: Option<String>,
}

/// A withdrawal request as it arrives: the amount is still decimal text.
#[derive(Debug)]
pub struct WithdrawRequest {
    pub user_id: String,
    pub token: String,
    pub amount: String,
    pub to: String,
}

/// Receipt for an enqueued withdrawal.
#[derive(Debug)]
pub struct WithdrawEnqueued {
    pub request_id: String,
    pub status: String,
}

/// Derived deposit address for a user and token.
#[derive(Debug)]
pub struct DepositAddress {
    pub storage_account: String,
}

/// State machine of a withdrawal record: it starts `Pending` and moves once,
/// to `Completed` or to `Failed`.
#[derive(Clone, Copy, PartialEq, Eq, Structural, Debug)]
pub enum WithdrawalStatus {
    Pending,
    Completed,
    Failed,
}

/// Stored record of one withdrawal, keyed by its request id.
#[derive(Debug)]
pub struct WithdrawalRecord {
    pub id: String,
    pub user_id: String,
    pub token: String,
    pub amount: String,
    pub to: String,
    pub status: WithdrawalStatus,
    pub tx_id: Option<String>,
    pub last_error: Option<String>,
    pub updated_at: Option<String>,
}

} // verus!
