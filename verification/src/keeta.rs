//! Read-only chain client. The backend holds no key and cannot move funds;
//! in this build every query is the permissive demo stub, and each method's
//! contract says exactly that.

use vstd::prelude::*;

use crate::models::{DepositAddress, WithdrawRequest};
use crate::strutil::str_eq;
use crate::sys::mint_id;
use vstd::string::StringExecFns;

verus! {

/// Failure of a chain operation, carrying its description.
#[derive(Debug)]
pub enum KeetaError {
    Operation(String),
}

impl KeetaError {
    /// The error rendered for a caller.
    pub fn message(&self) -> (r: String)
        ensures
            self matches KeetaError::Operation(m) ==> r@ == "keeta operation failed: "@ + m@,
    {
        match self {
            KeetaError::Operation(m) => "keeta operation failed: ".to_owned().concat(m.as_str()),
        }
    }
}

/// Handle to the chain. The wallet does all signing; no endpoint or key is
/// held here.
pub struct KeetaClient {}

impl KeetaClient {
    pub fn new_from_env() -> (r: KeetaClient) {
        KeetaClient {}
    }

    pub fn new() -> (r: KeetaClient) {
        KeetaClient {}
    }

    /// Legacy custodial submission path: in this non-custodial build it only
    /// mints a stand-in transaction id and always reports success.
    pub fn send_on_behalf(&self, request: &WithdrawRequest) -> (r: Result<String, KeetaError>)
        ensures
            r matches Ok(tx) && tx@.len() == 36,
    {
        let _ = request;
        Ok(mint_id())
    }

    /// Deterministic derivation of a user's storage-account address.
    pub fn derive_storage_account(&self, user_id: &str, token: &str) -> (r: DepositAddress)
        ensures
            r.storage_account@ == "vault:"@ + user_id@ + ":"@ + token@,
    {
        let storage_account = "vault:".to_owned().concat(user_id).concat(":").concat(token);
        DepositAddress { storage_account }
    }

    /// On-chain balance of a token in a pool storage account. The demo stub
    /// reports an empty chain.
    pub fn verify_pool_reserves(&self, storage_account: &str, token: &str) -> (r: Result<
        u64,
        String,
    >)
        ensures
            r matches Ok(v) && v == 0u64,
    {
        let _ = storage_account;
        let _ = token;
        Ok(0)
    }

    /// ACL check for an actor on a storage account. The demo stub permits
    /// everything.
    pub fn verify_acl(&self, user_id: &str, storage_account: &str, permission: &str) -> (r: Result<
        bool,
        String,
    >)
        ensures
            r matches Ok(v) && v,
    {
        let _ = user_id;
        let _ = storage_account;
        let _ = permission;
        Ok(true)
    }

    /// On-chain balance of a wallet. The demo stub reports an empty chain.
    pub fn query_balance(&self, wallet_address: &str, token: &str) -> (r: Result<u64, String>)
        ensures
            r matches Ok(v) && v == 0u64,
    {
        let _ = wallet_address;
        let _ = token;
        Ok(0)
    }
}

/// Liveness of the chain client: with direct wallet-side signing there is
/// no transport to probe, so the check always passes.
pub fn healthcheck(client: &KeetaClient) -> (r: bool)
    ensures
        r,
{
    let _ = client;
    true
}

} // verus!
