//! Registry of liquidity pools, keyed by pool id. Reserve values here are
//! shadow state: swaps never mutate them optimistically, and the reconciler
//! is the authority that refreshes the on-chain mirror.

use vstd::prelude::*;

use crate::arith::is_isqrt;
use crate::arith::isqrt_u128;
use crate::arith::lemma_mul_le;
use crate::kv;
use crate::kv::Keyed;
use crate::pool::{LiquidityPool, PoolError, PoolType, MINIMUM_LIQUIDITY};
use crate::strutil::str_eq;
use crate::sys::now_rfc3339;
use vstd::string::StringExecFns;

verus! {

impl Keyed for LiquidityPool {
    open spec fn key(&self) -> (Seq<char>, Seq<char>) {
        (self.id@, Seq::<char>::empty())
    }
}

/// Copy an optional string, preserving its value.
pub(crate) fn clone_opt_string(o: &Option<String>) -> (r: Option<String>)
    ensures
        r == *o,
{
    match o {
        Some(s) => Some(s.clone()),
        None => None,
    }
}

impl Clone for LiquidityPool {
    fn clone(&self) -> (res: Self)
        ensures
            res == *self,
    {
        LiquidityPool {
            id: self.id.clone(),
            token_a: self.token_a.clone(),
            token_b: self.token_b.clone(),
            reserve_a: self.reserve_a,
            reserve_b: self.reserve_b,
            total_lp_supply: self.total_lp_supply,
            storage_account: self.storage_account.clone(),
            lp_token: self.lp_token.clone(),
            fee_rate: self.fee_rate,
            pool_type: self.pool_type,
            paused: self.paused,
            protocol_fees_a: self.protocol_fees_a,
            protocol_fees_b: self.protocol_fees_b,
            on_chain_storage_account: self.on_chain_storage_account.clone(),
            on_chain_reserve_a: self.on_chain_reserve_a,
            on_chain_reserve_b: self.on_chain_reserve_b,
            last_reconciled_at: clone_opt_string(&self.last_reconciled_at),
            pending_settlement: self.pending_settlement,
            last_swap_signature: clone_opt_string(&self.last_swap_signature),
            last_swap_at: clone_opt_string(&self.last_swap_at),
            last_swap_token_in: clone_opt_string(&self.last_swap_token_in),
            last_swap_token_out: clone_opt_string(&self.last_swap_token_out),
            last_swap_amount_in: self.last_swap_amount_in,
            last_swap_amount_out: self.last_swap_amount_out,
        }
    }
}

/// The id under which a pair is registered. Order matters: the reversed
/// pair is a different pool by design.
pub open spec fn spec_pool_id(ta: Seq<char>, tb: Seq<char>) -> Seq<char> {
    ta + "-"@ + tb
}

/// What a freshly created pool holds.
pub open spec fn created_pool_ok(
    p: LiquidityPool,
    ta: Seq<char>,
    tb: Seq<char>,
    initial_a: u64,
    initial_b: u64,
    fee_rate: u64,
    pool_type: PoolType,
) -> bool {
    &&& p.id@ == spec_pool_id(ta, tb)
    &&& p.token_a@ == ta
    &&& p.token_b@ == tb
    &&& p.reserve_a == initial_a
    &&& p.reserve_b == initial_b
    &&& is_isqrt(initial_a * initial_b, p.total_lp_supply + 1)
    &&& p.storage_account@ == "S_pool_"@ + ta + "_"@ + tb
    &&& p.lp_token@ == "LP-"@ + ta + "-"@ + tb
    &&& p.fee_rate == fee_rate
    &&& p.pool_type == pool_type
    &&& !p.paused
    &&& p.protocol_fees_a == 0
    &&& p.protocol_fees_b == 0
    &&& p.on_chain_storage_account@ == Seq::<char>::empty()
    &&& p.on_chain_reserve_a == 0
    &&& p.on_chain_reserve_b == 0
    &&& p.last_reconciled_at is None
    &&& !p.pending_settlement
    &&& p.last_swap_signature is None
    &&& p.last_swap_at is None
    &&& p.last_swap_token_in is None
    &&& p.last_swap_token_out is None
    &&& p.last_swap_amount_in is None
    &&& p.last_swap_amount_out is None
}

pub struct PoolManager {
    pools: Vec<LiquidityPool>,
}

/// All pools other than `id` are the same in `pre` and `post`.
pub open spec fn same_pools_except(pre: PoolManager, post: PoolManager, id: Seq<char>) -> bool {
    forall|id2: Seq<char>| id2 != id ==> #[trigger] post.pool_of(id2) == pre.pool_of(id2)
}

impl PoolManager {
    /// The pool registered under an id, if any.
    pub closed spec fn pool_of(self, id: Seq<char>) -> Option<LiquidityPool> {
        kv::lookup(self.pools@, (id, Seq::<char>::empty()))
    }

    /// The registered pools, in registration order.
    pub closed spec fn pool_seq(self) -> Seq<LiquidityPool> {
        self.pools@
    }

    pub closed spec fn wf(self) -> bool {
        kv::unique_keys(self.pools@)
    }

    pub fn new() -> (r: PoolManager)
        ensures
            r.wf(),
            forall|id: Seq<char>| #[trigger] r.pool_of(id) is None,
            r.pool_seq() == Seq::<LiquidityPool>::empty(),
    {
        PoolManager { pools: Vec::new() }
    }

    /// Whatever `pool_of` finds sits in the registration order.
    pub proof fn lemma_pool_of_in_seq(self, id: Seq<char>)
        requires
            self.wf(),
            self.pool_of(id) is Some,
        ensures
            exists|j: int|
                0 <= j < self.pool_seq().len() && self.pool_of(id) == Some(
                    #[trigger] self.pool_seq()[j],
                ) && self.pool_seq()[j].id@ == id,
    {
        kv::lemma_lookup_is_elem(self.pools@, (id, Seq::<char>::empty()));
        let i = choose|i: int|
            0 <= i < self.pools@.len() && kv::lookup(
                self.pools@,
                (id, Seq::<char>::empty()),
            ) == Some(self.pools@[i]) && (#[trigger] self.pools@[i].key()) == (
                id,
                Seq::<char>::empty(),
            );
        assert(self.pool_of(id) == Some(self.pool_seq()[i]));
        assert(self.pool_seq()[i].id@ == id);
    }

    /// Each registered pool is what `pool_of` finds under its id.
    pub proof fn lemma_seq_pool_of(self, j: int)
        requires
            self.wf(),
            0 <= j < self.pool_seq().len(),
        ensures
            self.pool_of(self.pool_seq()[j].id@) == Some(self.pool_seq()[j]),
    {
        kv::lemma_lookup_present(self.pools@, j);
    }

    /// Registered pool ids are pairwise distinct.
    pub proof fn lemma_pool_ids_unique(self)
        requires
            self.wf(),
        ensures
            forall|a: int, b: int|
                0 <= a < b < self.pool_seq().len() ==> (#[trigger] self.pool_seq()[a]).id@ != (
                #[trigger] self.pool_seq()[b]).id@,
    {
        assert forall|a: int, b: int|
            0 <= a < b < self.pool_seq().len() implies (#[trigger] self.pool_seq()[a]).id@ != (
        #[trigger] self.pool_seq()[b]).id@ by {
            assert(self.pools@[a].key() != self.pools@[b].key());
        }
    }

    /// Index of the pool with this id, if present.
    fn find_pool(&self, pool_id: &str) -> (r: Option<usize>)
        requires
            self.wf(),
        ensures
            match r {
                Some(i) => i < self.pools@.len() && self.pool_of(pool_id@) == Some(
                    self.pools@[i as int],
                ) && self.pools@[i as int].id@ == pool_id@,
                None => self.pool_of(pool_id@) is None,
            },
    {
        let n = self.pools.len();
        let mut j: usize = 0;
        while j < n
            invariant
                0 <= j <= n,
                self.wf(),
                n == self.pools@.len(),
                forall|a: int|
                    0 <= a < j ==> (#[trigger] self.pools@[a].key()) != (
                        pool_id@,
                        Seq::<char>::empty(),
                    ),
            decreases n - j,
        {
            if str_eq(self.pools[j].id.as_str(), pool_id) {
                proof {
                    kv::lemma_lookup_present(self.pools@, j as int);
                }
                return Some(j);
            }
            j = j + 1;
        }
        proof {
            kv::lemma_lookup_absent(self.pools@, (pool_id@, Seq::<char>::empty()));
        }
        None
    }

    /// Replace the pool at a known index; the new value must keep its id.
    fn set_pool_at(&mut self, i: usize, p: LiquidityPool)
        requires
            old(self).wf(),
            i < old(self).pools@.len(),
            p.id@ == old(self).pools@[i as int].id@,
        ensures
            final(self).wf(),
            final(self).pool_of(p.id@) == Some(p),
            same_pools_except(*old(self), *final(self), p.id@),
    {
        proof {
            kv::lemma_lookup_update(self.pools@, i as int, p);
        }
        self.pools[i] = p;
    }

    /// Bootstrap liquidity: the floor square root of the deposit product,
    /// less one unit burned against inflation.
    fn calculate_initial_liquidity(&self, amount_a: u64, amount_b: u64) -> (r: Result<
        u64,
        PoolError,
    >)
        ensures
            amount_a * amount_b < 4 ==> r == Err::<u64, PoolError>(
                PoolError::InsufficientLiquidity,
            ),
            amount_a * amount_b >= 4 ==> (r matches Ok(v) && is_isqrt(
                amount_a * amount_b,
                v + 1,
            )),
    {
        proof {
            lemma_mul_le(amount_a as int, amount_b as int, u64::MAX as int, u64::MAX as int);
        }
        let liquidity = isqrt_u128(amount_a as u128 * amount_b as u128);
        proof {
            let p = amount_a as int * amount_b as int;
            let li = liquidity as int;
            if p < 4 {
                if li >= 2 {
                    assert(li * li >= 4) by (nonlinear_arith)
                        requires
                            li >= 2,
                    ;
                }
            } else {
                if li <= 1 {
                    assert((li + 1) * (li + 1) <= 4) by (nonlinear_arith)
                        requires
                            0 <= li <= 1,
                    ;
                }
                if li > u64::MAX as int {
                    assert(li * li > u64::MAX as int * u64::MAX as int) by (nonlinear_arith)
                        requires
                            li > u64::MAX as int,
                    ;
                    lemma_mul_le(
                        amount_a as int,
                        amount_b as int,
                        u64::MAX as int,
                        u64::MAX as int,
                    );
                }
            }
        }
        if liquidity <= MINIMUM_LIQUIDITY as u128 {
            return Err(PoolError::InsufficientLiquidity);
        }
        Ok(liquidity as u64 - MINIMUM_LIQUIDITY)
    }

    /// Register a new pool for a pair. Succeeds exactly when the id is free
    /// and the deposit product supports the minimum bootstrap liquidity.
    pub fn create_pool(
        &mut self,
        token_a: String,
        token_b: String,
        initial_a: u64,
        initial_b: u64,
        fee_rate: u64,
        pool_type: PoolType,
    ) -> (r: Result<String, PoolError>)
        requires
            old(self).wf(),
        ensures
            final(self).wf(),
            old(self).pool_of(spec_pool_id(token_a@, token_b@)) is Some ==> r == Err::<
                String,
                PoolError,
            >(PoolError::PoolAlreadyExists) && *final(self) == *old(self),
            old(self).pool_of(spec_pool_id(token_a@, token_b@)) is None && initial_a * initial_b
                < 4 ==> r == Err::<String, PoolError>(PoolError::InsufficientLiquidity)
                && *final(self) == *old(self),
            old(self).pool_of(spec_pool_id(token_a@, token_b@)) is None && initial_a * initial_b
                >= 4 ==> ({
                &&& r matches Ok(rid) && rid@ == spec_pool_id(token_a@, token_b@)
                &&& final(self).pool_of(spec_pool_id(token_a@, token_b@)) matches Some(p)
                    && created_pool_ok(
                    p,
                    token_a@,
                    token_b@,
                    initial_a,
                    initial_b,
                    fee_rate,
                    pool_type,
                )
                &&& same_pools_except(
                    *old(self),
                    *final(self),
                    spec_pool_id(token_a@, token_b@),
                )
            }),
    {
        let pool_id = token_a.clone().concat("-").concat(token_b.as_str());
        match self.find_pool(pool_id.as_str()) {
            Some(_) => {
                return Err(PoolError::PoolAlreadyExists);
            },
            None => {},
        }
        let liquidity = match self.calculate_initial_liquidity(initial_a, initial_b) {
            Ok(v) => v,
            Err(e) => {
                return Err(e);
            },
        };
        let storage_account = "S_pool_".to_owned().concat(token_a.as_str()).concat("_").concat(
            token_b.as_str(),
        );
        let lp_token = "LP-".to_owned().concat(token_a.as_str()).concat("-").concat(
            token_b.as_str(),
        );
        let pool = LiquidityPool {
            id: pool_id.clone(),
            token_a,
            token_b,
            reserve_a: initial_a,
            reserve_b: initial_b,
            total_lp_supply: liquidity,
            storage_account,
            lp_token,
            fee_rate,
            pool_type,
            paused: false,
            protocol_fees_a: 0,
            protocol_fees_b: 0,
            on_chain_storage_account: String::new(),
            on_chain_reserve_a: 0,
            on_chain_reserve_b: 0,
            last_reconciled_at: None,
            pending_settlement: false,
            last_swap_signature: None,
            last_swap_at: None,
            last_swap_token_in: None,
            last_swap_token_out: None,
            last_swap_amount_in: None,
            last_swap_amount_out: None,
        };
        proof {
            kv::lemma_lookup_none_keys(self.pools@, (pool_id@, Seq::<char>::empty()));
            kv::lemma_lookup_push(self.pools@, pool);
        }
        self.pools.push(pool);
        Ok(pool_id)
    }

    /// Look a pool up by id, handing back a copy.
    pub fn get_pool(&self, pool_id: &str) -> (r: Option<LiquidityPool>)
        requires
            self.wf(),
        ensures
            r == self.pool_of(pool_id@),
    {
        match self.find_pool(pool_id) {
            Some(i) => Some(self.pools[i].clone()),
            None => None,
        }
    }

    /// Copies of all registered pools, in registration order.
    pub fn list_pools(&self) -> (r: Vec<LiquidityPool>)
        ensures
            r@ == self.pool_seq(),
    {
        let n = self.pools.len();
        let mut r: Vec<LiquidityPool> = Vec::new();
        let mut j: usize = 0;
        while j < n
            invariant
                0 <= j <= n,
                n == self.pools@.len(),
                r@ =~= self.pools@.subrange(0, j as int),
            decreases n - j,
        {
            r.push(self.pools[j].clone());
            j = j + 1;
        }
        proof {
            assert(self.pools@.subrange(0, n as int) =~= self.pools@);
        }
        r
    }

    /// Set the on-chain storage account address for a pool, clearing its
    /// pending-settlement mark.
    pub fn update_storage_account(&mut self, pool_id: &str, storage_account: String) -> (r: Result<
        (),
        PoolError,
    >)
        requires
            old(self).wf(),
        ensures
            final(self).wf(),
            old(self).pool_of(pool_id@) is None ==> r == Err::<(), PoolError>(
                PoolError::PoolNotFound,
            ) && *final(self) == *old(self),
            old(self).pool_of(pool_id@) matches Some(p) ==> r == Ok::<(), PoolError>(()) && (final(self)).pool_of(pool_id@) == Some(
                (LiquidityPool {
                    on_chain_storage_account: storage_account,
                    pending_settlement: false,
                    ..p
                }),
            ) && same_pools_except(*old(self), *final(self), pool_id@),
    {
        match self.find_pool(pool_id) {
            Some(i) => {
                let mut p = self.pools[i].clone();
                p.on_chain_storage_account = storage_account;
                p.pending_settlement = false;
                self.set_pool_at(i, p);
                Ok(())
            },
            None => Err(PoolError::PoolNotFound),
        }
    }

    /// Pause a pool: no pricing or liquidity operation may run on it.
    pub fn pause_pool(&mut self, pool_id: &str) -> (r: Result<(), PoolError>)
        requires
            old(self).wf(),
        ensures
            final(self).wf(),
            old(self).pool_of(pool_id@) is None ==> r == Err::<(), PoolError>(
                PoolError::PoolNotFound,
            ) && *final(self) == *old(self),
            old(self).pool_of(pool_id@) matches Some(p) ==> r == Ok::<(), PoolError>(()) && (final(self)).pool_of(pool_id@) == Some((LiquidityPool { paused: true, ..p }))
                && same_pools_except(*old(self), *final(self), pool_id@),
    {
        match self.find_pool(pool_id) {
            Some(i) => {
                let mut p = self.pools[i].clone();
                p.paused = true;
                self.set_pool_at(i, p);
                Ok(())
            },
            None => Err(PoolError::PoolNotFound),
        }
    }

    /// Unpause a pool: the administrative path back to service.
    pub fn unpause_pool(&mut self, pool_id: &str) -> (r: Result<(), PoolError>)
        requires
            old(self).wf(),
        ensures
            final(self).wf(),
            old(self).pool_of(pool_id@) is None ==> r == Err::<(), PoolError>(
                PoolError::PoolNotFound,
            ) && *final(self) == *old(self),
            old(self).pool_of(pool_id@) matches Some(p) ==> r == Ok::<(), PoolError>(()) && (final(self)).pool_of(pool_id@) == Some((LiquidityPool { paused: false, ..p }))
                && same_pools_except(*old(self), *final(self), pool_id@),
    {
        match self.find_pool(pool_id) {
            Some(i) => {
                let mut p = self.pools[i].clone();
                p.paused = false;
                self.set_pool_at(i, p);
                Ok(())
            },
            None => Err(PoolError::PoolNotFound),
        }
    }

    /// Record the mirrored on-chain reserves, stamping the time.
    pub fn update_on_chain_reserves(&mut self, pool_id: &str, reserve_a: u64, reserve_b: u64) -> (r:
        Result<(), PoolError>)
        requires
            old(self).wf(),
        ensures
            final(self).wf(),
            old(self).pool_of(pool_id@) is None ==> r == Err::<(), PoolError>(
                PoolError::PoolNotFound,
            ) && *final(self) == *old(self),
            old(self).pool_of(pool_id@) matches Some(p) ==> r == Ok::<(), PoolError>(()) && ((final(self)).pool_of(pool_id@) matches Some(p2) && p2.on_chain_reserve_a == reserve_a
                && p2.on_chain_reserve_b == reserve_b && p2.last_reconciled_at is Some && (
            LiquidityPool {
                on_chain_reserve_a: p.on_chain_reserve_a,
                on_chain_reserve_b: p.on_chain_reserve_b,
                last_reconciled_at: p.last_reconciled_at,
                ..p2
            }) == p) && same_pools_except(*old(self), *final(self), pool_id@),
    {
        match self.find_pool(pool_id) {
            Some(i) => {
                let mut p = self.pools[i].clone();
                p.on_chain_reserve_a = reserve_a;
                p.on_chain_reserve_b = reserve_b;
                p.last_reconciled_at = Some(now_rfc3339());
                self.set_pool_at(i, p);
                Ok(())
            },
            None => Err(PoolError::PoolNotFound),
        }
    }

    /// Persist a reconciliation pass: mirror reserves, its timestamp, and
    /// the cleared pending-settlement mark.
    pub fn update_reconciliation(
        &mut self,
        pool_id: &str,
        on_chain_reserve_a: u64,
        on_chain_reserve_b: u64,
        timestamp: String,
    ) -> (r: Result<(), PoolError>)
        requires
            old(self).wf(),
        ensures
            final(self).wf(),
            old(self).pool_of(pool_id@) is None ==> r == Err::<(), PoolError>(
                PoolError::PoolNotFound,
            ) && *final(self) == *old(self),
            old(self).pool_of(pool_id@) matches Some(p) ==> r == Ok::<(), PoolError>(()) && (final(self)).pool_of(pool_id@) == Some(
                (LiquidityPool {
                    on_chain_reserve_a: on_chain_reserve_a,
                    on_chain_reserve_b: on_chain_reserve_b,
                    last_reconciled_at: Some(timestamp),
                    pending_settlement: false,
                    ..p
                }),
            ) && same_pools_except(*old(self), *final(self), pool_id@),
    {
        match self.find_pool(pool_id) {
            Some(i) => {
                let mut p = self.pools[i].clone();
                p.on_chain_reserve_a = on_chain_reserve_a;
                p.on_chain_reserve_b = on_chain_reserve_b;
                p.last_reconciled_at = Some(timestamp);
                p.pending_settlement = false;
                self.set_pool_at(i, p);
                Ok(())
            },
            None => Err(PoolError::PoolNotFound),
        }
    }

    /// Fold a confirmed liquidity deposit into the shadow reserves and the
    /// LP supply.
    pub fn apply_liquidity_added(
        &mut self,
        pool_id: &str,
        amount_a: u64,
        amount_b: u64,
        lp_tokens: u64,
    ) -> (r: Result<(), PoolError>)
        requires
            old(self).wf(),
            old(self).pool_of(pool_id@) matches Some(p) ==> p.reserve_a + amount_a <= u64::MAX
                && p.reserve_b + amount_b <= u64::MAX && p.total_lp_supply + lp_tokens
                <= u64::MAX,
        ensures
            final(self).wf(),
            old(self).pool_of(pool_id@) is None ==> r == Err::<(), PoolError>(
                PoolError::PoolNotFound,
            ) && *final(self) == *old(self),
            old(self).pool_of(pool_id@) matches Some(p) ==> r == Ok::<(), PoolError>(())
                && (final(self)).pool_of(pool_id@) == Some(
                (LiquidityPool {
                    reserve_a: (p.reserve_a + amount_a) as u64,
                    reserve_b: (p.reserve_b + amount_b) as u64,
                    total_lp_supply: (p.total_lp_supply + lp_tokens) as u64,
                    ..p
                }),
            ) && same_pools_except(*old(self), *final(self), pool_id@),
    {
        match self.find_pool(pool_id) {
            Some(i) => {
                let mut p = self.pools[i].clone();
                p.reserve_a = p.reserve_a + amount_a;
                p.reserve_b = p.reserve_b + amount_b;
                p.total_lp_supply = p.total_lp_supply + lp_tokens;
                self.set_pool_at(i, p);
                Ok(())
            },
            None => Err(PoolError::PoolNotFound),
        }
    }

    /// Fold a confirmed liquidity removal into the shadow reserves and the
    /// LP supply.
    pub fn apply_liquidity_removed(
        &mut self,
        pool_id: &str,
        amount_a: u64,
        amount_b: u64,
        lp_tokens: u64,
    ) -> (r: Result<(), PoolError>)
        requires
            old(self).wf(),
            old(self).pool_of(pool_id@) matches Some(p) ==> amount_a <= p.reserve_a && amount_b
                <= p.reserve_b && lp_tokens <= p.total_lp_supply,
        ensures
            final(self).wf(),
            old(self).pool_of(pool_id@) is None ==> r == Err::<(), PoolError>(
                PoolError::PoolNotFound,
            ) && *final(self) == *old(self),
            old(self).pool_of(pool_id@) matches Some(p) ==> r == Ok::<(), PoolError>(())
                && (final(self)).pool_of(pool_id@) == Some(
                (LiquidityPool {
                    reserve_a: (p.reserve_a - amount_a) as u64,
                    reserve_b: (p.reserve_b - amount_b) as u64,
                    total_lp_supply: (p.total_lp_supply - lp_tokens) as u64,
                    ..p
                }),
            ) && same_pools_except(*old(self), *final(self), pool_id@),
    {
        match self.find_pool(pool_id) {
            Some(i) => {
                let mut p = self.pools[i].clone();
                p.reserve_a = p.reserve_a - amount_a;
                p.reserve_b = p.reserve_b - amount_b;
                p.total_lp_supply = p.total_lp_supply - lp_tokens;
                self.set_pool_at(i, p);
                Ok(())
            },
            None => Err(PoolError::PoolNotFound),
        }
    }

    /// Record a confirmed swap's telemetry without touching the reserves:
    /// the reconciler is the sole authority for reserve values afterwards.
    pub fn record_swap_confirmation(
        &mut self,
        pool_id: &str,
        token_in: &str,
        token_out: &str,
        amount_in: u64,
        amount_out: u64,
        tx_signature: Option<String>,
        confirmed_at: Option<String>,
    ) -> (r: Result<(), PoolError>)
        requires
            old(self).wf(),
        ensures
            final(self).wf(),
            old(self).pool_of(pool_id@) is None ==> r == Err::<(), PoolError>(
                PoolError::PoolNotFound,
            ) && *final(self) == *old(self),
            old(self).pool_of(pool_id@) matches Some(p) ==> r == Ok::<(), PoolError>(()) && ((final(self)).pool_of(pool_id@) matches Some(p2) && p2.pending_settlement
                && p2.last_swap_signature == tx_signature && (confirmed_at matches Some(t)
                ==> p2.last_swap_at == Some(t)) && (confirmed_at is None ==> p2.last_swap_at
                is Some) && (p2.last_swap_token_in matches Some(s) && s@ == token_in@) && (
            p2.last_swap_token_out matches Some(s) && s@ == token_out@) && p2.last_swap_amount_in
                == Some(amount_in) && p2.last_swap_amount_out == Some(amount_out) && (
            LiquidityPool {
                pending_settlement: p.pending_settlement,
                last_swap_signature: p.last_swap_signature,
                last_swap_at: p.last_swap_at,
                last_swap_token_in: p.last_swap_token_in,
                last_swap_token_out: p.last_swap_token_out,
                last_swap_amount_in: p.last_swap_amount_in,
                last_swap_amount_out: p.last_swap_amount_out,
                ..p2
            }) == p) && same_pools_except(*old(self), *final(self), pool_id@),
    {
        match self.find_pool(pool_id) {
            Some(i) => {
                let mut p = self.pools[i].clone();
                p.pending_settlement = true;
                p.last_swap_signature = tx_signature;
                p.last_swap_at = match confirmed_at {
                    Some(t) => Some(t),
                    None => Some(now_rfc3339()),
                };
                p.last_swap_token_in = Some(token_in.to_owned());
                p.last_swap_token_out = Some(token_out.to_owned());
                p.last_swap_amount_in = Some(amount_in);
                p.last_swap_amount_out = Some(amount_out);
                self.set_pool_at(i, p);
                Ok(())
            },
            None => Err(PoolError::PoolNotFound),
        }
    }
}

} // verus!
