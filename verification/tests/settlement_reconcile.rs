use dapp_engine::{
    settle_withdrawal, withdraw_flow, KeetaClient, Ledger, PoolManager, PoolType, Reconciler,
    SettlementOp, SettlementQueue, WithdrawFlowError, WithdrawRequest, WithdrawalStatus, MICRO,
};

fn request(user: &str, token: &str, amount: &str) -> WithdrawRequest {
    WithdrawRequest {
        user_id: user.to_string(),
        token: token.to_string(),
        amount: amount.to_string(),
        to: "pubkey-58".to_string(),
    }
}

#[test]
fn withdrawal_failure_reverts_balances() {
    // A user holding (100, 100) withdraws 60. Mid-pipeline the key shows
    // (40, 40) with a Pending record; when the chain refuses, the record
    // turns Failed with the error and both parts are restored.
    let mut ledger = Ledger::new();
    let mut queue = SettlementQueue::new();
    ledger.credit("frank", "USDT", 100 * MICRO);

    let enq = withdraw_flow(&mut ledger, &mut queue, request("frank", "USDT", "60")).unwrap();
    assert_eq!(enq.status, "pending");
    assert_eq!(
        ledger.internal_balance("frank", "USDT"),
        (40 * MICRO, 40 * MICRO)
    );
    {
        let rec = ledger.get_withdrawal(&enq.request_id).unwrap();
        assert_eq!(rec.status, WithdrawalStatus::Pending);
        assert_eq!(rec.amount, "60");
        assert!(rec.updated_at.is_some());
    }

    let ok = settle_withdrawal(
        &mut ledger,
        &enq.request_id,
        "frank",
        "USDT",
        60 * MICRO,
        Err("chain unavailable".to_string()),
    );
    assert!(!ok);
    assert_eq!(
        ledger.internal_balance("frank", "USDT"),
        (100 * MICRO, 100 * MICRO)
    );
    let rec = ledger.get_withdrawal(&enq.request_id).unwrap();
    assert_eq!(rec.status, WithdrawalStatus::Failed);
    assert_eq!(rec.last_error.as_deref(), Some("chain unavailable"));
    assert!(rec.tx_id.is_none());
}

#[test]
fn withdrawal_completion_lowers_the_mirror() {
    // Completing a withdrawal marks the record, stores the transaction id,
    // and takes exactly the amount off the on-chain mirror.
    let mut ledger = Ledger::new();
    let mut queue = SettlementQueue::new();
    ledger.credit("grace", "USDT", 100 * MICRO);
    assert_eq!(ledger.on_chain_balance("grace", "USDT"), 100 * MICRO);

    let enq = withdraw_flow(&mut ledger, &mut queue, request("grace", "USDT", "60")).unwrap();
    let ok = settle_withdrawal(
        &mut ledger,
        &enq.request_id,
        "grace",
        "USDT",
        60 * MICRO,
        Ok("tx-123".to_string()),
    );
    assert!(ok);
    let rec = ledger.get_withdrawal(&enq.request_id).unwrap();
    assert_eq!(rec.status, WithdrawalStatus::Completed);
    assert_eq!(rec.tx_id.as_deref(), Some("tx-123"));
    assert!(rec.last_error.is_none());
    assert_eq!(ledger.on_chain_balance("grace", "USDT"), 40 * MICRO);
}

#[test]
fn invalid_and_uncovered_withdrawals_are_refused() {
    let mut ledger = Ledger::new();
    let mut queue = SettlementQueue::new();
    ledger.credit("henry", "USDT", 10 * MICRO);

    let bad = withdraw_flow(&mut ledger, &mut queue, request("henry", "USDT", "zero"));
    assert_eq!(bad.unwrap_err(), WithdrawFlowError::InvalidAmount);
    let zero = withdraw_flow(&mut ledger, &mut queue, request("henry", "USDT", "0"));
    assert_eq!(zero.unwrap_err(), WithdrawFlowError::InvalidAmount);
    let poor = withdraw_flow(&mut ledger, &mut queue, request("henry", "USDT", "11"));
    assert_eq!(poor.unwrap_err(), WithdrawFlowError::InsufficientBalance);
    assert_eq!(
        ledger.internal_balance("henry", "USDT"),
        (10 * MICRO, 10 * MICRO)
    );
}

#[test]
fn settlement_queue_is_first_in_first_out() {
    let mut queue = SettlementQueue::new();
    let first = queue.enqueue_pool_deposit(
        "alice".to_string(),
        "S_pool".to_string(),
        "USDT".to_string(),
        7,
    );
    let second = queue.enqueue_pool_withdraw(
        "S_pool".to_string(),
        "alice".to_string(),
        "USDX".to_string(),
        9,
    );
    assert_eq!(first.len(), 36);

    match queue.pop_next().unwrap() {
        SettlementOp::PoolDeposit { id, token, amount, .. } => {
            assert_eq!(id, first);
            assert_eq!(token, "USDT");
            assert_eq!(amount, 7);
        },
        _ => panic!("first queued op should come out first"),
    }
    match queue.pop_next().unwrap() {
        SettlementOp::PoolWithdraw { id, token, amount, .. } => {
            assert_eq!(id, second);
            assert_eq!(token, "USDX");
            assert_eq!(amount, 9);
        },
        _ => panic!("second queued op should come out second"),
    }
    assert!(queue.pop_next().is_none());
}

#[test]
fn reconciler_classifies_and_absorbs_dust() {
    let mut ledger = Ledger::new();
    let mut rec = Reconciler::new();

    // healthy: mirror equals total
    ledger.credit("ivy", "USDT", 1000 * MICRO);
    // dust: total is 50 micro-units under the mirror, within the threshold
    ledger.credit("ivy", "USDX", 1000 * MICRO);
    assert!(ledger.reserve("ivy", "USDX", 50));
    ledger.debit_total("ivy", "USDX", 50);
    // drift: total is a whole 500 micro-units under the mirror
    ledger.credit("ivy", "GOLD", 1000 * MICRO);
    assert!(ledger.reserve("ivy", "GOLD", 500));
    ledger.debit_total("ivy", "GOLD", 500);

    rec.run_once(&mut ledger);

    let rows = rec.snapshot_balances(&ledger, "ivy");
    assert_eq!(rows.len(), 3);
    for row in &rows {
        match row.token.as_str() {
            "USDT" => {
                assert_eq!(row.status, "healthy");
                assert_eq!(row.drift, 0);
            },
            "USDX" => {
                // absorbed: the shadow total is back at the mirror
                assert_eq!(row.status, "auto_corrected");
                assert_eq!(row.drift, 0);
                assert_eq!(
                    ledger.internal_balance("ivy", "USDX"),
                    (1000 * MICRO, 1000 * MICRO)
                );
            },
            "GOLD" => {
                // left alone: the divergence is recorded, balances stand
                assert_eq!(row.status, "drift_detected");
                assert_eq!(row.drift, 500);
                assert_eq!(
                    ledger.internal_balance("ivy", "GOLD"),
                    (1000 * MICRO - 500, 1000 * MICRO - 500)
                );
            },
            other => panic!("unexpected token {}", other),
        }
    }
}

#[test]
fn pool_pause_on_drift() {
    // Pool reserves 1000/1000 against chain readings 1000/900: the tick
    // pauses the pool, stamps it, and the next quote is refused.
    let mut pm = PoolManager::new();
    let pool_id = pm
        .create_pool(
            "USDT".to_string(),
            "USDX".to_string(),
            1000,
            1000,
            30,
            PoolType::ConstantProduct,
        )
        .unwrap();
    let rec = Reconciler::new();

    let result = pm_reconcile(&rec, &mut pm, &pool_id, 1000, 900);
    assert_eq!(result.status, "drift");
    assert_eq!(result.drift_a, 0);
    assert_eq!(result.drift_b, -100);

    let pool = pm.get_pool(&pool_id).unwrap();
    assert!(pool.paused);
    assert!(pool.last_reconciled_at.is_some());
    assert_eq!(pool.on_chain_reserve_a, 1000);
    assert_eq!(pool.on_chain_reserve_b, 900);
    assert_eq!(
        pool.get_amount_out(10, "USDT"),
        Err(dapp_engine::PoolError::PoolPaused)
    );
}

#[test]
fn pool_reconciliation_without_drift_stays_unpaused() {
    let mut pm = PoolManager::new();
    let pool_id = pm
        .create_pool(
            "USDT".to_string(),
            "USDX".to_string(),
            1000,
            1000,
            30,
            PoolType::ConstantProduct,
        )
        .unwrap();
    let rec = Reconciler::new();

    let result = pm_reconcile(&rec, &mut pm, &pool_id, 1000, 1000);
    assert_eq!(result.status, "ok");
    let pool = pm.get_pool(&pool_id).unwrap();
    assert!(!pool.paused);
}

#[test]
fn reconcile_pool_against_demo_chain_pauses_funded_pools() {
    // The demo chain client reports empty storage accounts, so a funded
    // shadow pool shows drift on its first live reconciliation.
    let mut pm = PoolManager::new();
    let pool_id = pm
        .create_pool(
            "USDT".to_string(),
            "USDX".to_string(),
            1000,
            1000,
            30,
            PoolType::ConstantProduct,
        )
        .unwrap();
    let rec = Reconciler::new();
    let client = KeetaClient::new();

    let result = rec.reconcile_pool(&mut pm, &client, &pool_id).unwrap();
    assert_eq!(result.status, "drift");
    assert!(pm.get_pool(&pool_id).unwrap().paused);
}

#[test]
fn reconcile_all_pools_visits_every_pool() {
    // Two funded pools against the demo chain's empty readings: the pass
    // zeroes and stamps each mirror and pauses both for drift.
    let mut pm = PoolManager::new();
    let id1 = pm
        .create_pool(
            "USDT".to_string(),
            "USDX".to_string(),
            1000,
            1000,
            30,
            PoolType::ConstantProduct,
        )
        .unwrap();
    let id2 = pm
        .create_pool(
            "AAA".to_string(),
            "BBB".to_string(),
            5000,
            5000,
            30,
            PoolType::ConstantProduct,
        )
        .unwrap();
    let rec = Reconciler::new();
    let client = KeetaClient::new();
    rec.reconcile_all_pools(&mut pm, &client);

    for id in [id1, id2] {
        let pool = pm.get_pool(&id).unwrap();
        assert!(pool.paused);
        assert!(pool.last_reconciled_at.is_some());
        assert!(!pool.pending_settlement);
        assert_eq!(pool.on_chain_reserve_a, 0);
        assert_eq!(pool.on_chain_reserve_b, 0);
    }
}

fn pm_reconcile(
    rec: &Reconciler,
    pm: &mut PoolManager,
    pool_id: &str,
    on_chain_a: u64,
    on_chain_b: u64,
) -> dapp_engine::PoolReconcileResult {
    rec.apply_pool_reconciliation(pm, pool_id, on_chain_a, on_chain_b, "stamp".to_string())
        .unwrap()
}
