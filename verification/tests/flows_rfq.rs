use dapp_engine::{
    add_liquidity_flow, classify_channel, create_pool_flow, create_session, decode_hex,
    init_rfq_data, new_auth_challenge, notify_pool_created_flow, parse_market, parse_u64,
    parse_units, quote_flow, record_swap_telemetry_flow, remove_liquidity_flow,
    AddLiquidityRequest, ChannelKind, CreatePoolRequest, DeclarationStatus, DeclarationStore,
    KeetaClient, KeetaRFQManager, Ledger, PoolCreatedNotification, PoolFlowError, PoolManager,
    PoolType, QuoteRequest, RFQApprovalRequest, RFQDeclarationRequest, RemoveLiquidityRequest,
    SettlementQueue, SwapTelemetryRequest, MICRO,
};

#[test]
fn parse_units_handles_decimals_and_rejects_junk() {
    assert_eq!(parse_units("0"), Some(0));
    assert_eq!(parse_units("1"), Some(MICRO));
    assert_eq!(parse_units("1.5"), Some(1_500_000));
    assert_eq!(parse_units("0.000001"), Some(1));
    assert_eq!(parse_units("123."), Some(123 * MICRO));
    assert_eq!(parse_units("1.0000001"), None);
    assert_eq!(parse_units(""), None);
    assert_eq!(parse_units("-1"), None);
    assert_eq!(parse_units("1e3"), None);
    assert_eq!(parse_units("99999999999999999999999999"), None);
}

#[test]
fn parse_u64_takes_plain_digits_only() {
    assert_eq!(parse_u64("0"), Some(0));
    assert_eq!(parse_u64("1000000"), Some(1_000_000));
    assert_eq!(parse_u64("18446744073709551615"), Some(u64::MAX));
    assert_eq!(parse_u64("18446744073709551616"), None);
    assert_eq!(parse_u64("12a"), None);
    assert_eq!(parse_u64(""), None);
}

#[test]
fn parse_market_splits_on_the_single_slash() {
    assert_eq!(
        parse_market("ETH/USDT"),
        Some(("ETH".to_string(), "USDT".to_string()))
    );
    assert_eq!(parse_market("ETHUSDT"), None);
    assert_eq!(parse_market("/USDT"), None);
    assert_eq!(parse_market("ETH/"), None);
    assert_eq!(parse_market("a/b/c"), None);
}

#[test]
fn parse_market_trims_both_halves() {
    assert_eq!(
        parse_market(" ETH / USDT "),
        Some(("ETH".to_string(), "USDT".to_string()))
    );
    assert_eq!(
        parse_market("\tA /B"),
        Some(("A".to_string(), "B".to_string()))
    );
    assert_eq!(parse_market(" / "), None);
    assert_eq!(parse_market("  /USDT"), None);
}

#[test]
fn decode_hex_yields_the_denoted_bytes() {
    assert_eq!(decode_hex("0aff").unwrap(), vec![0x0a, 0xff]);
    assert_eq!(decode_hex("DEADbeef").unwrap(), vec![0xde, 0xad, 0xbe, 0xef]);
    assert_eq!(decode_hex("").unwrap(), Vec::<u8>::new());
    assert!(decode_hex("abc").is_err());
    assert!(decode_hex("zz").is_err());
}

#[test]
fn sessions_and_challenges_are_minted() {
    let session = create_session("alice".to_string());
    assert_eq!(session.user_id, "alice");
    assert_eq!(session.jwt, "demo-token-for-alice");
    let challenge = new_auth_challenge();
    assert_eq!(challenge.nonce.len(), 36);
}

#[test]
fn channels_classify_by_prefix() {
    match classify_channel("orderbook:ETH/USDT") {
        ChannelKind::Orderbook(m) => assert_eq!(m, "ETH/USDT"),
        _ => panic!("orderbook channel expected"),
    }
    match classify_channel("trades:BTC/USD") {
        ChannelKind::Trades(m) => assert_eq!(m, "BTC/USD"),
        _ => panic!("trades channel expected"),
    }
    assert!(matches!(classify_channel("candles:BTC"), ChannelKind::Unknown));
}

#[test]
fn chain_client_is_a_permissive_stub() {
    let client = KeetaClient::new_from_env();
    assert!(dapp_engine::healthcheck(&client));
    assert_eq!(client.verify_pool_reserves("S_pool", "USDT"), Ok(0));
    assert_eq!(client.verify_acl("alice", "S_pool", "STORAGE_DEPOSIT"), Ok(true));
    assert_eq!(client.query_balance("alice", "USDT"), Ok(0));
    let addr = client.derive_storage_account("alice", "USDT");
    assert_eq!(addr.storage_account, "vault:alice:USDT");
    let req = dapp_engine::WithdrawRequest {
        user_id: "alice".to_string(),
        token: "USDT".to_string(),
        amount: "5".to_string(),
        to: "dest".to_string(),
    };
    assert_eq!(client.send_on_behalf(&req).unwrap().len(), 36);
}

#[test]
fn create_pool_flow_boosts_fresh_wallets_and_mints_lp() {
    let mut pm = PoolManager::new();
    let mut ledger = Ledger::new();
    let req = CreatePoolRequest {
        wallet_address: "wallet-1".to_string(),
        token_a: "USDT".to_string(),
        token_b: "USDX".to_string(),
        initial_amount_a: "1000000".to_string(),
        initial_amount_b: "1000000".to_string(),
        fee_rate: None,
        pool_type: None,
    };
    let resp = create_pool_flow(&mut pm, &mut ledger, &req).unwrap();
    assert_eq!(resp.pool_id, "USDT-USDX");
    assert_eq!(resp.lp_token, "LP-USDT-USDX");
    assert_eq!(resp.lp_tokens_minted, 999_999);
    assert_eq!(
        resp.storage_account,
        "keeta:storage:pool:USDT-USDX:USDT:USDX"
    );

    // the demo top-up funded the wallet, and the deposit left it
    assert_eq!(
        ledger.internal_balance("wallet-1", "USDT"),
        (9_000_000, 9_000_000)
    );
    assert_eq!(
        ledger.internal_balance("wallet-1", "USDX"),
        (9_000_000, 9_000_000)
    );
    assert_eq!(
        ledger.internal_balance("wallet-1", "LP-USDT-USDX"),
        (999_999, 999_999)
    );
    let pool = pm.get_pool("USDT-USDX").unwrap();
    assert_eq!(pool.fee_rate, 30);
    assert!(!pool.paused);
}

#[test]
fn liquidity_flows_move_funds_and_update_reserves() {
    let mut pm = PoolManager::new();
    let mut ledger = Ledger::new();
    let mut queue = SettlementQueue::new();
    let client = KeetaClient::new();
    pm.create_pool(
        "USDT".to_string(),
        "USDX".to_string(),
        1_000_000,
        1_000_000,
        30,
        PoolType::ConstantProduct,
    )
    .unwrap();
    ledger.credit("lp-user", "USDT", 200_000);
    ledger.credit("lp-user", "USDX", 200_000);

    let add = AddLiquidityRequest {
        wallet_address: "lp-user".to_string(),
        pool_id: "USDT-USDX".to_string(),
        amount_a_desired: "100000".to_string(),
        amount_b_desired: "100000".to_string(),
        amount_a_min: None,
        amount_b_min: None,
    };
    let resp = add_liquidity_flow(&mut pm, &mut ledger, &mut queue, &client, &add).unwrap();
    assert_eq!(resp.amount_a, 100_000);
    assert_eq!(resp.amount_b, 100_000);
    assert_eq!(resp.lp_tokens, 99_999);
    assert_eq!(
        ledger.internal_balance("lp-user", "USDT"),
        (100_000, 100_000)
    );
    assert_eq!(
        ledger.internal_balance("lp-user", "LP-USDT-USDX"),
        (99_999, 99_999)
    );
    let pool = pm.get_pool("USDT-USDX").unwrap();
    assert_eq!(pool.reserve_a, 1_100_000);
    assert_eq!(pool.total_lp_supply, 999_999 + 99_999);

    let remove = RemoveLiquidityRequest {
        wallet_address: "lp-user".to_string(),
        pool_id: "USDT-USDX".to_string(),
        lp_tokens: "99999".to_string(),
        amount_a_min: None,
        amount_b_min: None,
    };
    let out = remove_liquidity_flow(&mut pm, &mut ledger, &mut queue, &remove).unwrap();
    assert!(out.amount_a > 95_000 && out.amount_a < 105_000);
    assert!(out.amount_b > 95_000 && out.amount_b < 105_000);
    assert_eq!(out.fees_earned_a, 0);
    assert_eq!(
        ledger.internal_balance("lp-user", "LP-USDT-USDX"),
        (0, 0)
    );
    let pool = pm.get_pool("USDT-USDX").unwrap();
    assert_eq!(pool.total_lp_supply, 999_999);
}

#[test]
fn quote_flow_prices_and_reports_impact() {
    let mut pm = PoolManager::new();
    pm.create_pool(
        "USDT".to_string(),
        "USDX".to_string(),
        1_000_000,
        1_000_000,
        30,
        PoolType::ConstantProduct,
    )
    .unwrap();
    let req = QuoteRequest {
        pool_id: "USDT-USDX".to_string(),
        token_in: "USDT".to_string(),
        amount_in: "1000".to_string(),
    };
    let quote = quote_flow(&pm, &req).unwrap();
    assert_eq!(quote.amount_out, 996);
    assert_eq!(quote.fee, 3);
    assert_eq!(quote.price_impact, 40);
    assert_eq!(quote.minimum_received, 991);
    assert_eq!(quote.route, "pool");

    let missing = QuoteRequest {
        pool_id: "NO-POOL".to_string(),
        token_in: "USDT".to_string(),
        amount_in: "1000".to_string(),
    };
    assert_eq!(
        quote_flow(&pm, &missing).unwrap_err(),
        PoolFlowError::Pool(dapp_engine::PoolError::PoolNotFound)
    );
}

#[test]
fn weighted_pools_are_not_priced_by_the_integer_model() {
    let mut pm = PoolManager::new();
    pm.create_pool(
        "AAA".to_string(),
        "BBB".to_string(),
        1_000_000,
        1_000_000,
        30,
        PoolType::Weighted { weight_a: 80, weight_b: 20 },
    )
    .unwrap();
    let req = QuoteRequest {
        pool_id: "AAA-BBB".to_string(),
        token_in: "AAA".to_string(),
        amount_in: "1000".to_string(),
    };
    assert_eq!(quote_flow(&pm, &req).unwrap_err(), PoolFlowError::Unsupported);
}

#[test]
fn telemetry_validates_and_marks_settlement_pending() {
    let mut pm = PoolManager::new();
    pm.create_pool(
        "USDT".to_string(),
        "USDX".to_string(),
        1_000_000,
        1_000_000,
        30,
        PoolType::ConstantProduct,
    )
    .unwrap();
    let mut req = SwapTelemetryRequest {
        pool_id: "USDT-USDX".to_string(),
        token_in: "USDT".to_string(),
        token_out: "USDX".to_string(),
        amount_in: "1000".to_string(),
        amount_out: "996".to_string(),
        min_amount_out: Some("1500".to_string()),
        wallet_address: None,
        storage_account: None,
        tx_signature: Some("sig-1".to_string()),
        confirmed_at: Some("stamp".to_string()),
    };
    assert_eq!(
        record_swap_telemetry_flow(&mut pm, &req).unwrap_err(),
        PoolFlowError::BelowDeclaredMinimum
    );

    req.min_amount_out = Some("990".to_string());
    let resp = record_swap_telemetry_flow(&mut pm, &req).unwrap();
    assert!(resp.success && resp.pending_reconciliation);
    let pool = pm.get_pool("USDT-USDX").unwrap();
    assert!(pool.pending_settlement);
    assert_eq!(pool.last_swap_amount_in, Some(1000));
    assert_eq!(pool.last_swap_amount_out, Some(996));
    assert_eq!(pool.last_swap_signature.as_deref(), Some("sig-1"));
    // the reserves were not touched: the reconciler is the authority
    assert_eq!(pool.reserve_a, 1_000_000);
    assert_eq!(pool.reserve_b, 1_000_000);

    req.amount_in = "ten".to_string();
    assert_eq!(
        record_swap_telemetry_flow(&mut pm, &req).unwrap_err(),
        PoolFlowError::InvalidAmountIn
    );
}

#[test]
fn pool_notifications_track_user_created_pools() {
    let mut pm = PoolManager::new();
    let note = PoolCreatedNotification {
        pool_id: "USDT-USDX".to_string(),
        storage_account: "keeta:real:storage".to_string(),
        token_a: "USDT".to_string(),
        token_b: "USDX".to_string(),
        initial_a: "1000".to_string(),
        initial_b: "1000".to_string(),
        tx_hash: "tx-abc".to_string(),
        creator: "wallet-9".to_string(),
        lp_token: "LP-USDT-USDX".to_string(),
        lp_tokens_minted: "999".to_string(),
    };
    let id = notify_pool_created_flow(&mut pm, &note).unwrap();
    assert_eq!(id, "USDT-USDX");
    let pool = pm.get_pool(&id).unwrap();
    assert_eq!(pool.on_chain_storage_account, "keeta:real:storage");
    assert_eq!(pool.on_chain_reserve_a, 1000);
    assert_eq!(pool.on_chain_reserve_b, 1000);
    assert!(!pool.paused);

    // mirrored reserves keep the reconciler from pausing it
    let rec = Reconciler::new();
    let result = rec
        .apply_pool_reconciliation(&mut pm, &id, 1000, 1000, "stamp".to_string())
        .unwrap();
    assert_eq!(result.status, "ok");
}

use dapp_engine::Reconciler;

#[test]
fn rfq_seed_and_lifecycle() {
    let seed = init_rfq_data();
    assert_eq!(seed.makers.len(), 2);
    assert_eq!(seed.orders.len(), 3);
    assert_eq!(seed.orders[0].pair, "BTC/USD");

    let mut manager = KeetaRFQManager::new();
    let mirrored = manager.create_rfq_order(&seed.orders[0]);
    assert_eq!(mirrored.order_id, "order-1");
    assert_eq!(mirrored.keeta_token_id, "keeta_token_order-1");
    assert!(manager.has_order("order-1"));

    manager.fill_rfq_order("order-1", 50_000).unwrap();
    assert!(manager.cancel_rfq_order("order-9").is_err());

    // a 0.1-unit fill of the 65000-unit-priced buy costs 6500 units,
    // past the simulated taker balance of 1000
    assert!(manager
        .validate_taker_balance("buy", seed.orders[0].price, 100_000)
        .is_err());
    assert!(manager.validate_taker_balance("sell", seed.orders[0].price, 100_000).is_ok());
}

#[test]
fn rfq_declarations_approve_and_decode() {
    let mut store = DeclarationStore::new();
    let req = RFQDeclarationRequest {
        taker_address: "taker-1".to_string(),
        fill_amount: 50_000,
        unsigned_atomic_swap_block: Some("0aff".to_string()),
    };
    let decl = store.declare_intention("order-1", &req);
    assert_eq!(decl.status, DeclarationStatus::Pending);
    assert_eq!(decl.order_id, "order-1");

    let wrong_order = store.approve_declaration(
        "order-2",
        &RFQApprovalRequest { declaration_id: decl.id.clone(), approved: true },
    );
    assert!(wrong_order.is_err());

    let (status, action) = store
        .approve_declaration(
            "order-1",
            &RFQApprovalRequest { declaration_id: decl.id.clone(), approved: true },
        )
        .unwrap();
    assert_eq!(status, DeclarationStatus::Approved);
    assert_eq!(action.unwrap(), vec![0x0a, 0xff]);
}
