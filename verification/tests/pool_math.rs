use dapp_engine::{LiquidityPool, PoolError, PoolManager, PoolType};

fn demo_pool() -> (PoolManager, String) {
    let manager = PoolManager::new();
    let mut manager = manager;
    let pool_id = manager
        .create_pool(
            "USDT".to_string(),
            "USDX".to_string(),
            1_000_000,
            1_000_000,
            30,
            PoolType::ConstantProduct,
        )
        .unwrap();
    (manager, pool_id)
}

#[test]
fn test_pool_creation() {
    let (manager, pool_id) = demo_pool();
    assert_eq!(pool_id, "USDT-USDX");

    let pool = manager.get_pool(&pool_id).unwrap();
    assert_eq!(pool.reserve_a, 1_000_000);
    assert_eq!(pool.reserve_b, 1_000_000);
}

#[test]
fn test_constant_product_swap() {
    let (manager, pool_id) = demo_pool();
    let pool = manager.get_pool(&pool_id).unwrap();

    // Swap 1000 USDT -> USDX: with the 0.3% fee the output sits just
    // under the unpriced 999.
    let amount_out = pool.get_amount_out(1000, "USDT").unwrap();
    assert!(amount_out > 995 && amount_out < 998);
    assert_eq!(amount_out, 996);
}

#[test]
fn test_add_liquidity() {
    let (manager, pool_id) = demo_pool();
    let mut pool = manager.get_pool(&pool_id).unwrap();

    // Add 10% more liquidity: the mint is within rounding of a tenth of
    // the supply that stood before the deposit.
    let supply_before = pool.total_lp_supply;
    let lp_tokens = pool.add_liquidity(100_000, 100_000, 0).unwrap();

    let expected = supply_before / 10;
    assert!(lp_tokens > expected - 1000 && lp_tokens < expected + 1000);
    assert_eq!(pool.total_lp_supply, supply_before + lp_tokens);
}

#[test]
fn test_remove_liquidity() {
    let (manager, pool_id) = demo_pool();
    let mut pool = manager.get_pool(&pool_id).unwrap();

    // Remove 10% of liquidity
    let lp_to_burn = pool.total_lp_supply / 10;
    let (amount_a, amount_b) = pool.remove_liquidity(lp_to_burn, 0, 0).unwrap();

    // Should get back ~10% of reserves
    assert!(amount_a > 95_000 && amount_a < 105_000);
    assert!(amount_b > 95_000 && amount_b < 105_000);
}

#[test]
fn test_price_impact() {
    let (manager, pool_id) = demo_pool();
    let pool = manager.get_pool(&pool_id).unwrap();

    // A small swap barely moves the execution price off the mid price;
    // values are basis points of deviation, fee included.
    let impact_small = pool.calculate_price_impact(1000, "USDT").unwrap();
    assert_eq!(impact_small, 40);

    // A large swap moves it by far more than 5%.
    let impact_large = pool.calculate_price_impact(100_000, "USDT").unwrap();
    assert!(impact_large > 500);
    assert!(impact_small < impact_large);
}

#[test]
fn test_get_amount_in_inverts_quote() {
    let (manager, pool_id) = demo_pool();
    let pool = manager.get_pool(&pool_id).unwrap();

    // The input needed for the quoted output of a 1000-unit swap is the
    // same 1000 units, rounded up.
    let amount_in = pool.get_amount_in(996, "USDX").unwrap();
    assert_eq!(amount_in, 1000);
}

#[test]
fn test_stable_swap_near_balance() {
    let mut manager = PoolManager::new();
    let pool_id = manager
        .create_pool(
            "USDT".to_string(),
            "USDX".to_string(),
            1_000_000,
            1_000_000,
            30,
            PoolType::StableSwap { amplification: 100 },
        )
        .unwrap();
    let pool = manager.get_pool(&pool_id).unwrap();

    // Near balance the amplified curve pays out slightly under the
    // fee-reduced input.
    let amount_out = pool.get_amount_out(1000, "USDT").unwrap();
    assert_eq!(amount_out, 996);
}

#[test]
fn test_stable_swap_unbalanced_falls_back() {
    let mut manager = PoolManager::new();
    let pool_id = manager
        .create_pool(
            "USDT".to_string(),
            "USDX".to_string(),
            2_000_000,
            1_000_000,
            30,
            PoolType::StableSwap { amplification: 100 },
        )
        .unwrap();
    let pool = manager.get_pool(&pool_id).unwrap();

    // Reserves 2:1 are past the 10% band: constant-product pricing rules.
    let amount_out = pool.get_amount_out(1000, "USDT").unwrap();
    let cp = {
        let raw = 1000u128 * 9970 * 1_000_000;
        let den = 2_000_000u128 * 10_000 + 1000u128 * 9970;
        (raw / den) as u64
    };
    assert_eq!(amount_out, cp);
}

#[test]
fn test_quote_errors() {
    let (mut manager, pool_id) = demo_pool();
    let pool = manager.get_pool(&pool_id).unwrap();

    assert_eq!(
        pool.get_amount_out(0, "USDT"),
        Err(PoolError::InsufficientInputAmount)
    );
    assert_eq!(pool.get_amount_out(5, "DOGE"), Err(PoolError::InvalidToken));

    manager.pause_pool(&pool_id).unwrap();
    let paused = manager.get_pool(&pool_id).unwrap();
    assert_eq!(paused.get_amount_out(5, "USDT"), Err(PoolError::PoolPaused));
    assert_eq!(paused.get_amount_in(5, "USDT"), Err(PoolError::PoolPaused));
}

#[test]
fn test_create_pool_errors() {
    let (mut manager, _pool_id) = demo_pool();
    let again = manager.create_pool(
        "USDT".to_string(),
        "USDX".to_string(),
        1_000_000,
        1_000_000,
        30,
        PoolType::ConstantProduct,
    );
    assert_eq!(again, Err(PoolError::PoolAlreadyExists));

    let dust = manager.create_pool(
        "AAA".to_string(),
        "BBB".to_string(),
        1,
        1,
        30,
        PoolType::ConstantProduct,
    );
    assert_eq!(dust, Err(PoolError::InsufficientLiquidity));
}

#[test]
fn test_remove_liquidity_errors() {
    let (manager, pool_id) = demo_pool();
    let mut pool = manager.get_pool(&pool_id).unwrap();

    assert_eq!(
        pool.remove_liquidity(0, 0, 0),
        Err(PoolError::InsufficientLiquidityBurned)
    );
    let over = pool.total_lp_supply + 1;
    assert_eq!(
        pool.remove_liquidity(over, 0, 0),
        Err(PoolError::InsufficientLPTokens)
    );
    let lp = pool.total_lp_supply / 10;
    assert_eq!(
        pool.remove_liquidity(lp, u64::MAX, u64::MAX),
        Err(PoolError::SlippageExceeded)
    );
}

#[test]
fn test_execute_swap_updates_reserves() {
    let (manager, pool_id) = demo_pool();
    let mut pool = manager.get_pool(&pool_id).unwrap();

    assert_eq!(
        pool.execute_swap(1000, "USDT", 10_000),
        Err(PoolError::SlippageExceeded)
    );
    assert_eq!(pool.reserve_a, 1_000_000);

    let out = pool.execute_swap(1000, "USDT", 0).unwrap();
    assert_eq!(out, 996);
    assert_eq!(pool.reserve_a, 1_001_000);
    assert_eq!(pool.reserve_b, 1_000_000 - 996);
}

#[test]
fn test_lp_round_trip_is_monotone() {
    // Mint for a deposit, then value that mint as a removal on the same
    // pool: the payout never exceeds the deposit on either side.
    let (manager, pool_id) = demo_pool();
    let pool = manager.get_pool(&pool_id).unwrap();

    let minted = pool.calculate_lp_mint(100_000, 100_000).unwrap();
    let expected = pool.total_lp_supply / 10;
    assert!(minted > expected - 1000 && minted < expected + 1000);

    let (a_back, b_back) = pool.calculate_remove_amounts(minted).unwrap();
    assert!(a_back <= 100_000);
    assert!(b_back <= 100_000);
    assert!(a_back > 95_000 && b_back > 95_000);
}

fn fresh_pool() -> LiquidityPool {
    LiquidityPool {
        id: "AAA-BBB".to_string(),
        token_a: "AAA".to_string(),
        token_b: "BBB".to_string(),
        reserve_a: 0,
        reserve_b: 0,
        total_lp_supply: 0,
        storage_account: "S_pool_AAA_BBB".to_string(),
        lp_token: "LP-AAA-BBB".to_string(),
        fee_rate: 30,
        pool_type: PoolType::ConstantProduct,
        paused: false,
        protocol_fees_a: 0,
        protocol_fees_b: 0,
        on_chain_storage_account: String::new(),
        on_chain_reserve_a: 0,
        on_chain_reserve_b: 0,
        last_reconciled_at: None,
        pending_settlement: false,
        last_swap_signature: None,
        last_swap_at: None,
        last_swap_token_in: None,
        last_swap_token_out: None,
        last_swap_amount_in: None,
        last_swap_amount_out: None,
    }
}

#[test]
fn test_bootstrap_mint_burns_one_unit() {
    // On a fresh pool the mint is the floor square root of the product
    // less the single burned minimum unit.
    let pool = fresh_pool();
    assert_eq!(pool.calculate_lp_mint(2000, 2000), Ok(1999));
    assert_eq!(pool.calculate_lp_mint(1_000_000, 1_000_000), Ok(999_999));
    assert_eq!(
        pool.calculate_lp_mint(1, 1),
        Err(PoolError::InsufficientLiquidity)
    );
    assert_eq!(
        pool.calculate_lp_mint(0, 5),
        Err(PoolError::InsufficientLiquidity)
    );
}

#[test]
fn test_bootstrap_add_liquidity() {
    let mut pool = fresh_pool();
    let lp = pool.add_liquidity(2000, 2000, 0).unwrap();
    assert_eq!(lp, 1999);
    assert_eq!(pool.total_lp_supply, 1999);
    assert_eq!(pool.reserve_a, 2000);
    assert_eq!(pool.reserve_b, 2000);
}

#[test]
fn test_optimal_amounts_follow_ratio() {
    let mut manager = PoolManager::new();
    let pool_id = manager
        .create_pool(
            "USDT".to_string(),
            "USDX".to_string(),
            2_000_000,
            1_000_000,
            30,
            PoolType::ConstantProduct,
        )
        .unwrap();
    let pool = manager.get_pool(&pool_id).unwrap();

    // Desired 100k/100k onto a 2:1 pool: the second leg is halved.
    assert_eq!(pool.calculate_optimal_amounts(100_000, 100_000), (100_000, 50_000));
    // Desired 100k/20k: the first leg is scaled down instead.
    assert_eq!(pool.calculate_optimal_amounts(100_000, 20_000), (40_000, 20_000));
}
