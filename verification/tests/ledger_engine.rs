use dapp_engine::{EngineError, Ledger, LimitOrder, OrderBook, Side, MICRO};

fn buy_order(market: &str, price: &str, qty: &str) -> LimitOrder {
    LimitOrder {
        market: market.to_string(),
        side: Side::Buy,
        price: price.to_string(),
        quantity: qty.to_string(),
    }
}

#[test]
fn credit_then_reserve_drains_available() {
    // Credit a fresh key and reserve the full amount: it succeeds and
    // leaves nothing available with the whole amount still owned.
    let mut ledger = Ledger::new();
    ledger.credit("alice", "USDT", 500);
    assert!(ledger.reserve("alice", "USDT", 500));
    assert_eq!(ledger.internal_balance("alice", "USDT"), (0, 500));
}

#[test]
fn reserve_then_release_restores_balance() {
    let mut ledger = Ledger::new();
    ledger.credit("alice", "USDT", 900);
    assert!(ledger.reserve("alice", "USDT", 300));
    assert_eq!(ledger.internal_balance("alice", "USDT"), (600, 900));
    ledger.release("alice", "USDT", 300);
    assert_eq!(ledger.internal_balance("alice", "USDT"), (900, 900));
}

#[test]
fn release_never_exceeds_total() {
    let mut ledger = Ledger::new();
    ledger.credit("alice", "USDT", 100);
    ledger.release("alice", "USDT", 50);
    assert_eq!(ledger.internal_balance("alice", "USDT"), (100, 100));
}

#[test]
fn reserve_without_funds_is_refused() {
    let mut ledger = Ledger::new();
    assert!(!ledger.reserve("ghost", "USDT", 1));
    assert_eq!(ledger.internal_balance("ghost", "USDT"), (0, 0));
}

#[test]
fn credit_tracks_on_chain_mirror() {
    let mut ledger = Ledger::new();
    ledger.credit("alice", "USDT", 250);
    assert_eq!(ledger.on_chain_balance("alice", "USDT"), 250);
    ledger.credit("alice", "USDT", 250);
    assert_eq!(ledger.on_chain_balance("alice", "USDT"), 500);
}

#[test]
fn reserve_then_cancel_restores_collateral() {
    // Credit alice, place a buy for 200 quote units, cancel it, and the
    // balance pair is back where it started.
    let mut ledger = Ledger::new();
    let mut book = OrderBook::new();
    ledger.credit("alice", "USDT", 1000 * MICRO);

    let placed = book
        .place_order(&mut ledger, "alice", buy_order("ETH/USDT", "2", "100"))
        .unwrap();
    assert_eq!(placed.status, "open");
    assert_eq!(placed.filled_quantity, "0");
    assert_eq!(
        ledger.internal_balance("alice", "USDT"),
        (800 * MICRO, 1000 * MICRO)
    );

    book.cancel_order(&mut ledger, "alice", &placed.id).unwrap();
    assert_eq!(
        ledger.internal_balance("alice", "USDT"),
        (1000 * MICRO, 1000 * MICRO)
    );
}

#[test]
fn insufficient_balance_leaves_ledger_unchanged() {
    // bob holds 50 but the buy needs 200: the placement is refused and
    // nothing moves.
    let mut ledger = Ledger::new();
    let mut book = OrderBook::new();
    ledger.credit("bob", "USDT", 50 * MICRO);

    let placed = book.place_order(&mut ledger, "bob", buy_order("ETH/USDT", "2", "100"));
    assert_eq!(placed.unwrap_err(), EngineError::InsufficientBalance);
    assert_eq!(
        ledger.internal_balance("bob", "USDT"),
        (50 * MICRO, 50 * MICRO)
    );
}

#[test]
fn sell_orders_reserve_the_base_token() {
    let mut ledger = Ledger::new();
    let mut book = OrderBook::new();
    ledger.credit("carol", "ETH", 10 * MICRO);

    let order = LimitOrder {
        market: "ETH/USDT".to_string(),
        side: Side::Sell,
        price: "2".to_string(),
        quantity: "4".to_string(),
    };
    book.place_order(&mut ledger, "carol", order).unwrap();
    assert_eq!(
        ledger.internal_balance("carol", "ETH"),
        (6 * MICRO, 10 * MICRO)
    );
}

#[test]
fn invalid_markets_are_refused() {
    let mut ledger = Ledger::new();
    let mut book = OrderBook::new();
    ledger.credit("dave", "USDT", 1000 * MICRO);

    for market in ["ETHUSDT", "/USDT", "ETH/", "ETH/USDT/X"] {
        let r = book.place_order(&mut ledger, "dave", buy_order(market, "2", "100"));
        assert_eq!(r.unwrap_err(), EngineError::InvalidMarket);
    }
    let bad_price = book.place_order(&mut ledger, "dave", buy_order("ETH/USDT", "-2", "100"));
    assert_eq!(bad_price.unwrap_err(), EngineError::InvalidMarket);
}

#[test]
fn cancel_checks_owner_and_existence() {
    let mut ledger = Ledger::new();
    let mut book = OrderBook::new();
    ledger.credit("alice", "USDT", 1000 * MICRO);

    let placed = book
        .place_order(&mut ledger, "alice", buy_order("ETH/USDT", "2", "100"))
        .unwrap();

    let wrong_owner = book.cancel_order(&mut ledger, "mallory", &placed.id);
    assert_eq!(wrong_owner.unwrap_err(), EngineError::Internal);
    // the order still rests and its collateral stays locked
    assert_eq!(
        ledger.internal_balance("alice", "USDT"),
        (800 * MICRO, 1000 * MICRO)
    );

    let missing = book.cancel_order(&mut ledger, "alice", "no-such-id");
    assert_eq!(missing.unwrap_err(), EngineError::OrderNotFound);
}

#[test]
fn placed_order_ids_are_minted_uuids() {
    let mut ledger = Ledger::new();
    let mut book = OrderBook::new();
    ledger.credit("alice", "USDT", 1000 * MICRO);

    let one = book
        .place_order(&mut ledger, "alice", buy_order("ETH/USDT", "1", "1"))
        .unwrap();
    let two = book
        .place_order(&mut ledger, "alice", buy_order("ETH/USDT", "1", "1"))
        .unwrap();
    assert_eq!(one.id.len(), 36);
    assert_eq!(two.id.len(), 36);
    assert_ne!(one.id, two.id);
}

#[test]
fn fractional_prices_round_down_to_micro_units() {
    let mut ledger = Ledger::new();
    let mut book = OrderBook::new();
    ledger.credit("erin", "USDT", 10 * MICRO);

    // 2.5 x 3 = 7.5 quote units reserved
    book.place_order(&mut ledger, "erin", buy_order("ETH/USDT", "2.5", "3"))
        .unwrap();
    assert_eq!(
        ledger.internal_balance("erin", "USDT"),
        (2_500_000, 10 * MICRO)
    );
}
