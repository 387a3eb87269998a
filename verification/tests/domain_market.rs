use hft_bot::decimal::Decimal;
use hft_bot::domain::market::{BookTop, MarketSnapshot};
use hft_bot::domain::types::Side;

#[test]
fn mark_price_is_mid_when_both_quotes_present() {
    let top = BookTop {
        best_bid: Some(Decimal::new(40, 2)),
        best_ask: Some(Decimal::new(44, 2)),
        last_trade: Some(Decimal::new(99, 2)),
    };
    assert_eq!(top.mark_price(), Some(Decimal::new(4200, 4)));
}

#[test]
fn mark_price_falls_back_to_last_trade_when_bid_missing() {
    let top = BookTop {
        best_bid: None,
        best_ask: Some(Decimal::new(44, 2)),
        last_trade: Some(Decimal::new(41, 2)),
    };
    assert_eq!(top.mark_price(), Some(Decimal::new(41, 2)));
}

#[test]
fn mark_price_falls_back_to_last_trade_when_ask_missing() {
    let top = BookTop {
        best_bid: Some(Decimal::new(40, 2)),
        best_ask: None,
        last_trade: Some(Decimal::new(41, 2)),
    };
    assert_eq!(top.mark_price(), Some(Decimal::new(41, 2)));
}

#[test]
fn mark_price_is_none_when_no_data() {
    let top = BookTop::default();
    assert_eq!(top.mark_price(), None);
}

#[test]
fn mark_price_keeps_full_precision_without_rounding() {
    let top = BookTop {
        best_bid: Some(Decimal::new(4001, 4)),
        best_ask: Some(Decimal::new(4004, 4)),
        last_trade: None,
    };
    assert_eq!(top.mark_price(), Some(Decimal::new(40025, 5)));
}

#[test]
fn snapshot_routes_to_correct_side() {
    let snapshot = MarketSnapshot {
        up: BookTop {
            best_bid: Some(Decimal::new(40, 2)),
            best_ask: Some(Decimal::new(42, 2)),
            last_trade: None,
        },
        down: BookTop {
            best_bid: Some(Decimal::new(56, 2)),
            best_ask: Some(Decimal::new(60, 2)),
            last_trade: None,
        },
    };
    assert_eq!(snapshot.mark_price(Side::Up), Some(Decimal::new(4100, 4)));
    assert_eq!(snapshot.mark_price(Side::Down), Some(Decimal::new(5800, 4)));
}
