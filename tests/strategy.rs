use rust_quant::bar::{Bar, SCALE};
use rust_quant::order::OrderSide;
use rust_quant::strategy::{AlwaysBuy, AlwaysSell, Strategy};

fn bar(open: u64, high: u64, low: u64, close: u64, volume: u64) -> Bar {
    Bar {
        timestamp: "2025-10-24T00:15:00Z".to_string(),
        open: open * SCALE,
        high: high * SCALE,
        low: low * SCALE,
        close: close * SCALE,
        volume: volume * SCALE,
    }
}

#[test]
fn test_bar_creation() {
    let bar = Bar {
        timestamp: "2025-10-24T00:15:00Z".to_string(),
        open: SCALE,
        high: 2 * SCALE,
        low: SCALE / 2,
        close: 3 * SCALE / 2,
        volume: 140 * SCALE,
    };
    assert_eq!(bar.close, 150_000_000);
}

#[test]
fn test_buy_on_bullish_bar() {
    let b = bar(100, 105, 99, 104, 23000);
    let strategy = AlwaysBuy;
    let order = strategy.generate_signal(&b);
    assert!(order.is_some());
    let o = order.unwrap();
    assert_eq!(o.side, OrderSide::Buy);
    assert_eq!(o.price, 104 * SCALE);
    assert_eq!(o.quantity, 1);
    assert_eq!(o.timestamp, "2025-10-24T00:15:00Z");
}

#[test]
fn test_no_buy_on_bearish_bar() {
    let b = bar(100, 102, 98, 99, 9000);
    let strategy = AlwaysBuy;
    assert!(strategy.generate_signal(&b).is_none());
}

#[test]
fn test_no_buy_on_low_volume() {
    let b = bar(100, 105, 99, 104, 8700);
    let strategy = AlwaysBuy;
    let order = strategy.generate_signal(&b);
    assert!(order.is_none());
}

#[test]
fn test_sell_on_bearish_bar() {
    let b = bar(100, 102, 95, 97, 13000);
    let strategy = AlwaysSell;
    let order = strategy.generate_signal(&b);
    assert!(order.is_some());
    let o = order.unwrap();
    assert_eq!(o.side, OrderSide::Sell);
    assert_eq!(o.price, 97 * SCALE);
    assert_eq!(o.quantity, 10);
}

#[test]
fn test_no_sell_on_bulish_bar() {
    let b = bar(100, 105, 99, 104, 23000);
    let strategy = AlwaysSell;
    assert!(strategy.generate_signal(&b).is_none());
}

#[test]
fn test_no_sell_on_low_volume() {
    let b = bar(100, 102, 95, 97, 3000);
    let strategy = AlwaysSell;
    let order = strategy.generate_signal(&b);
    assert!(order.is_none());
}

#[test]
fn volume_floor_is_exclusive() {
    let strategy = AlwaysBuy;
    assert!(strategy.generate_signal(&bar(100, 105, 99, 104, 10_000)).is_none());
    assert!(strategy.generate_signal(&bar(100, 105, 99, 104, 10_001)).is_some());
    let seller = AlwaysSell;
    assert!(seller.generate_signal(&bar(100, 102, 95, 97, 10_000)).is_none());
    assert!(seller.generate_signal(&bar(100, 102, 95, 97, 10_001)).is_some());
}
