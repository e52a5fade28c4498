use rust_quant::bar::{Bar, SCALE};
use rust_quant::ema_switch::EmaSwitchStrategy;
use rust_quant::order::OrderSide;

fn close_bar(close: u64, i: usize) -> Bar {
    Bar {
        timestamp: format!("t{}", i),
        open: close,
        high: close,
        low: close,
        close,
        volume: 0,
    }
}

#[test]
fn constant_closes_never_emit() {
    let mut s = EmaSwitchStrategy::new(3, 5);
    for i in 0..20 {
        let intents = s.generate_signal(&close_bar(100 * SCALE, i));
        assert!(intents.is_empty());
    }
    assert_eq!(s.current_trend, None);
    assert_eq!(s.position, 0);
}

#[test]
fn rising_closes_emit_one_buy() {
    let long = 5usize;
    let mut s = EmaSwitchStrategy::new(2, long);
    let mut all = Vec::new();
    let n = 2 * long;
    for i in 0..n {
        let close = 100 * SCALE + (i as u64) * (100 * SCALE) / ((n - 1) as u64);
        all.extend(s.generate_signal(&close_bar(close, i)));
    }
    assert_eq!(all.len(), 1);
    assert_eq!(all[0].side, OrderSide::Buy);
    assert_eq!(all[0].quantity, 1);
    assert_eq!(all[0].timestamp, format!("t{}", long - 1));
    assert!(all.iter().all(|o| o.side == OrderSide::Buy));
}

#[test]
fn insufficient_history_is_silent() {
    let long = 6usize;
    let mut s = EmaSwitchStrategy::new(2, long);
    for i in 0..(long - 1) {
        let close = (100 + 7 * i as u64) * SCALE;
        assert!(s.generate_signal(&close_bar(close, i)).is_empty());
        assert_eq!(s.ema_short.len(), i + 1);
        assert_eq!(s.ema_long.len(), i + 1);
    }
}

#[test]
fn crossover_flips_close_then_open() {
    let mut s = EmaSwitchStrategy::new(1, 2);
    assert!(s.generate_signal(&close_bar(100 * SCALE, 0)).is_empty());
    let up = s.generate_signal(&close_bar(110 * SCALE, 1));
    assert_eq!(up.len(), 1);
    assert_eq!(up[0].side, OrderSide::Buy);
    assert_eq!(up[0].price, 110 * SCALE);
    assert_eq!(s.position, 1);
    let down = s.generate_signal(&close_bar(90 * SCALE, 2));
    assert_eq!(down.len(), 2);
    assert!(down.iter().all(|o| o.side == OrderSide::Sell && o.quantity == 1 && o.price == 90 * SCALE));
    assert_eq!(s.position, -1);
    assert_eq!(s.current_trend, Some(OrderSide::Sell));
    // Equal averages carry the current trend.
    assert!(s.generate_signal(&close_bar(90 * SCALE, 3)).is_empty());
    let back_up = s.generate_signal(&close_bar(120 * SCALE, 4));
    assert_eq!(back_up.len(), 2);
    assert!(back_up.iter().all(|o| o.side == OrderSide::Buy && o.quantity == 1));
    assert_eq!(s.position, 1);
}

#[test]
fn first_trend_may_be_sell() {
    let mut s = EmaSwitchStrategy::new(1, 2);
    assert!(s.generate_signal(&close_bar(100 * SCALE, 0)).is_empty());
    let down = s.generate_signal(&close_bar(80 * SCALE, 1));
    assert_eq!(down.len(), 1);
    assert_eq!(down[0].side, OrderSide::Sell);
    assert_eq!(down[0].quantity, 1);
    assert_eq!(s.position, -1);
}
