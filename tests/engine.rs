use rust_quant::bar::{Bar, SCALE};
use rust_quant::engine::{Book, EngineConfig, ExecutionEngine, Sizing};
use rust_quant::error::RustQuantError;
use rust_quant::order::{Order, OrderSide};

const START: i128 = 1_000_000 * SCALE as i128;

fn config(commission_ppm: u64, slippage_ppm: u64, sizing: Sizing, min_cash_threshold: Option<i128>) -> EngineConfig {
    EngineConfig { starting_cash: START, commission_ppm, slippage_ppm, sizing, min_cash_threshold }
}

fn intent(side: OrderSide, price: u64) -> Order {
    Order { side, price, quantity: 1, timestamp: "t".to_string() }
}

fn holding(cfg: EngineConfig, position: i128, entry_price: u128) -> ExecutionEngine {
    let mut e = ExecutionEngine::new(cfg).unwrap();
    e.book = Book { cash: START, position, entry_price, trades: 0, wins: 0, losses: 0 };
    e
}

#[test]
fn closing_long_with_slippage_is_a_win() {
    let cfg = config(1000, 500, Sizing::FixedQuantity(1), None);
    let mut e = holding(cfg, 2, 100 * SCALE as u128);
    e.apply(&intent(OrderSide::Sell, 110 * SCALE)).unwrap();
    let close = &e.fills[0];
    assert_eq!(close.side, OrderSide::Sell);
    assert_eq!(close.price, 10_994_500_000);
    assert_eq!(close.quantity, 2);
    assert_eq!(close.fee, 21_989_000);
    assert_eq!(close.pnl, Some(1_989_000_000));
    assert_eq!(e.book.wins, 1);
    assert_eq!(e.book.losses, 0);
    assert_eq!(e.book.trades, 1);
    // The same intent then opens a one-lot short.
    let open = &e.fills[1];
    assert_eq!(open.pnl, None);
    assert_eq!(open.quantity, 1);
    assert_eq!(e.book.position, -1);
    assert_eq!(e.book.entry_price, 10_994_500_000);
    assert_eq!(e.book.cash, START + 21_989_000_000 - 21_989_000 + 10_994_500_000 - 10_994_500);
}

#[test]
fn square_off_long_at_a_loss() {
    let cfg = config(1000, 500, Sizing::FixedQuantity(1), None);
    let mut e = holding(cfg, 5, 100 * SCALE as u128);
    let last = Bar { timestamp: "end".to_string(), open: 90 * SCALE, high: 90 * SCALE, low: 90 * SCALE, close: 90 * SCALE, volume: 0 };
    e.square_off(&last).unwrap();
    assert_eq!(e.fills.len(), 1);
    let f = &e.fills[0];
    assert_eq!(f.side, OrderSide::Sell);
    assert_eq!(f.price, 8_995_500_000);
    assert_eq!(f.quantity, 5);
    assert_eq!(f.pnl, Some(-5_022_500_000));
    assert_eq!(f.timestamp, "end");
    assert_eq!(e.book.position, 0);
    assert_eq!(e.book.losses, 1);
    assert_eq!(e.book.wins, 0);
    assert_eq!(e.book.cash, START + 44_977_500_000 - 44_977_500);
    // A second square-off finds the book flat and adds nothing.
    let book = e.book;
    e.square_off(&last).unwrap();
    assert_eq!(e.fills.len(), 1);
    assert_eq!(e.book, book);
}

#[test]
fn square_off_short_pays_to_cover() {
    let cfg = config(0, 0, Sizing::FixedQuantity(1), None);
    let mut e = holding(cfg, -3, 100 * SCALE as u128);
    let last = Bar { timestamp: "end".to_string(), open: 0, high: 0, low: 0, close: 90 * SCALE, volume: 0 };
    e.square_off(&last).unwrap();
    assert_eq!(e.fills[0].side, OrderSide::Buy);
    assert_eq!(e.fills[0].pnl, Some(30 * SCALE as i128));
    assert_eq!(e.book.cash, START - 270 * SCALE as i128);
    assert_eq!(e.book.wins, 1);
}

#[test]
fn buy_fill_moves_cash_by_notional_and_fee() {
    let cfg = config(1000, 500, Sizing::FixedQuantity(3), None);
    let mut e = ExecutionEngine::new(cfg).unwrap();
    e.apply(&intent(OrderSide::Buy, 100 * SCALE)).unwrap();
    let f = &e.fills[0];
    assert_eq!(f.price, 10_005_000_000);
    assert_eq!(f.quantity, 3);
    assert_eq!(f.fee, 30_015_000);
    assert_eq!(e.book.cash, START - 30_015_000_000 - 30_015_000);
    assert_eq!(e.book.position, 3);
    assert_eq!(e.book.entry_price, 10_005_000_000);
}

#[test]
fn same_direction_intent_is_skipped() {
    let cfg = config(1000, 500, Sizing::FixedQuantity(3), None);
    let mut e = ExecutionEngine::new(cfg).unwrap();
    e.apply(&intent(OrderSide::Buy, 100 * SCALE)).unwrap();
    let book = e.book;
    e.apply(&intent(OrderSide::Buy, 120 * SCALE)).unwrap();
    assert_eq!(e.fills.len(), 1);
    assert_eq!(e.book.entry_price, book.entry_price);
    assert_eq!(e.book.position, book.position);
    assert_eq!(e.book.cash, book.cash);
    assert_eq!(e.book.trades, 2);
}

#[test]
fn full_cash_deploy_sizes_from_cash() {
    let cfg = EngineConfig {
        starting_cash: 1000 * SCALE as i128,
        commission_ppm: 1000,
        slippage_ppm: 0,
        sizing: Sizing::FullCashDeploy(1000),
        min_cash_threshold: None,
    };
    let mut e = ExecutionEngine::new(cfg).unwrap();
    e.apply(&intent(OrderSide::Buy, 100 * SCALE)).unwrap();
    assert_eq!(e.book.position, 9);
    assert_eq!(e.book.cash, 9_910_000_000);
}

#[test]
fn zero_quantity_emits_no_fill() {
    let cfg = config(1000, 500, Sizing::FixedQuantity(0), None);
    let mut e = ExecutionEngine::new(cfg).unwrap();
    e.apply(&intent(OrderSide::Buy, 100 * SCALE)).unwrap();
    assert!(e.fills.is_empty());
    assert_eq!(e.book.position, 0);
    assert_eq!(e.book.cash, START);
    assert_eq!(e.book.trades, 1);
}

#[test]
fn cash_threshold_blocks_long_only() {
    let cfg = EngineConfig {
        starting_cash: 1000 * SCALE as i128,
        commission_ppm: 0,
        slippage_ppm: 0,
        sizing: Sizing::FixedQuantity(1),
        min_cash_threshold: Some(10 * SCALE as i128),
    };
    let mut e = ExecutionEngine::new(cfg).unwrap();
    e.apply(&intent(OrderSide::Buy, 995 * SCALE)).unwrap();
    assert!(e.fills.is_empty());
    assert_eq!(e.book.position, 0);
    e.apply(&intent(OrderSide::Sell, 995 * SCALE)).unwrap();
    assert_eq!(e.book.position, -1);
    assert_eq!(e.book.cash, 1995 * SCALE as i128);
}

#[test]
fn invalid_config_is_rejected() {
    let bad_rate = config(2_000_000, 0, Sizing::FixedQuantity(1), None);
    assert_eq!(ExecutionEngine::new(bad_rate).err(), Some(RustQuantError::InvalidConfig));
    let no_cash = EngineConfig { starting_cash: 0, ..config(0, 0, Sizing::FixedQuantity(1), None) };
    assert_eq!(ExecutionEngine::new(no_cash).err(), Some(RustQuantError::InvalidConfig));
    let bad_buffer = config(0, 0, Sizing::FullCashDeploy(1_000_001), None);
    assert_eq!(ExecutionEngine::new(bad_buffer).err(), Some(RustQuantError::InvalidConfig));
}

#[test]
fn oversized_fill_is_an_overflow() {
    let cfg = config(0, 0, Sizing::FixedQuantity(u64::MAX), None);
    let mut e = ExecutionEngine::new(cfg).unwrap();
    assert_eq!(e.apply(&intent(OrderSide::Buy, u64::MAX)), Err(RustQuantError::Overflow));
    assert_eq!(e.book.trades, 0);
    assert!(e.fills.is_empty());
}

#[test]
fn summary_reports_ratio_only_with_losses() {
    let cfg = config(0, 0, Sizing::FixedQuantity(1), None);
    let mut e = ExecutionEngine::new(cfg).unwrap();
    assert_eq!(e.summary().win_loss_ratio_ppm, None);
    e.book.wins = 1;
    e.book.losses = 2;
    e.book.cash = START + 5;
    let s = e.summary();
    assert_eq!(s.win_loss_ratio_ppm, Some(500_000));
    assert_eq!(s.net_pnl, 5);
    assert_eq!(s.starting_cash, START);
}

#[test]
fn apply_all_keeps_emission_order() {
    let cfg = config(0, 0, Sizing::FixedQuantity(1), None);
    let mut e = holding(cfg, 1, 100 * SCALE as u128);
    let intents = vec![intent(OrderSide::Sell, 90 * SCALE), intent(OrderSide::Sell, 90 * SCALE)];
    e.apply_all(&intents).unwrap();
    assert_eq!(e.fills.len(), 2);
    assert_eq!(e.fills[0].pnl, Some(-10 * SCALE as i128));
    assert_eq!(e.fills[1].pnl, None);
    assert_eq!(e.book.position, -1);
    assert_eq!(e.book.trades, 2);
    assert_eq!(e.book.losses, 1);
}
