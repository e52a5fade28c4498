use rust_quant::backtest::{backtest_single_day, continuous_backtest, run_backtest, summarize_days, DailyResult};
use rust_quant::bar::{Bar, SCALE};
use rust_quant::ema_switch::EmaSwitchStrategy;
use rust_quant::engine::{EngineConfig, ExecutionEngine, Sizing};
use rust_quant::loader::CsvLoader;
use rust_quant::error::RustQuantError;
use rust_quant::order::OrderSide;
use rust_quant::simulation::{run_simulation, Market};
use rust_quant::simulator::{simulated_bar, DataSimulator};
use rust_quant::strategy::{AlwaysBuy, AlwaysSell, SimpleStrategy};

fn bar(open: u64, close: u64, volume: u64) -> Bar {
    Bar {
        timestamp: "2025-10-24T00:15:00Z".to_string(),
        open: open * SCALE,
        high: open.max(close) * SCALE,
        low: open.min(close) * SCALE,
        close: close * SCALE,
        volume: volume * SCALE,
    }
}

#[test]
fn single_day_squares_off_longs() {
    let bars = vec![bar(100, 104, 23000), bar(104, 110, 23000)];
    let r = backtest_single_day(&[AlwaysBuy], &bars, "2025-10-24").unwrap();
    assert_eq!(r.date, "2025-10-24");
    assert_eq!(r.trades, 2);
    assert_eq!(r.pnl, 6 * SCALE as i128);
}

#[test]
fn single_day_covers_shorts() {
    let bars = vec![bar(100, 97, 13000)];
    let r = backtest_single_day(&[AlwaysSell], &bars, "d").unwrap();
    assert_eq!(r.trades, 1);
    assert_eq!(r.pnl, 0);
    let falling = vec![bar(100, 97, 13000), bar(97, 90, 13000)];
    let r2 = backtest_single_day(&[AlwaysSell], &falling, "d").unwrap();
    assert_eq!(r2.trades, 2);
    assert_eq!(r2.pnl, (970 + 900 - 20 * 90) * SCALE as i128);
}

#[test]
fn single_day_without_bars() {
    let r = backtest_single_day(&[AlwaysBuy], &[], "d").unwrap();
    assert_eq!(r.trades, 0);
    assert_eq!(r.pnl, 0);
}

#[test]
fn simulation_collects_signals() {
    let bars = vec![bar(100, 104, 23000), bar(104, 100, 23000), bar(100, 101, 23000)];
    let orders = run_simulation(&AlwaysBuy, &bars);
    assert_eq!(orders.len(), 2);
    assert_eq!(orders[0].price, 104 * SCALE);
    assert_eq!(orders[1].price, 101 * SCALE);
    let sells = run_simulation(&AlwaysSell, &bars);
    assert_eq!(sells.len(), 1);
    assert_eq!(sells[0].side, OrderSide::Sell);
    assert_eq!(Market::new(7).last_close, 7);
}

#[test]
fn run_ends_flat_with_counters() {
    let mut s = EmaSwitchStrategy::new(1, 2);
    let cfg = EngineConfig {
        starting_cash: 1_000_000 * SCALE as i128,
        commission_ppm: 0,
        slippage_ppm: 0,
        sizing: Sizing::FixedQuantity(1),
        min_cash_threshold: None,
    };
    let mut e = ExecutionEngine::new(cfg).unwrap();
    let bars = vec![bar(100, 100, 0), bar(100, 110, 0), bar(110, 90, 0), bar(90, 95, 0)];
    let summary = run_backtest(&mut s, &mut e, &bars).unwrap();
    assert_eq!(e.book.position, 0);
    // Buy at 110; flip to short at 90 (loss of 20); flip back to long at 95
    // (loss of 5); the long is squared off at 95 (no profit, a loss).
    assert_eq!(summary.trades, 5);
    assert_eq!(summary.wins, 0);
    assert_eq!(summary.losses, 3);
    assert_eq!(summary.net_pnl, -25 * SCALE as i128);
    assert_eq!(e.fills.len(), 6);
}

#[test]
fn continuous_backtest_without_bars() {
    let (fills, summary) = continuous_backtest(&[]).unwrap();
    assert!(fills.is_empty());
    assert_eq!(summary.starting_cash, 150_000 * SCALE as i128);
    assert_eq!(summary.ending_cash, summary.starting_cash);
    assert_eq!(summary.trades, 0);
}

#[test]
fn simulated_bar_exact_prices() {
    let b = simulated_bar(100 * SCALE, 10_000, 5_000, 2_000, 7_000, "h".to_string());
    assert_eq!(b.open, 100 * SCALE);
    assert_eq!(b.close, 101 * SCALE);
    assert_eq!(b.high, 10_150_500_000);
    assert_eq!(b.low, 10_079_800_000);
    assert_eq!(b.volume, 7_000 * SCALE);
    let down = simulated_bar(100 * SCALE, -20_000, 0, 0, 5_000, "h".to_string());
    assert_eq!(down.close, 98 * SCALE);
}

#[test]
fn generated_walk_is_chained() {
    let sim = DataSimulator::new(24, 100 * SCALE);
    let bars = sim.generate();
    assert_eq!(bars.len(), 24);
    assert_eq!(bars[0].open, 100 * SCALE);
    for i in 0..bars.len() {
        assert!(bars[i].low <= bars[i].close && bars[i].close <= bars[i].high);
        assert!(bars[i].volume >= 5000 * SCALE && bars[i].volume < 20000 * SCALE);
        if i > 0 {
            assert_eq!(bars[i].open, bars[i - 1].close);
        }
    }
    assert_eq!(bars[5].timestamp, "2025-10-24T05:00:00Z");
}

#[test]
fn loader_keeps_path_and_errors_describe_themselves() {
    let l = CsvLoader::new("data/x.csv");
    assert_eq!(l.path, "data/x.csv");
    assert_eq!(RustQuantError::FileNotFound("a.csv".to_string()).message(), "File not found: a.csv");
    assert_eq!(RustQuantError::InvalidFormat.message(), "Invalid data format");
}

#[test]
fn single_day_mixes_strategies() {
    let bars = vec![bar(100, 104, 23000), bar(104, 97, 13000)];
    let strategies = [SimpleStrategy::Buy(AlwaysBuy), SimpleStrategy::Sell(AlwaysSell)];
    let r = backtest_single_day(&strategies, &bars, "d").unwrap();
    // Buy 1 at 104, sell 10 at 97, cover the remaining 9 short at 97.
    assert_eq!(r.trades, 2);
    assert_eq!(r.pnl, (-104 + 970 - 9 * 97) * SCALE as i128);
}

#[test]
fn continuous_backtest_takes_only_shorts() {
    let mut bars = Vec::new();
    for _ in 0..480 {
        bars.push(bar(100, 100, 0));
    }
    for i in 0..100u64 {
        bars.push(bar(100 - i / 2, 100 - (i + 1) / 2, 0));
    }
    let (fills, summary) = continuous_backtest(&bars).unwrap();
    assert!(!fills.is_empty());
    assert!(fills.iter().all(|f| !(f.side == OrderSide::Buy && f.pnl.is_none())));
    assert_eq!(fills[0].side, OrderSide::Sell);
    assert_eq!(summary.wins, 1);
    assert!(summary.net_pnl > 0);
}

#[test]
fn days_are_summarized() {
    let day = |pnl: i128, trades: u64| DailyResult { date: "d".to_string(), pnl, trades };
    let t = summarize_days(&[day(5, 2), day(-3, 1), day(0, 4), day(7, 0)]).unwrap();
    assert_eq!(t.days, 4);
    assert_eq!(t.winning_days, 2);
    assert_eq!(t.losing_days, 1);
    assert_eq!(t.total_pnl, 9);
    assert_eq!(t.total_trades, 7);
    assert_eq!(summarize_days(&[]).unwrap().days, 0);
    assert_eq!(summarize_days(&[day(i128::MAX, 0), day(1, 0)]), Err(RustQuantError::Overflow));
}

#[test]
fn one_tick_prices_stay_positive() {
    let b = simulated_bar(1, 0, 0, 9_999, 5_000, "h".to_string());
    assert_eq!(b.close, 1);
    assert_eq!(b.low, 1);
    let d = simulated_bar(1, -19_999, 0, 9_999, 5_000, "h".to_string());
    assert_eq!(d.close, 1);
    assert_eq!(d.low, 1);
    let walk = DataSimulator::new(50, 1).generate();
    assert!(walk.iter().all(|b| b.low > 0 && b.close > 0));
}

#[test]
fn hour_timestamps_are_padded() {
    let bars = DataSimulator::new(101, 100 * SCALE).generate();
    assert_eq!(bars[0].timestamp, "2025-10-24T00:00:00Z");
    assert_eq!(bars[9].timestamp, "2025-10-24T09:00:00Z");
    assert_eq!(bars[12].timestamp, "2025-10-24T12:00:00Z");
    assert_eq!(bars[100].timestamp, "2025-10-24T100:00:00Z");
}

#[test]
fn error_messages_per_variant() {
    assert_eq!(RustQuantError::InvalidConfig.message(), "Invalid configuration");
    assert_eq!(RustQuantError::Overflow.message(), "Amount out of range");
}
