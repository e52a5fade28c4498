use vstd::prelude::*;
use crate::bar::{Bar, SCALE};
use crate::ema_switch::{initial_signal_state, signal_step, EmaSwitchStrategy, SignalState};
use crate::engine::{
    amount_ok, initial_book, intents_step, square_off_step, summary_of, Book, EngineConfig, ExecutionEngine, Fill,
    RunSummary, Sizing, MAX_AMOUNT,
};
use crate::error::RustQuantError;
use crate::order::{Order, OrderSide};
use crate::strategy::Strategy;

verus! {

/// The bars observed one by one, each bar's intents applied in emission order
/// before the next bar; `None` at the first overflow.
pub open spec fn run_bars(cfg: EngineConfig, st: SignalState, b: Book, bars: Seq<Bar>) -> Option<(SignalState, Book, Seq<Fill>)>
    decreases bars.len(),
{
    if bars.len() == 0 {
        Some((st, b, Seq::empty()))
    } else {
        match run_bars(cfg, st, b, bars.drop_last()) {
            None => None,
            Some((s1, b1, fs)) => {
                let (s2, intents) = signal_step(s1, bars.last());
                match intents_step(cfg, b1, intents) {
                    None => None,
                    Some((b2, gs)) => Some((s2, b2, fs + gs)),
                }
            },
        }
    }
}

/// A whole run: the bars, then the square-off against the last bar.
pub open spec fn run_from(cfg: EngineConfig, st: SignalState, b: Book, bars: Seq<Bar>) -> Option<(SignalState, Book, Seq<Fill>)> {
    match run_bars(cfg, st, b, bars) {
        None => None,
        Some((s1, b1, fs)) => if bars.len() == 0 {
            Some((s1, b1, fs))
        } else {
            match square_off_step(cfg, b1, bars.last().close, bars.last().timestamp) {
                None => None,
                Some((b2, gs)) => Some((s1, b2, fs + gs)),
            }
        },
    }
}

proof fn lemma_run_bars_none_extends(cfg: EngineConfig, st: SignalState, b: Book, bars: Seq<Bar>, k: int)
    requires
        0 <= k <= bars.len(),
        run_bars(cfg, st, b, bars.subrange(0, k)) is None,
    ensures
        run_bars(cfg, st, b, bars) is None,
    decreases bars.len() - k,
{
    if k < bars.len() {
        assert(bars.subrange(0, k + 1).drop_last() =~= bars.subrange(0, k));
        lemma_run_bars_none_extends(cfg, st, b, bars, k + 1);
    } else {
        assert(bars.subrange(0, k) =~= bars);
    }
}

/// Runs the signal generator and the engine over `bars` in order, handing the
/// engine each bar's intents before the next bar is observed, then squares off
/// against the last bar.
pub fn run_backtest(strategy: &mut EmaSwitchStrategy, engine: &mut ExecutionEngine, bars: &[Bar]) -> (r: Result<RunSummary, RustQuantError>)
    requires
        old(strategy).wf(),
        old(engine).wf(),
    ensures
        final(strategy).wf(),
        final(engine).wf(),
        final(engine).config == old(engine).config,
        match run_from(old(engine).config, old(strategy).model(), old(engine).book, bars@) {
            Some((st, b, fs)) => {
                &&& r == Ok::<RunSummary, RustQuantError>(summary_of(old(engine).config, b))
                &&& final(engine).book == b
                &&& final(engine).fills@ == old(engine).fills@ + fs
                &&& final(strategy).model() == st
            },
            None => r == Err::<RunSummary, RustQuantError>(RustQuantError::Overflow),
        },
{
    let ghost cfg = engine.config;
    let ghost st0 = strategy.model();
    let ghost b0 = engine.book;
    let ghost log: Seq<Fill> = Seq::empty();
    let mut i: usize = 0;
    proof {
        assert(bars@.subrange(0, 0) =~= Seq::<Bar>::empty());
        assert(engine.fills@ =~= old(engine).fills@ + log);
    }
    while i < bars.len()
        invariant
            0 <= i <= bars@.len(),
            strategy.wf(),
            engine.wf(),
            engine.config == cfg,
            cfg == old(engine).config,
            st0 == old(strategy).model(),
            b0 == old(engine).book,
            run_bars(cfg, st0, b0, bars@.subrange(0, i as int)) == Some((strategy.model(), engine.book, log)),
            engine.fills@ == old(engine).fills@ + log,
        decreases bars@.len() - i,
    {
        let ghost before = engine.fills@;
        proof {
            assert(bars@.subrange(0, i + 1).drop_last() =~= bars@.subrange(0, i as int));
            assert(bars@.subrange(0, i + 1).last() == bars@[i as int]);
        }
        let intents = strategy.generate_signal(&bars[i]);
        match engine.apply_all(&intents) {
            Ok(()) => {},
            Err(e) => {
                proof {
                    lemma_run_bars_none_extends(cfg, st0, b0, bars@, i + 1);
                }
                return Err(e);
            },
        }
        proof {
            let gs = engine.fills@.subrange(before.len() as int, engine.fills@.len() as int);
            assert(engine.fills@ =~= before + gs);
            log = log + gs;
            assert(engine.fills@ =~= old(engine).fills@ + log);
        }
        i = i + 1;
    }
    proof {
        assert(bars@.subrange(0, i as int) =~= bars@);
    }
    if bars.len() > 0 {
        let ghost before = engine.fills@;
        match engine.square_off(&bars[bars.len() - 1]) {
            Ok(()) => {},
            Err(e) => {
                return Err(e);
            },
        }
        proof {
            let gs = engine.fills@.subrange(before.len() as int, engine.fills@.len() as int);
            assert(engine.fills@ =~= before + gs);
            assert(engine.fills@ =~= old(engine).fills@ + (log + gs));
        }
    }
    Ok(engine.summary())
}

/// Configuration of the continuous backtest.
pub open spec fn continuous_config() -> EngineConfig {
    EngineConfig {
        starting_cash: (150_000 * SCALE) as i128,
        commission_ppm: 1000,
        slippage_ppm: 500,
        sizing: Sizing::FullCashDeploy(1000),
        min_cash_threshold: Some((5000 * SCALE) as i128),
    }
}

/// The continuous EMA crossover backtest: EMAs of 216 and 480 bars, 150000
/// units of starting cash, 0.1% commission, 0.05% slippage, positions sized
/// from the cash less a 0.1% buffer, and no new long below 5000 units of cash.
/// Returns the fill log and the summary. The threshold applies to the cash
/// left after the opening trade, so with the whole cash deployed no long is
/// opened and only short positions are taken.
pub fn continuous_backtest(bars: &[Bar]) -> (r: Result<(Vec<Fill>, RunSummary), RustQuantError>)
    ensures
        match run_from(continuous_config(), initial_signal_state(216, 480), initial_book(continuous_config()), bars@) {
            Some((st, b, fs)) => r matches Ok((fills, s)) && fills@ == fs && s == summary_of(continuous_config(), b),
            None => r == Err::<(Vec<Fill>, RunSummary), RustQuantError>(RustQuantError::Overflow),
        },
{
    let mut strategy = EmaSwitchStrategy::new(9 * 24, 20 * 24);
    let config = EngineConfig {
        starting_cash: 150_000 * SCALE as i128,
        commission_ppm: 1000,
        slippage_ppm: 500,
        sizing: Sizing::FullCashDeploy(1000),
        min_cash_threshold: Some(5000 * SCALE as i128),
    };
    let mut engine = match ExecutionEngine::new(config) {
        Ok(e) => e,
        Err(e) => {
            return Err(e);
        },
    };
    proof {
        assert(engine.fills@ + Seq::<Fill>::empty() =~= engine.fills@);
    }
    match run_backtest(&mut strategy, &mut engine, bars) {
        Ok(s) => {
            proof {
                assert(engine.fills@ =~= Seq::<Fill>::empty() + engine.fills@);
            }
            Ok((engine.fills, s))
        },
        Err(e) => Err(e),
    }
}

/// Cash a daily backtest starts with: one million units, in ticks.
pub const DAY_STARTING_CASH: i128 = 100_000_000_000_000;

/// Result of one day's backtest.
#[derive(Debug, Clone)]
pub struct DailyResult {
    pub date: String,
    pub pnl: i128,
    pub trades: u64,
}

/// Cash, signed position and intent count of a daily backtest.
#[derive(Debug, Clone, Copy, PartialEq, Eq, Structural)]
pub struct DayBook {
    pub cash: i128,
    pub position: i128,
    pub trades: u64,
}

impl DayBook {
    pub open spec fn ok(&self) -> bool {
        amount_ok(self.cash as int) && amount_ok(self.position as int)
    }
}

/// One intent in a daily backtest, filled at its reference price without
/// costs: a buy only when cash exceeds the price. `None` when an amount or a
/// count leaves its range.
pub open spec fn day_order_step(d: DayBook, o: Order) -> Option<DayBook> {
    let notional = o.price * o.quantity;
    if d.trades >= u64::MAX {
        None
    } else {
        match o.side {
            OrderSide::Buy => if d.cash > o.price {
                let cash = d.cash - notional;
                let position = d.position + o.quantity;
                if amount_ok(notional) && amount_ok(cash) && amount_ok(position) {
                    Some(DayBook { cash: cash as i128, position: position as i128, trades: (d.trades + 1) as u64 })
                } else {
                    None
                }
            } else {
                Some(DayBook { cash: d.cash, position: d.position, trades: (d.trades + 1) as u64 })
            },
            OrderSide::Sell => {
                let cash = d.cash + notional;
                let position = d.position - o.quantity;
                if amount_ok(notional) && amount_ok(cash) && amount_ok(position) {
                    Some(DayBook { cash: cash as i128, position: position as i128, trades: (d.trades + 1) as u64 })
                } else {
                    None
                }
            },
        }
    }
}

/// Asks each strategy in turn about `bar` and applies what it emits.
pub open spec fn day_bar_step<S: Strategy>(strategies: Seq<S>, d: DayBook, bar: Bar) -> Option<DayBook>
    decreases strategies.len(),
{
    if strategies.len() == 0 {
        Some(d)
    } else {
        match day_bar_step(strategies.drop_last(), d, bar) {
            None => None,
            Some(mid) => match strategies.last().signal(bar) {
                Some(o) => day_order_step(mid, o),
                None => Some(mid),
            },
        }
    }
}

/// Runs the strategies over `bars` in order.
pub open spec fn day_run<S: Strategy>(strategies: Seq<S>, d: DayBook, bars: Seq<Bar>) -> Option<DayBook>
    decreases bars.len(),
{
    if bars.len() == 0 {
        Some(d)
    } else {
        match day_run(strategies, d, bars.drop_last()) {
            None => None,
            Some(mid) => day_bar_step(strategies, mid, bars.last()),
        }
    }
}

/// Closes any open position at the last bar's close, without costs.
pub open spec fn day_square_off(d: DayBook, bars: Seq<Bar>) -> Option<DayBook> {
    if d.position == 0 || bars.len() == 0 {
        Some(d)
    } else {
        let value = bars.last().close * (if d.position > 0 { d.position as int } else { -d.position });
        let cash = if d.position > 0 { d.cash + value } else { d.cash - value };
        if value <= MAX_AMOUNT && amount_ok(cash) {
            Some(DayBook { cash: cash as i128, position: 0, trades: d.trades })
        } else {
            None
        }
    }
}

/// Book at the end of a daily backtest.
pub open spec fn day_outcome<S: Strategy>(strategies: Seq<S>, bars: Seq<Bar>) -> Option<DayBook> {
    match day_run(strategies, DayBook { cash: DAY_STARTING_CASH, position: 0, trades: 0 }, bars) {
        None => None,
        Some(d) => day_square_off(d, bars),
    }
}

proof fn lemma_bar_none_extends<S: Strategy>(strategies: Seq<S>, d: DayBook, bar: Bar, k: int)
    requires
        0 <= k <= strategies.len(),
        day_bar_step(strategies.subrange(0, k), d, bar) is None,
    ensures
        day_bar_step(strategies, d, bar) is None,
    decreases strategies.len() - k,
{
    if k < strategies.len() {
        assert(strategies.subrange(0, k + 1).drop_last() =~= strategies.subrange(0, k));
        lemma_bar_none_extends(strategies, d, bar, k + 1);
    } else {
        assert(strategies.subrange(0, k) =~= strategies);
    }
}

proof fn lemma_run_none_extends<S: Strategy>(strategies: Seq<S>, d: DayBook, bars: Seq<Bar>, k: int)
    requires
        0 <= k <= bars.len(),
        day_run(strategies, d, bars.subrange(0, k)) is None,
    ensures
        day_run(strategies, d, bars) is None,
    decreases bars.len() - k,
{
    if k < bars.len() {
        assert(bars.subrange(0, k + 1).drop_last() =~= bars.subrange(0, k));
        lemma_run_none_extends(strategies, d, bars, k + 1);
    } else {
        assert(bars.subrange(0, k) =~= bars);
    }
}

/// Exec form of `day_order_step`.
fn day_apply(d: DayBook, o: &Order) -> (r: Option<DayBook>)
    requires
        d.ok(),
    ensures
        r == day_order_step(d, *o),
        r matches Some(nd) ==> nd.ok(),
{
    if d.trades == u64::MAX {
        return None;
    }
    proof {
        assert(-(u64::MAX as int) * 9223372036854775808 <= o.price * o.quantity <= u64::MAX as int * 9223372036854775808)
            by (nonlinear_arith)
            requires 0 <= o.price <= u64::MAX, -9223372036854775808 <= o.quantity <= 9223372036854775807;
    }
    let notional: i128 = o.price as i128 * o.quantity as i128;
    let counted = DayBook { cash: d.cash, position: d.position, trades: d.trades + 1 };
    match o.side {
        OrderSide::Buy => {
            if d.cash <= o.price as i128 {
                return Some(counted);
            }
            if notional < -MAX_AMOUNT || notional > MAX_AMOUNT {
                return None;
            }
            let cash = d.cash - notional;
            let position = d.position + o.quantity as i128;
            if cash < -MAX_AMOUNT || cash > MAX_AMOUNT || position < -MAX_AMOUNT || position > MAX_AMOUNT {
                return None;
            }
            Some(DayBook { cash, position, trades: d.trades + 1 })
        },
        OrderSide::Sell => {
            if notional < -MAX_AMOUNT || notional > MAX_AMOUNT {
                return None;
            }
            let cash = d.cash + notional;
            let position = d.position - o.quantity as i128;
            if cash < -MAX_AMOUNT || cash > MAX_AMOUNT || position < -MAX_AMOUNT || position > MAX_AMOUNT {
                return None;
            }
            Some(DayBook { cash, position, trades: d.trades + 1 })
        },
    }
}

/// Single-day backtest: each bar is offered to every strategy in order, each
/// intent is filled at its reference price (a buy only while cash exceeds the
/// price), and any open position is squared off at the last bar's close.
pub fn backtest_single_day<S: Strategy>(strategies: &[S], bars: &[Bar], date: &str) -> (r: Result<DailyResult, RustQuantError>)
    ensures
        match day_outcome(strategies@, bars@) {
            Some(d) => r matches Ok(res) && {
                &&& res.date@ == date@
                &&& res.pnl == d.cash - DAY_STARTING_CASH
                &&& res.trades == d.trades
            },
            None => r == Err::<DailyResult, RustQuantError>(RustQuantError::Overflow),
        },
{
    let start = DayBook { cash: DAY_STARTING_CASH, position: 0, trades: 0 };
    let mut d = start;
    let mut i: usize = 0;
    proof {
        assert(bars@.subrange(0, 0) =~= Seq::<Bar>::empty());
    }
    while i < bars.len()
        invariant
            0 <= i <= bars@.len(),
            start == (DayBook { cash: DAY_STARTING_CASH, position: 0, trades: 0 }),
            day_run(strategies@, start, bars@.subrange(0, i as int)) == Some(d),
            d.ok(),
        decreases bars@.len() - i,
    {
        let bar = &bars[i];
        let at_bar = d;
        let mut j: usize = 0;
        proof {
            assert(bars@.subrange(0, i + 1).drop_last() =~= bars@.subrange(0, i as int));
            assert(strategies@.subrange(0, 0) =~= Seq::<S>::empty());
        }
        while j < strategies.len()
            invariant
                0 <= j <= strategies@.len(),
                i < bars@.len(),
                *bar == bars@[i as int],
                start == (DayBook { cash: DAY_STARTING_CASH, position: 0, trades: 0 }),
                day_run(strategies@, start, bars@.subrange(0, i as int)) == Some(at_bar),
                day_bar_step(strategies@.subrange(0, j as int), at_bar, *bar) == Some(d),
                d.ok(),
            decreases strategies@.len() - j,
        {
            proof {
                assert(strategies@.subrange(0, j + 1).drop_last() =~= strategies@.subrange(0, j as int));
            }
            match strategies[j].generate_signal(bar) {
                Some(o) => {
                    match day_apply(d, &o) {
                        Some(nd) => {
                            d = nd;
                        },
                        None => {
                            proof {
                                lemma_bar_none_extends(strategies@, at_bar, *bar, j + 1);
                                assert(bars@.subrange(0, i + 1).drop_last() =~= bars@.subrange(0, i as int));
                                assert(bars@.subrange(0, i + 1).last() == bars@[i as int]);
                                lemma_run_none_extends(strategies@, start, bars@, i + 1);
                            }
                            return Err(RustQuantError::Overflow);
                        },
                    }
                },
                None => {},
            }
            j = j + 1;
        }
        proof {
            assert(strategies@.subrange(0, j as int) =~= strategies@);
        }
        i = i + 1;
    }
    proof {
        assert(bars@.subrange(0, i as int) =~= bars@);
    }
    if d.position != 0 && bars.len() > 0 {
        let last = bars[bars.len() - 1].close;
        let q: u128 = if d.position > 0 { d.position as u128 } else { (-d.position) as u128 };
        let last_wide: u128 = last as u128;
        let value = match last_wide.checked_mul(q) {
            Some(v) => if v <= MAX_AMOUNT as u128 {
                v
            } else {
                return Err(RustQuantError::Overflow);
            },
            None => {
                return Err(RustQuantError::Overflow);
            },
        };
        let cash = if d.position > 0 { d.cash + value as i128 } else { d.cash - value as i128 };
        if cash < -MAX_AMOUNT || cash > MAX_AMOUNT {
            return Err(RustQuantError::Overflow);
        }
        d = DayBook { cash, position: 0, trades: d.trades };
    }
    Ok(DailyResult { date: date.to_owned(), pnl: d.cash - DAY_STARTING_CASH, trades: d.trades })
}

/// Totals over the results of several days.
#[derive(Debug, Clone, Copy, PartialEq, Eq, Structural)]
pub struct DaySummary {
    pub days: u64,
    pub winning_days: u64,
    pub losing_days: u64,
    pub total_pnl: i128,
    pub total_trades: u64,
}

/// Totals over `results`: days with positive and with negative pnl counted
/// apart; `None` when a total leaves its type.
pub open spec fn day_totals(results: Seq<DailyResult>) -> Option<DaySummary>
    decreases results.len(),
{
    if results.len() == 0 {
        Some(DaySummary { days: 0, winning_days: 0, losing_days: 0, total_pnl: 0, total_trades: 0 })
    } else {
        match day_totals(results.drop_last()) {
            None => None,
            Some(t) => {
                let r = results.last();
                let pnl = t.total_pnl + r.pnl;
                let trades = t.total_trades + r.trades;
                if t.days < u64::MAX && i128::MIN <= pnl <= i128::MAX && trades <= u64::MAX {
                    Some(DaySummary {
                        days: (t.days + 1) as u64,
                        winning_days: if r.pnl > 0 { (t.winning_days + 1) as u64 } else { t.winning_days },
                        losing_days: if r.pnl < 0 { (t.losing_days + 1) as u64 } else { t.losing_days },
                        total_pnl: pnl as i128,
                        total_trades: trades as u64,
                    })
                } else {
                    None
                }
            },
        }
    }
}

proof fn lemma_day_totals_bounded(results: Seq<DailyResult>)
    ensures
        day_totals(results) matches Some(t) ==> t.winning_days <= t.days && t.losing_days <= t.days,
    decreases results.len(),
{
    if results.len() > 0 {
        lemma_day_totals_bounded(results.drop_last());
    }
}

proof fn lemma_day_totals_none_extends(results: Seq<DailyResult>, k: int)
    requires
        0 <= k <= results.len(),
        day_totals(results.subrange(0, k)) is None,
    ensures
        day_totals(results) is None,
    decreases results.len() - k,
{
    if k < results.len() {
        assert(results.subrange(0, k + 1).drop_last() =~= results.subrange(0, k));
        lemma_day_totals_none_extends(results, k + 1);
    } else {
        assert(results.subrange(0, k) =~= results);
    }
}

/// Aggregates daily results: days processed, winning and losing days, total
/// pnl and total trades.
pub fn summarize_days(results: &[DailyResult]) -> (r: Result<DaySummary, RustQuantError>)
    ensures
        match day_totals(results@) {
            Some(t) => r == Ok::<DaySummary, RustQuantError>(t),
            None => r == Err::<DaySummary, RustQuantError>(RustQuantError::Overflow),
        },
{
    let mut t = DaySummary { days: 0, winning_days: 0, losing_days: 0, total_pnl: 0, total_trades: 0 };
    let mut i: usize = 0;
    proof {
        assert(results@.subrange(0, 0) =~= Seq::<DailyResult>::empty());
    }
    while i < results.len()
        invariant
            0 <= i <= results@.len(),
            day_totals(results@.subrange(0, i as int)) == Some(t),
        decreases results@.len() - i,
    {
        proof {
            assert(results@.subrange(0, i + 1).drop_last() =~= results@.subrange(0, i as int));
            assert(results@.subrange(0, i + 1).last() == results@[i as int]);
            lemma_day_totals_bounded(results@.subrange(0, i as int));
        }
        let r = &results[i];
        let pnl = match t.total_pnl.checked_add(r.pnl) {
            Some(p) => p,
            None => {
                proof {
                    lemma_day_totals_none_extends(results@, i + 1);
                }
                return Err(RustQuantError::Overflow);
            },
        };
        let trades = match t.total_trades.checked_add(r.trades) {
            Some(n) => n,
            None => {
                proof {
                    lemma_day_totals_none_extends(results@, i + 1);
                }
                return Err(RustQuantError::Overflow);
            },
        };
        if t.days == u64::MAX {
            proof {
                lemma_day_totals_none_extends(results@, i + 1);
            }
            return Err(RustQuantError::Overflow);
        }
        t = DaySummary {
            days: t.days + 1,
            winning_days: if r.pnl > 0 { t.winning_days + 1 } else { t.winning_days },
            losing_days: if r.pnl < 0 { t.losing_days + 1 } else { t.losing_days },
            total_pnl: pnl,
            total_trades: trades,
        };
        i = i + 1;
    }
    proof {
        assert(results@.subrange(0, i as int) =~= results@);
    }
    Ok(t)
}

} // verus!
