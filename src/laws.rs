use vstd::prelude::*;
use crate::order::{Order, OrderSide};
use crate::bar::Bar;
use crate::backtest::{run_bars, run_from};
use crate::ema_switch::{signal_step, SignalState};
use crate::engine::{
    abs, cash_change, close_step, closing_count, fee_of, fill_price, open_step, intent_step,
    intents_step, square_off_step, opt_seq, same_direction, Book, EngineConfig, ExecutionEngine, Fill, PPM,
};

verus! {

/// Total change of cash that a sequence of fills makes.
pub open spec fn fills_cash(fills: Seq<Fill>) -> int
    decreases fills.len(),
{
    if fills.len() == 0 {
        0
    } else {
        fills_cash(fills.drop_last()) + cash_change(
            fills.last().side,
            fills.last().price * fills.last().quantity,
            fills.last().fee as int,
        )
    }
}

/// A fill moves cash by its own notional and fee and nothing else.
pub open spec fn conserves_cash(cfg: EngineConfig, before: Book, after: Book, f: Fill) -> bool {
    &&& f.fee == fee_of(f.price * f.quantity, cfg.commission_ppm as int)
    &&& after.cash == before.cash + cash_change(f.side, f.price * f.quantity, f.fee as int)
}

proof fn lemma_price_nonneg(side: OrderSide, price: int, slippage: int)
    requires
        0 <= price,
        0 <= slippage <= PPM,
    ensures
        fill_price(side, price, slippage) >= 0,
        price <= u64::MAX ==> fill_price(side, price, slippage) <= 2 * (u64::MAX as int),
{
    assert(price * (PPM + slippage) >= 0) by (nonlinear_arith)
        requires 0 <= price, 0 <= slippage;
    assert(price * (PPM - slippage) >= 0) by (nonlinear_arith)
        requires 0 <= price, slippage <= PPM;
    let factor = match side {
        OrderSide::Buy => PPM + slippage,
        OrderSide::Sell => PPM - slippage,
    };
    assert(price * factor <= (2 * price) * PPM) by (nonlinear_arith)
        requires factor <= 2 * PPM, 0 <= price;
    vstd::arithmetic::div_mod::lemma_div_is_ordered(price * factor, (2 * price) * PPM, PPM as int);
    vstd::arithmetic::div_mod::lemma_div_by_multiple(2 * price, PPM as int);
}

proof fn lemma_fee_nonneg(notional: int, rate: int)
    requires
        0 <= notional,
        0 <= rate,
    ensures
        fee_of(notional, rate) >= 0,
{
    assert(notional * rate >= 0) by (nonlinear_arith)
        requires 0 <= notional, 0 <= rate;
}

proof fn lemma_fills_cash_two(f: Fill, g: Option<Fill>)
    ensures
        fills_cash(seq![f] + opt_seq(g)) == cash_change(f.side, f.price * f.quantity, f.fee as int) + match g {
            Some(x) => cash_change(x.side, x.price * x.quantity, x.fee as int),
            None => 0,
        },
{
    assert(seq![f].drop_last() =~= Seq::<Fill>::empty());
    assert(seq![f].last() == f);
    assert(fills_cash(Seq::<Fill>::empty()) == 0);
    assert(fills_cash(seq![f]) == cash_change(f.side, f.price * f.quantity, f.fee as int));
    match g {
        Some(x) => {
            assert((seq![f] + seq![x]).drop_last() =~= seq![f]);
            assert((seq![f] + seq![x]).last() == x);
        },
        None => {
            assert(seq![f] + Seq::<Fill>::empty() =~= seq![f]);
        },
    }
}

/// Every fill that closes a position moves cash by exactly its notional and
/// fee: a buy pays both, a sell receives the notional less the fee.
pub proof fn lemma_close_conserves_cash(cfg: EngineConfig, b: Book, price: u64, ts: String)
    requires
        cfg.valid(),
        b.ok(),
        b.position != 0,
    ensures
        close_step(cfg, b, price, ts) matches Some((nb, f)) ==> conserves_cash(cfg, b, nb, f),
        close_step(cfg, b, price, ts) matches Some((nb, f)) ==> nb.ok() && nb.position == 0,
{
    let side = if b.position > 0 { OrderSide::Sell } else { OrderSide::Buy };
    lemma_price_nonneg(side, price as int, cfg.slippage_ppm as int);
    let close = fill_price(side, price as int, cfg.slippage_ppm as int);
    assert(close * abs(b.position as int) >= 0) by (nonlinear_arith)
        requires close >= 0, abs(b.position as int) >= 0;
    assert(close <= close * abs(b.position as int)) by (nonlinear_arith)
        requires close >= 0, abs(b.position as int) >= 1;
    lemma_fee_nonneg(close * abs(b.position as int), cfg.commission_ppm as int);
}

/// Every fill that opens a position moves cash by exactly its notional and
/// fee.
pub proof fn lemma_open_conserves_cash(cfg: EngineConfig, b: Book, side: OrderSide, price: u64, ts: String)
    requires
        cfg.valid(),
        b.ok(),
    ensures
        open_step(cfg, b, side, price, ts) matches Some((nb, Some(f))) ==> conserves_cash(cfg, b, nb, f),
        open_step(cfg, b, side, price, ts) matches Some((nb, None)) ==> nb == b,
        open_step(cfg, b, side, price, ts) matches Some((nb, g)) ==> {
            &&& nb.ok()
            &&& nb.wins == b.wins && nb.losses == b.losses && nb.trades == b.trades
            &&& (g matches Some(f) ==> f.pnl is None)
        },
{
    lemma_price_nonneg(side, price as int, cfg.slippage_ppm as int);
    let fp = fill_price(side, price as int, cfg.slippage_ppm as int);
    let q = crate::engine::open_quantity(cfg.sizing, b.cash as int, fp);
    if let crate::engine::Sizing::FullCashDeploy(buffer) = cfg.sizing {
        if b.cash > 0 && fp > 0 {
            assert(b.cash * (PPM - buffer) >= 0) by (nonlinear_arith)
                requires b.cash > 0, buffer <= PPM;
        }
    }
    assert(q >= 0);
    assert(fp * q >= 0) by (nonlinear_arith)
        requires fp >= 0, q >= 0;
    if q >= 1 {
        assert(fp <= fp * q) by (nonlinear_arith)
            requires fp >= 0, q >= 1;
    }
    lemma_fee_nonneg(fp * q, cfg.commission_ppm as int);
}

/// Cash conservation over one intent: cash changes by exactly the sum of what
/// the intent's fills move, and an intent without fills leaves cash alone.
pub proof fn lemma_cash_conservation(cfg: EngineConfig, b: Book, intent: Order)
    requires
        cfg.valid(),
        b.ok(),
    ensures
        intent_step(cfg, b, intent) matches Some((nb, fs)) ==> nb.cash == b.cash + fills_cash(fs),
{
    if b.trades < u64::MAX && !same_direction(intent.side, b.position as int) {
        let counted = Book {
            cash: b.cash,
            position: b.position,
            entry_price: b.entry_price,
            trades: (b.trades + 1) as u64,
            wins: b.wins,
            losses: b.losses,
        };
        if b.position != 0 {
            lemma_close_conserves_cash(cfg, counted, intent.price, intent.timestamp);
            if let Some((closed, f)) = close_step(cfg, counted, intent.price, intent.timestamp) {
                lemma_open_conserves_cash(cfg, closed, intent.side, intent.price, intent.timestamp);
                if let Some((opened, g)) = open_step(cfg, closed, intent.side, intent.price, intent.timestamp) {
                    lemma_fills_cash_two(f, g);
                }
            }
        } else {
            lemma_open_conserves_cash(cfg, counted, intent.side, intent.price, intent.timestamp);
            if let Some((opened, g)) = open_step(cfg, counted, intent.side, intent.price, intent.timestamp) {
                match g {
                    Some(x) => {
                        assert(seq![x].drop_last() =~= Seq::<Fill>::empty());
                        assert(seq![x].last() == x);
                        assert(fills_cash(Seq::<Fill>::empty()) == 0);
                    },
                    None => {},
                }
            }
        }
    }
}

/// Win/loss classification: a closing fill with positive realized profit
/// counts one win, any other closing fill counts one loss, and nothing else
/// about the counters changes.
pub proof fn lemma_win_loss_classification(cfg: EngineConfig, b: Book, price: u64, ts: String)
    requires
        cfg.valid(),
        b.ok(),
        b.position != 0,
    ensures
        close_step(cfg, b, price, ts) matches Some((nb, f)) ==> {
            &&& f.pnl is Some
            &&& f.pnl->0 > 0 ==> nb.wins == b.wins + 1 && nb.losses == b.losses
            &&& f.pnl->0 <= 0 ==> nb.losses == b.losses + 1 && nb.wins == b.wins
            &&& nb.trades == b.trades
        },
{
    let side = if b.position > 0 { OrderSide::Sell } else { OrderSide::Buy };
    lemma_price_nonneg(side, price as int, cfg.slippage_ppm as int);
    let close = fill_price(side, price as int, cfg.slippage_ppm as int);
    let q = abs(b.position as int);
    assert(close <= close * q) by (nonlinear_arith)
        requires close >= 0, q >= 1;
    assert(b.entry_price <= b.entry_price * q) by (nonlinear_arith)
        requires b.entry_price >= 0, q >= 1;
    vstd::arithmetic::mul::lemma_mul_is_distributive_sub_other_way(q, close, b.entry_price as int);
    vstd::arithmetic::mul::lemma_mul_is_distributive_sub_other_way(q, b.entry_price as int, close);
}

/// Square-off is idempotent: on a flat book it does nothing, and after one
/// square-off a second one emits no fill and changes nothing.
pub proof fn lemma_square_off_idempotent(cfg: EngineConfig, b: Book, price: u64, ts: String, price2: u64, ts2: String)
    requires
        cfg.valid(),
        b.ok(),
    ensures
        b.position == 0 ==> square_off_step(cfg, b, price, ts) == Some((b, Seq::<Fill>::empty())),
        square_off_step(cfg, b, price, ts) matches Some((nb, fs)) ==> {
            &&& nb.position == 0
            &&& square_off_step(cfg, nb, price2, ts2) == Some((nb, Seq::<Fill>::empty()))
        },
{
}

/// At most one open lot: an intent pointing the way the position already
/// points is skipped without touching position or entry price; an opposing
/// intent first closes the whole position, and a lot it opens points its way
/// at the price of its opening fill.
pub proof fn lemma_one_open_lot(cfg: EngineConfig, b: Book, intent: Order)
    requires
        cfg.valid(),
        b.ok(),
    ensures
        intent_step(cfg, b, intent) matches Some((nb, fs)) ==> {
            &&& same_direction(intent.side, b.position as int) ==> {
                &&& nb.position == b.position
                &&& nb.entry_price == b.entry_price
                &&& fs.len() == 0
            }
            &&& !same_direction(intent.side, b.position as int) && b.position != 0 ==> {
                &&& fs.len() >= 1
                &&& fs[0].pnl is Some
                &&& fs[0].quantity == abs(b.position as int)
                &&& fs[0].side == intent.side
            }
            &&& !same_direction(intent.side, b.position as int) ==> {
                ||| nb.position == 0
                ||| {
                    &&& fs.len() >= 1
                    &&& (if intent.side == OrderSide::Buy { nb.position > 0 } else { nb.position < 0 })
                    &&& nb.entry_price == fs.last().price
                    &&& abs(nb.position as int) == fs.last().quantity
                    &&& fs.last().pnl is None
                }
            }
        },
{
    if b.trades < u64::MAX && !same_direction(intent.side, b.position as int) {
        let counted = Book {
            cash: b.cash,
            position: b.position,
            entry_price: b.entry_price,
            trades: (b.trades + 1) as u64,
            wins: b.wins,
            losses: b.losses,
        };
        if b.position != 0 {
            lemma_close_conserves_cash(cfg, counted, intent.price, intent.timestamp);
            if let Some((closed, f)) = close_step(cfg, counted, intent.price, intent.timestamp) {
                lemma_open_conserves_cash(cfg, closed, intent.side, intent.price, intent.timestamp);
                if let Some((opened, g)) = open_step(cfg, closed, intent.side, intent.price, intent.timestamp) {
                    if let Some(x) = g {
                        assert((seq![f] + seq![x]).last() == x);
                        assert((seq![f] + seq![x])[0] == f);
                    } else {
                        assert((seq![f] + Seq::<Fill>::empty())[0] == f);
                    }
                }
            }
        } else {
            lemma_open_conserves_cash(cfg, counted, intent.side, intent.price, intent.timestamp);
        }
    }
}

proof fn lemma_closing_count_bounded(fills: Seq<Fill>)
    ensures
        closing_count(fills) <= fills.len(),
    decreases fills.len(),
{
    if fills.len() > 0 {
        lemma_closing_count_bounded(fills.drop_last());
    }
}

/// Wins and losses of a run together count exactly its closing fills, so they
/// never exceed the fills in its log.
pub proof fn lemma_counts_match_closing_fills(e: ExecutionEngine)
    requires
        e.wf(),
    ensures
        e.book.wins + e.book.losses == closing_count(e.fills@),
        e.book.wins + e.book.losses <= e.fills@.len(),
{
    lemma_closing_count_bounded(e.fills@);
}

/// A run over no bars emits no fill and leaves the book alone; a run over at
/// least one bar ends flat, whichever way the last position pointed.
pub proof fn lemma_run_ends_flat(cfg: EngineConfig, st: SignalState, b: Book, bars: Seq<Bar>)
    requires
        cfg.valid(),
        b.ok(),
    ensures
        bars.len() == 0 ==> run_from(cfg, st, b, bars) == Some((st, b, Seq::<Fill>::empty())),
        bars.len() > 0 ==> (run_from(cfg, st, b, bars) matches Some((_, nb, _)) ==> nb.position == 0),
{
}

proof fn lemma_fills_cash_append(a: Seq<Fill>, b: Seq<Fill>)
    ensures
        fills_cash(a + b) == fills_cash(a) + fills_cash(b),
    decreases b.len(),
{
    if b.len() == 0 {
        assert(a + b =~= a);
    } else {
        assert((a + b).drop_last() =~= a + b.drop_last());
        lemma_fills_cash_append(a, b.drop_last());
    }
}

proof fn lemma_closing_count_append(a: Seq<Fill>, b: Seq<Fill>)
    ensures
        closing_count(a + b) == closing_count(a) + closing_count(b),
    decreases b.len(),
{
    if b.len() == 0 {
        assert(a + b =~= a);
    } else {
        assert((a + b).drop_last() =~= a + b.drop_last());
        lemma_closing_count_append(a, b.drop_last());
    }
}

proof fn lemma_closing_count_one(f: Fill)
    ensures
        closing_count(seq![f]) == if f.pnl is Some { 1nat } else { 0nat },
{
    assert(seq![f].drop_last() =~= Seq::<Fill>::empty());
    assert(seq![f].last() == f);
    assert(closing_count(Seq::<Fill>::empty()) == 0);
}

/// One intent keeps the book in bounds, counts once, and adds to wins plus
/// losses exactly the closing fills it emits.
pub proof fn lemma_intent_counts(cfg: EngineConfig, b: Book, intent: Order)
    requires
        cfg.valid(),
        b.ok(),
    ensures
        intent_step(cfg, b, intent) matches Some((nb, fs)) ==> {
            &&& nb.ok()
            &&& nb.trades == b.trades + 1
            &&& nb.wins + nb.losses == b.wins + b.losses + closing_count(fs)
        },
{
    lemma_cash_conservation(cfg, b, intent);
    if b.trades < u64::MAX && !same_direction(intent.side, b.position as int) {
        let counted = Book {
            cash: b.cash,
            position: b.position,
            entry_price: b.entry_price,
            trades: (b.trades + 1) as u64,
            wins: b.wins,
            losses: b.losses,
        };
        if b.position != 0 {
            lemma_close_conserves_cash(cfg, counted, intent.price, intent.timestamp);
            lemma_win_loss_classification(cfg, counted, intent.price, intent.timestamp);
            if let Some((closed, f)) = close_step(cfg, counted, intent.price, intent.timestamp) {
                lemma_open_conserves_cash(cfg, closed, intent.side, intent.price, intent.timestamp);
                if let Some((opened, g)) = open_step(cfg, closed, intent.side, intent.price, intent.timestamp) {
                    lemma_closing_count_append(seq![f], opt_seq(g));
                    lemma_closing_count_one(f);
                    if let Some(x) = g {
                        lemma_closing_count_one(x);
                    }
                }
            }
        } else {
            lemma_open_conserves_cash(cfg, counted, intent.side, intent.price, intent.timestamp);
            if let Some((opened, g)) = open_step(cfg, counted, intent.side, intent.price, intent.timestamp) {
                if let Some(x) = g {
                    lemma_closing_count_one(x);
                }
            }
        }
    }
}

/// The intents of one bar, applied in order: cash moves by exactly what their
/// fills move, and wins plus losses grow by exactly their closing fills.
pub proof fn lemma_intents_conserve(cfg: EngineConfig, b: Book, intents: Seq<Order>)
    requires
        cfg.valid(),
        b.ok(),
    ensures
        intents_step(cfg, b, intents) matches Some((nb, fs)) ==> {
            &&& nb.ok()
            &&& nb.cash == b.cash + fills_cash(fs)
            &&& nb.wins + nb.losses == b.wins + b.losses + closing_count(fs)
        },
    decreases intents.len(),
{
    if intents.len() > 0 {
        lemma_intents_conserve(cfg, b, intents.drop_last());
        if let Some((mid, fs)) = intents_step(cfg, b, intents.drop_last()) {
            lemma_cash_conservation(cfg, mid, intents.last());
            lemma_intent_counts(cfg, mid, intents.last());
            if let Some((nb, gs)) = intent_step(cfg, mid, intents.last()) {
                lemma_fills_cash_append(fs, gs);
                lemma_closing_count_append(fs, gs);
            }
        }
    } else {
        assert(fills_cash(Seq::<Fill>::empty()) == 0);
    }
}

proof fn lemma_run_bars_conserve(cfg: EngineConfig, st: SignalState, b: Book, bars: Seq<Bar>)
    requires
        cfg.valid(),
        b.ok(),
    ensures
        run_bars(cfg, st, b, bars) matches Some((_, nb, fs)) ==> {
            &&& nb.ok()
            &&& nb.cash == b.cash + fills_cash(fs)
            &&& nb.wins + nb.losses == b.wins + b.losses + closing_count(fs)
        },
    decreases bars.len(),
{
    if bars.len() > 0 {
        lemma_run_bars_conserve(cfg, st, b, bars.drop_last());
        if let Some((s1, b1, fs)) = run_bars(cfg, st, b, bars.drop_last()) {
            let (s2, intents) = signal_step(s1, bars.last());
            lemma_intents_conserve(cfg, b1, intents);
            if let Some((b2, gs)) = intents_step(cfg, b1, intents) {
                lemma_fills_cash_append(fs, gs);
                lemma_closing_count_append(fs, gs);
            }
        }
    } else {
        assert(fills_cash(Seq::<Fill>::empty()) == 0);
    }
}

/// Over a whole run, square-off included, the ending cash is the starting
/// cash plus exactly what the run's fills move, and wins plus losses count
/// exactly the run's closing fills.
pub proof fn lemma_run_conserves(cfg: EngineConfig, st: SignalState, b: Book, bars: Seq<Bar>)
    requires
        cfg.valid(),
        b.ok(),
    ensures
        run_from(cfg, st, b, bars) matches Some((_, nb, fs)) ==> {
            &&& nb.cash == b.cash + fills_cash(fs)
            &&& nb.wins + nb.losses == b.wins + b.losses + closing_count(fs)
        },
{
    lemma_run_bars_conserve(cfg, st, b, bars);
    if let Some((s1, b1, fs)) = run_bars(cfg, st, b, bars) {
        if bars.len() > 0 && b1.position != 0 {
            lemma_close_conserves_cash(cfg, b1, bars.last().close, bars.last().timestamp);
            lemma_win_loss_classification(cfg, b1, bars.last().close, bars.last().timestamp);
            if let Some((b2, f)) = close_step(cfg, b1, bars.last().close, bars.last().timestamp) {
                lemma_fills_cash_append(fs, seq![f]);
                lemma_closing_count_append(fs, seq![f]);
                lemma_closing_count_one(f);
                assert(seq![f].drop_last() =~= Seq::<Fill>::empty());
                assert(seq![f].last() == f);
                assert(fills_cash(Seq::<Fill>::empty()) == 0);
            }
        } else if bars.len() > 0 {
            assert(fs + Seq::<Fill>::empty() =~= fs);
        }
    }
}

} // verus!
