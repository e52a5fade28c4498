use vstd::prelude::*;
use vstd::arithmetic::div_mod::{lemma_div_is_ordered, lemma_div_by_multiple};
use vstd::arithmetic::mul::{lemma_mul_inequality, lemma_mul_is_distributive_sub_other_way};
use crate::bar::Bar;
use crate::order::{Order, OrderSide};
use crate::error::RustQuantError;

verus! {

/// Rates are given in parts per million.
pub const PPM: u64 = 1_000_000;

/// Largest magnitude of cash, notional or position the engine tracks (2^100).
pub const MAX_AMOUNT: i128 = 1267650600228229401496703205376;

/// How many lots an opening fill takes.
#[derive(Debug, Clone, Copy, PartialEq, Eq, Structural)]
pub enum Sizing {
    /// Always the given number of lots.
    FixedQuantity(u64),
    /// As many lots as the cash buys, after keeping aside the given fraction
    /// (in parts per million) of it.
    FullCashDeploy(u64),
}

/// Configuration of the execution engine.
#[derive(Debug, Clone, Copy, PartialEq, Eq, Structural)]
pub struct EngineConfig {
    pub starting_cash: i128,
    pub commission_ppm: u64,
    pub slippage_ppm: u64,
    pub sizing: Sizing,
    /// If present, a new long position is not opened when cash would fall
    /// below this after the trade.
    pub min_cash_threshold: Option<i128>,
}

/// Cash, position and counters of a run.
#[derive(Debug, Clone, Copy, PartialEq, Eq, Structural)]
pub struct Book {
    pub cash: i128,
    /// Signed quantity in lots: positive long, negative short, zero flat.
    pub position: i128,
    /// Executed price of the open lot.
    pub entry_price: u128,
    pub trades: u64,
    pub wins: u64,
    pub losses: u64,
}

/// The economic result of executing an intent.
#[derive(Debug, Clone)]
pub struct Fill {
    pub side: OrderSide,
    pub price: u128,
    pub quantity: u128,
    pub timestamp: String,
    pub fee: u128,
    /// Realized profit or loss, for a fill that closes a position.
    pub pnl: Option<i128>,
}

pub open spec fn abs(x: int) -> int {
    if x < 0 {
        -x
    } else {
        x
    }
}

pub open spec fn amount_ok(x: int) -> bool {
    -MAX_AMOUNT <= x <= MAX_AMOUNT
}

/// Reference price worsened by slippage: buys fill higher, sells lower.
pub open spec fn fill_price(side: OrderSide, price: int, slippage: int) -> int {
    match side {
        OrderSide::Buy => price * (PPM + slippage) / PPM as int,
        OrderSide::Sell => price * (PPM - slippage) / PPM as int,
    }
}

/// Commission charged on a notional.
pub open spec fn fee_of(notional: int, rate: int) -> int {
    notional * rate / PPM as int
}

/// Change of cash by a fill: a buy pays notional and fee, a sell receives the
/// notional less the fee.
pub open spec fn cash_change(side: OrderSide, notional: int, fee: int) -> int {
    match side {
        OrderSide::Buy => -(notional + fee),
        OrderSide::Sell => notional - fee,
    }
}

/// Side of the fill that closes a position.
pub open spec fn closing_side(position: int) -> OrderSide {
    if position > 0 {
        OrderSide::Sell
    } else {
        OrderSide::Buy
    }
}

/// Profit of closing `quantity` lots at `close` that were opened at `entry`.
pub open spec fn realized_pnl(position: int, entry: int, close: int) -> int {
    if position > 0 {
        (close - entry) * abs(position)
    } else {
        (entry - close) * abs(position)
    }
}

/// Number of fills that closed a position.
pub open spec fn closing_count(fills: Seq<Fill>) -> nat
    decreases fills.len(),
{
    if fills.len() == 0 {
        0
    } else {
        closing_count(fills.drop_last()) + if fills.last().pnl is Some {
            1nat
        } else {
            0nat
        }
    }
}

impl EngineConfig {
    pub open spec fn valid(&self) -> bool {
        &&& 0 < self.starting_cash <= MAX_AMOUNT
        &&& self.commission_ppm <= PPM
        &&& self.slippage_ppm <= PPM
        &&& match self.sizing {
            Sizing::FixedQuantity(_) => true,
            Sizing::FullCashDeploy(buffer) => buffer <= PPM,
        }
    }
}

impl Book {
    /// Bounds every book of a run keeps.
    pub open spec fn ok(&self) -> bool {
        &&& amount_ok(self.cash as int)
        &&& self.entry_price <= 2 * (u64::MAX as int)
        &&& abs(self.position as int) <= MAX_AMOUNT
        &&& self.entry_price * abs(self.position as int) <= MAX_AMOUNT
    }
}

/// Quantity of a new position.
pub open spec fn open_quantity(sizing: Sizing, cash: int, price: int) -> int {
    match sizing {
        Sizing::FixedQuantity(n) => n as int,
        Sizing::FullCashDeploy(buffer) => if cash > 0 && price > 0 {
            (cash * (PPM - buffer) / PPM as int) / price
        } else {
            0
        },
    }
}

/// Closes the open position at reference `price`; `None` when an amount or a
/// count leaves its range.
pub open spec fn close_step(cfg: EngineConfig, b: Book, price: u64, ts: String) -> Option<(Book, Fill)> {
    let side = closing_side(b.position as int);
    let close = fill_price(side, price as int, cfg.slippage_ppm as int);
    let q = abs(b.position as int);
    let notional = close * q;
    let fee = fee_of(notional, cfg.commission_ppm as int);
    let cash = b.cash + cash_change(side, notional, fee);
    let pnl = realized_pnl(b.position as int, b.entry_price as int, close);
    if notional <= MAX_AMOUNT && amount_ok(cash) && b.wins + b.losses < u64::MAX {
        Some((
            Book {
                cash: cash as i128,
                position: 0,
                entry_price: 0,
                trades: b.trades,
                wins: if pnl > 0 { (b.wins + 1) as u64 } else { b.wins },
                losses: if pnl > 0 { b.losses } else { (b.losses + 1) as u64 },
            },
            Fill {
                side,
                price: close as u128,
                quantity: q as u128,
                timestamp: ts,
                fee: fee as u128,
                pnl: Some(pnl as i128),
            },
        ))
    } else {
        None
    }
}

/// Opens a new position on `side` from a flat book; the fill is absent when
/// the computed quantity is zero or the cash threshold forbids the long.
pub open spec fn open_step(cfg: EngineConfig, b: Book, side: OrderSide, price: u64, ts: String) -> Option<(Book, Option<Fill>)> {
    let fp = fill_price(side, price as int, cfg.slippage_ppm as int);
    let q = open_quantity(cfg.sizing, b.cash as int, fp);
    let notional = fp * q;
    let fee = fee_of(notional, cfg.commission_ppm as int);
    let cash = b.cash + cash_change(side, notional, fee);
    if q == 0 {
        Some((b, None))
    } else if notional > MAX_AMOUNT || q > MAX_AMOUNT {
        None
    } else if side == OrderSide::Buy && cfg.min_cash_threshold is Some && cash < cfg.min_cash_threshold->0 {
        Some((b, None))
    } else if !amount_ok(cash) {
        None
    } else {
        Some((
            Book {
                cash: cash as i128,
                position: (if side == OrderSide::Buy { q } else { -q }) as i128,
                entry_price: fp as u128,
                trades: b.trades,
                wins: b.wins,
                losses: b.losses,
            },
            Some(Fill { side, price: fp as u128, quantity: q as u128, timestamp: ts, fee: fee as u128, pnl: None }),
        ))
    }
}

pub open spec fn opt_seq(f: Option<Fill>) -> Seq<Fill> {
    match f {
        Some(x) => seq![x],
        None => Seq::empty(),
    }
}

/// Whether an intent on `side` points the way the position already points.
pub open spec fn same_direction(side: OrderSide, position: int) -> bool {
    (side == OrderSide::Buy && position > 0) || (side == OrderSide::Sell && position < 0)
}

/// Applies one intent: counts it, skips it when the position already points
/// its way, otherwise closes an opposing position and opens a new one.
pub open spec fn intent_step(cfg: EngineConfig, b: Book, intent: Order) -> Option<(Book, Seq<Fill>)> {
    if b.trades >= u64::MAX {
        None
    } else {
        let counted = Book {
            cash: b.cash,
            position: b.position,
            entry_price: b.entry_price,
            trades: (b.trades + 1) as u64,
            wins: b.wins,
            losses: b.losses,
        };
        if same_direction(intent.side, b.position as int) {
            Some((counted, Seq::empty()))
        } else if b.position != 0 {
            match close_step(cfg, counted, intent.price, intent.timestamp) {
                None => None,
                Some((closed, f)) => match open_step(cfg, closed, intent.side, intent.price, intent.timestamp) {
                    None => None,
                    Some((opened, g)) => Some((opened, seq![f] + opt_seq(g))),
                },
            }
        } else {
            match open_step(cfg, counted, intent.side, intent.price, intent.timestamp) {
                None => None,
                Some((opened, g)) => Some((opened, opt_seq(g))),
            }
        }
    }
}

/// Closes any open position at the close `price` of the last bar.
pub open spec fn square_off_step(cfg: EngineConfig, b: Book, price: u64, ts: String) -> Option<(Book, Seq<Fill>)> {
    if b.position == 0 {
        Some((b, Seq::empty()))
    } else {
        match close_step(cfg, b, price, ts) {
            None => None,
            Some((closed, f)) => Some((closed, seq![f])),
        }
    }
}

/// Executed price of a fill on `side` at reference `price`.
fn fill_price_of(side: OrderSide, price: u64, slippage: u64) -> (r: u128)
    requires
        slippage <= PPM,
    ensures
        r == fill_price(side, price as int, slippage as int),
        r <= 2 * (u64::MAX as int),
{
    let factor: u128 = match side {
        OrderSide::Buy => PPM as u128 + slippage as u128,
        OrderSide::Sell => PPM as u128 - slippage as u128,
    };
    proof {
        assert(price as int * factor <= (2 * price as int) * PPM) by (nonlinear_arith)
            requires factor <= 2 * PPM, 0 <= price;
        lemma_div_is_ordered(price as int * factor, (2 * price as int) * PPM, PPM as int);
        lemma_div_by_multiple(2 * price as int, PPM as int);
        assert(price as int * factor <= u64::MAX as int * 2000000) by (nonlinear_arith)
            requires factor <= 2000000, 0 <= price <= u64::MAX;
    }
    (price as u128 * factor) / PPM as u128
}

/// Commission on a notional.
fn fee_for(notional: u128, rate: u64) -> (r: u128)
    requires
        notional <= MAX_AMOUNT,
        rate <= PPM,
    ensures
        r == fee_of(notional as int, rate as int),
        r <= notional,
{
    proof {
        assert(notional * rate <= notional * PPM) by (nonlinear_arith)
            requires rate <= PPM, 0 <= notional;
        lemma_div_is_ordered(notional * rate, notional * PPM, PPM as int);
        lemma_div_by_multiple(notional as int, PPM as int);
        assert(notional * rate <= MAX_AMOUNT * 1000000) by (nonlinear_arith)
            requires rate <= 1000000, 0 <= notional <= MAX_AMOUNT;
    }
    notional * rate as u128 / PPM as u128
}

/// `price * quantity`, when it is at most `MAX_AMOUNT`.
fn bounded_product(price: u128, quantity: u128) -> (r: Option<u128>)
    ensures
        r is Some <==> price * quantity <= MAX_AMOUNT,
        r is Some ==> r->0 == price * quantity,
{
    match price.checked_mul(quantity) {
        Some(n) => if n <= MAX_AMOUNT as u128 {
            Some(n)
        } else {
            None
        },
        None => None,
    }
}

/// Exec form of `close_step`.
fn close_fill(cfg: &EngineConfig, b: Book, price: u64, ts: &String) -> (r: Option<(Book, Fill)>)
    requires
        cfg.valid(),
        b.ok(),
        b.position != 0,
    ensures
        r == close_step(*cfg, b, price, *ts),
        r matches Some((nb, f)) ==> nb.ok() && f.pnl is Some,
{
    let side = if b.position > 0 { OrderSide::Sell } else { OrderSide::Buy };
    let close = fill_price_of(side, price, cfg.slippage_ppm);
    let q: u128 = if b.position > 0 { b.position as u128 } else { (-b.position) as u128 };
    let notional = match bounded_product(close, q) {
        Some(n) => n,
        None => return None,
    };
    let fee = fee_for(notional, cfg.commission_ppm);
    let cash: i128 = match side {
        OrderSide::Buy => b.cash - notional as i128 - fee as i128,
        OrderSide::Sell => b.cash + notional as i128 - fee as i128,
    };
    if cash < -MAX_AMOUNT || cash > MAX_AMOUNT || b.wins as u128 + b.losses as u128 >= u64::MAX as u128 {
        return None;
    }
    let entry_notional: u128 = b.entry_price * q;
    proof {
        lemma_mul_is_distributive_sub_other_way(q as int, close as int, b.entry_price as int);
        lemma_mul_is_distributive_sub_other_way(q as int, b.entry_price as int, close as int);
    }
    let pnl: i128 = if b.position > 0 {
        notional as i128 - entry_notional as i128
    } else {
        entry_notional as i128 - notional as i128
    };
    let wins = if pnl > 0 { b.wins + 1 } else { b.wins };
    let losses = if pnl > 0 { b.losses } else { b.losses + 1 };
    Some((
        Book { cash, position: 0, entry_price: 0, trades: b.trades, wins, losses },
        Fill { side, price: close, quantity: q, timestamp: ts.clone(), fee, pnl: Some(pnl) },
    ))
}

/// Exec form of `open_step`.
fn open_fill(cfg: &EngineConfig, b: Book, side: OrderSide, price: u64, ts: &String) -> (r: Option<(Book, Option<Fill>)>)
    requires
        cfg.valid(),
        b.ok(),
        b.position == 0,
    ensures
        r == open_step(*cfg, b, side, price, *ts),
        r matches Some((nb, g)) ==> nb.ok() && (g matches Some(f) ==> f.pnl is None),
{
    let fp = fill_price_of(side, price, cfg.slippage_ppm);
    let q: u128 = match cfg.sizing {
        Sizing::FixedQuantity(n) => n as u128,
        Sizing::FullCashDeploy(buffer) => if b.cash > 0 && fp > 0 {
            proof {
                assert(b.cash * (PPM - buffer) <= MAX_AMOUNT * 1000000) by (nonlinear_arith)
                    requires 0 < b.cash <= MAX_AMOUNT, 0 <= PPM - buffer <= 1000000;
            }
            ((b.cash as u128) * (PPM - buffer) as u128 / PPM as u128) / fp
        } else {
            0
        },
    };
    if q == 0 {
        return Some((b, None));
    }
    let notional = match bounded_product(fp, q) {
        Some(n) => n,
        None => return None,
    };
    if q > MAX_AMOUNT as u128 {
        return None;
    }
    let fee = fee_for(notional, cfg.commission_ppm);
    let cash: i128 = match side {
        OrderSide::Buy => b.cash - notional as i128 - fee as i128,
        OrderSide::Sell => b.cash + notional as i128 - fee as i128,
    };
    if side == OrderSide::Buy {
        match cfg.min_cash_threshold {
            Some(m) => if cash < m {
                return Some((b, None));
            },
            None => {},
        }
    }
    if cash < -MAX_AMOUNT || cash > MAX_AMOUNT {
        return None;
    }
    let position: i128 = if side == OrderSide::Buy { q as i128 } else { -(q as i128) };
    Some((
        Book { cash, position, entry_price: fp, trades: b.trades, wins: b.wins, losses: b.losses },
        Some(Fill { side, price: fp, quantity: q, timestamp: ts.clone(), fee, pnl: None }),
    ))
}

/// Applies intents in emission order, stopping at the first `None`.
pub open spec fn intents_step(cfg: EngineConfig, b: Book, intents: Seq<Order>) -> Option<(Book, Seq<Fill>)>
    decreases intents.len(),
{
    if intents.len() == 0 {
        Some((b, Seq::empty()))
    } else {
        match intents_step(cfg, b, intents.drop_last()) {
            None => None,
            Some((mid, fs)) => match intent_step(cfg, mid, intents.last()) {
                None => None,
                Some((nb, gs)) => Some((nb, fs + gs)),
            },
        }
    }
}

proof fn lemma_intents_none_extends(cfg: EngineConfig, b: Book, intents: Seq<Order>, k: int)
    requires
        0 <= k <= intents.len(),
        intents_step(cfg, b, intents.subrange(0, k)) is None,
    ensures
        intents_step(cfg, b, intents) is None,
    decreases intents.len() - k,
{
    if k < intents.len() {
        assert(intents.subrange(0, k + 1).drop_last() =~= intents.subrange(0, k));
        lemma_intents_none_extends(cfg, b, intents, k + 1);
    } else {
        assert(intents.subrange(0, k) =~= intents);
    }
}

proof fn lemma_closing_count_push(fills: Seq<Fill>, f: Fill)
    ensures
        closing_count(fills.push(f)) == closing_count(fills) + if f.pnl is Some {
            1nat
        } else {
            0nat
        },
{
    assert(fills.push(f).drop_last() =~= fills);
}

/// Summary of a finished run.
#[derive(Debug, Clone, Copy, PartialEq, Eq, Structural)]
pub struct RunSummary {
    pub starting_cash: i128,
    pub ending_cash: i128,
    pub net_pnl: i128,
    pub trades: u64,
    pub wins: u64,
    pub losses: u64,
    /// Wins per loss in parts per million; absent when there was no loss.
    pub win_loss_ratio_ppm: Option<u128>,
}

/// Summary of a run whose book is `b`.
pub open spec fn summary_of(cfg: EngineConfig, b: Book) -> RunSummary {
    RunSummary {
        starting_cash: cfg.starting_cash,
        ending_cash: b.cash,
        net_pnl: (b.cash - cfg.starting_cash) as i128,
        trades: b.trades,
        wins: b.wins,
        losses: b.losses,
        win_loss_ratio_ppm: if b.losses > 0 {
            Some((b.wins * PPM / b.losses as int) as u128)
        } else {
            None
        },
    }
}

/// Book of a fresh engine.
pub open spec fn initial_book(cfg: EngineConfig) -> Book {
    Book { cash: cfg.starting_cash, position: 0, entry_price: 0, trades: 0, wins: 0, losses: 0 }
}

/// Turns intents into fills and keeps cash, position, counters and the
/// ordered log of fills.
pub struct ExecutionEngine {
    pub config: EngineConfig,
    pub book: Book,
    pub fills: Vec<Fill>,
}

impl ExecutionEngine {
    pub open spec fn wf(&self) -> bool {
        &&& self.config.valid()
        &&& self.book.ok()
        &&& self.book.wins + self.book.losses == closing_count(self.fills@)
    }

    /// A flat engine holding the starting cash; a configuration out of range
    /// is rejected.
    pub fn new(config: EngineConfig) -> (r: Result<Self, RustQuantError>)
        ensures
            r is Ok <==> config.valid(),
            r is Err ==> r == Err::<Self, RustQuantError>(RustQuantError::InvalidConfig),
            r matches Ok(e) ==> {
                &&& e.wf()
                &&& e.config == config
                &&& e.book == initial_book(config)
                &&& e.fills@.len() == 0
            },
    {
        let sizing_ok = match config.sizing {
            Sizing::FixedQuantity(_) => true,
            Sizing::FullCashDeploy(buffer) => buffer <= PPM,
        };
        if config.starting_cash <= 0 || config.starting_cash > MAX_AMOUNT || config.commission_ppm > PPM
            || config.slippage_ppm > PPM || !sizing_ok {
            return Err(RustQuantError::InvalidConfig);
        }
        Ok(ExecutionEngine {
            config,
            book: Book { cash: config.starting_cash, position: 0, entry_price: 0, trades: 0, wins: 0, losses: 0 },
            fills: Vec::new(),
        })
    }

    /// Applies one intent; on `Overflow` nothing changes.
    pub fn apply(&mut self, intent: &Order) -> (r: Result<(), RustQuantError>)
        requires
            old(self).wf(),
        ensures
            final(self).wf(),
            final(self).config == old(self).config,
            match intent_step(old(self).config, old(self).book, *intent) {
                Some((nb, fs)) => {
                    &&& r is Ok
                    &&& final(self).book == nb
                    &&& final(self).fills@ == old(self).fills@ + fs
                },
                None => {
                    &&& r == Err::<(), RustQuantError>(RustQuantError::Overflow)
                    &&& final(self).book == old(self).book
                    &&& final(self).fills@ == old(self).fills@
                },
            },
    {
        let b = self.book;
        if b.trades == u64::MAX {
            return Err(RustQuantError::Overflow);
        }
        let counted = Book {
            cash: b.cash,
            position: b.position,
            entry_price: b.entry_price,
            trades: b.trades + 1,
            wins: b.wins,
            losses: b.losses,
        };
        let same = match intent.side {
            OrderSide::Buy => b.position > 0,
            OrderSide::Sell => b.position < 0,
        };
        if same {
            self.book = counted;
            return Ok(());
        }
        let mut current = counted;
        let mut closed: Option<Fill> = None;
        if b.position != 0 {
            match close_fill(&self.config, counted, intent.price, &intent.timestamp) {
                Some((nb, f)) => {
                    current = nb;
                    closed = Some(f);
                },
                None => {
                    return Err(RustQuantError::Overflow);
                },
            }
        }
        match open_fill(&self.config, current, intent.side, intent.price, &intent.timestamp) {
            Some((nb, opened)) => {
                self.book = nb;
                match closed {
                    Some(f) => {
                        proof {
                            lemma_closing_count_push(self.fills@, f);
                        }
                        self.fills.push(f);
                    },
                    None => {},
                }
                match opened {
                    Some(f) => {
                        proof {
                            lemma_closing_count_push(self.fills@, f);
                        }
                        self.fills.push(f);
                    },
                    None => {},
                }
                proof {
                    if b.position != 0 {
                        assert(self.fills@ =~= old(self).fills@ + (seq![closed->0] + opt_seq(opened)));
                    } else {
                        assert(self.fills@ =~= old(self).fills@ + opt_seq(opened));
                    }
                }
                Ok(())
            },
            None => Err(RustQuantError::Overflow),
        }
    }

    /// Closes any open position against the last bar; on `Overflow` nothing
    /// changes.
    pub fn square_off(&mut self, bar: &Bar) -> (r: Result<(), RustQuantError>)
        requires
            old(self).wf(),
        ensures
            final(self).wf(),
            final(self).config == old(self).config,
            match square_off_step(old(self).config, old(self).book, bar.close, bar.timestamp) {
                Some((nb, fs)) => {
                    &&& r is Ok
                    &&& final(self).book == nb
                    &&& final(self).fills@ == old(self).fills@ + fs
                },
                None => {
                    &&& r == Err::<(), RustQuantError>(RustQuantError::Overflow)
                    &&& final(self).book == old(self).book
                    &&& final(self).fills@ == old(self).fills@
                },
            },
    {
        if self.book.position == 0 {
            proof {
                assert(self.fills@ =~= old(self).fills@ + Seq::<Fill>::empty());
            }
            return Ok(());
        }
        match close_fill(&self.config, self.book, bar.close, &bar.timestamp) {
            Some((nb, f)) => {
                proof {
                    lemma_closing_count_push(self.fills@, f);
                }
                self.book = nb;
                self.fills.push(f);
                proof {
                    assert(self.fills@ =~= old(self).fills@ + seq![f]);
                }
                Ok(())
            },
            None => Err(RustQuantError::Overflow),
        }
    }

    /// Applies the intents of one bar in emission order; on `Overflow` the
    /// intents before the failing one stay applied.
    pub fn apply_all(&mut self, intents: &Vec<Order>) -> (r: Result<(), RustQuantError>)
        requires
            old(self).wf(),
        ensures
            final(self).wf(),
            final(self).config == old(self).config,
            match intents_step(old(self).config, old(self).book, intents@) {
                Some((nb, fs)) => {
                    &&& r is Ok
                    &&& final(self).book == nb
                    &&& final(self).fills@ == old(self).fills@ + fs
                },
                None => r == Err::<(), RustQuantError>(RustQuantError::Overflow),
            },
    {
        let ghost log: Seq<Fill> = Seq::empty();
        let mut i: usize = 0;
        proof {
            assert(intents@.subrange(0, 0) =~= Seq::<Order>::empty());
            assert(self.fills@ =~= old(self).fills@ + log);
        }
        while i < intents.len()
            invariant
                0 <= i <= intents@.len(),
                self.wf(),
                self.config == old(self).config,
                intents_step(self.config, old(self).book, intents@.subrange(0, i as int)) == Some((self.book, log)),
                self.fills@ == old(self).fills@ + log,
            decreases intents@.len() - i,
        {
            let ghost before = self.fills@;
            proof {
                assert(intents@.subrange(0, i + 1).drop_last() =~= intents@.subrange(0, i as int));
            }
            match self.apply(&intents[i]) {
                Ok(()) => {},
                Err(e) => {
                    proof {
                        lemma_intents_none_extends(self.config, old(self).book, intents@, i + 1);
                    }
                    return Err(e);
                },
            }
            proof {
                let gs = self.fills@.subrange(before.len() as int, self.fills@.len() as int);
                assert(self.fills@ =~= before + gs);
                log = log + gs;
                assert(self.fills@ =~= old(self).fills@ + log);
            }
            i = i + 1;
        }
        proof {
            assert(intents@.subrange(0, i as int) =~= intents@);
        }
        Ok(())
    }

    /// Summary of the run so far.
    pub fn summary(&self) -> (r: RunSummary)
        requires
            self.wf(),
        ensures
            r.starting_cash == self.config.starting_cash,
            r.ending_cash == self.book.cash,
            r.net_pnl == self.book.cash - self.config.starting_cash,
            r.trades == self.book.trades,
            r.wins == self.book.wins,
            r.losses == self.book.losses,
            r.win_loss_ratio_ppm == if self.book.losses > 0 {
                Some((self.book.wins * PPM / self.book.losses as int) as u128)
            } else {
                None::<u128>
            },
            r == summary_of(self.config, self.book),
    {
        let b = self.book;
        let ratio = if b.losses > 0 {
            proof {
                assert(b.wins * PPM <= u64::MAX as int * 1000000) by (nonlinear_arith)
                    requires b.wins <= u64::MAX;
            }
            Some((b.wins as u128 * PPM as u128) / b.losses as u128)
        } else {
            None
        };
        RunSummary {
            starting_cash: self.config.starting_cash,
            ending_cash: b.cash,
            net_pnl: b.cash - self.config.starting_cash,
            trades: b.trades,
            wins: b.wins,
            losses: b.losses,
            win_loss_ratio_ppm: ratio,
        }
    }
}

} // verus!
