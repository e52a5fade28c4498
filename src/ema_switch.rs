use vstd::prelude::*;
use vstd::arithmetic::div_mod::{lemma_div_is_ordered_by_denominator, lemma_div_by_multiple};
use crate::bar::Bar;
use crate::order::{Order, OrderSide};

verus! {

/// Fixed-point scale of EMA values: an EMA of prices in ticks is held as
/// ticks times `EMA_SCALE`.
pub const EMA_SCALE: u128 = 4294967296;

/// Largest value an EMA of `u64` prices can take.
pub open spec fn ema_bound() -> int {
    u64::MAX as int * EMA_SCALE as int
}

/// One step of the fixed-point EMA recurrence: the average moves towards
/// `price * EMA_SCALE` by `2 / (period + 1)` of the gap, rounded towards the
/// previous average.
pub open spec fn ema_step(prev: int, price: int, period: int) -> int {
    let target = price * EMA_SCALE;
    if target >= prev {
        prev + (2 * (target - prev)) / (period + 1)
    } else {
        prev - (2 * (prev - target)) / (period + 1)
    }
}

/// EMA of a window of closes, seeded with the window's first close.
pub open spec fn ema_of(window: Seq<u64>, period: int) -> int
    decreases window.len(),
{
    if window.len() == 0 {
        0
    } else if window.len() == 1 {
        window[0] * EMA_SCALE
    } else {
        ema_step(ema_of(window.drop_last(), period), window.last() as int, period)
    }
}

/// Start of the trailing window of at most `period` closes in a buffer of `len`.
pub open spec fn trail_start(len: int, period: int) -> int {
    if len > period {
        len - period
    } else {
        0
    }
}

/// The trailing window of at most `period` most recent closes.
pub open spec fn trailing(buf: Seq<u64>, period: int) -> Seq<u64> {
    buf.subrange(trail_start(buf.len() as int, period), buf.len() as int)
}

/// Trend after comparing the two averages: equality carries the current trend.
pub open spec fn classify(short_ema: int, long_ema: int, current: Option<OrderSide>) -> Option<OrderSide> {
    if short_ema > long_ema {
        Some(OrderSide::Buy)
    } else if short_ema < long_ema {
        Some(OrderSide::Sell)
    } else {
        current
    }
}

/// An intent at the bar's close.
pub open spec fn intent_at(side: OrderSide, bar: Bar, quantity: i64) -> Order {
    Order { side, price: bar.close, quantity, timestamp: bar.timestamp }
}

/// Intents emitted when the trend changes from `from` to `to`, given the
/// directional flag before the change.
pub open spec fn transition_intents(
    from: Option<OrderSide>,
    to: Option<OrderSide>,
    flag: i64,
    bar: Bar,
) -> Seq<Order> {
    match (from, to) {
        (Some(OrderSide::Buy), Some(OrderSide::Sell)) => if flag > 0 {
            seq![intent_at(OrderSide::Sell, bar, flag), intent_at(OrderSide::Sell, bar, 1)]
        } else {
            seq![intent_at(OrderSide::Sell, bar, 1)]
        },
        (Some(OrderSide::Sell), Some(OrderSide::Buy)) => if flag < 0 {
            seq![intent_at(OrderSide::Buy, bar, -flag as i64), intent_at(OrderSide::Buy, bar, 1)]
        } else {
            seq![intent_at(OrderSide::Buy, bar, 1)]
        },
        (None, Some(OrderSide::Buy)) => seq![intent_at(OrderSide::Buy, bar, 1)],
        (None, Some(OrderSide::Sell)) => seq![intent_at(OrderSide::Sell, bar, 1)],
        _ => seq![],
    }
}

/// Directional flag after the trend changes from `from` to `to`.
pub open spec fn flag_after(from: Option<OrderSide>, to: Option<OrderSide>, flag: i64) -> int {
    match to {
        Some(OrderSide::Buy) => 1,
        Some(OrderSide::Sell) => -1,
        None => flag as int,
    }
}

/// State of the signal generator as a value: periods, observed closes, trend
/// and directional flag.
pub struct SignalState {
    pub short_period: int,
    pub long_period: int,
    pub closes: Seq<u64>,
    pub trend: Option<OrderSide>,
    pub flag: i64,
}

/// A fresh signal generator.
pub open spec fn initial_signal_state(short: int, long: int) -> SignalState {
    SignalState { short_period: short, long_period: long, closes: Seq::empty(), trend: None, flag: 0 }
}

/// Observing one bar: the state after it and the intents it emits, in order.
pub open spec fn signal_step(st: SignalState, bar: Bar) -> (SignalState, Seq<Order>) {
    let closes = st.closes.push(bar.close);
    let grown = SignalState { closes, ..st };
    if closes.len() < st.long_period {
        (grown, Seq::empty())
    } else {
        let after = classify(
            ema_of(trailing(closes, st.short_period), st.short_period),
            ema_of(trailing(closes, st.long_period), st.long_period),
            st.trend,
        );
        if after == st.trend {
            (grown, Seq::empty())
        } else {
            (
                SignalState { trend: after, flag: flag_after(st.trend, after, st.flag) as i64, ..grown },
                transition_intents(st.trend, after, st.flag, bar),
            )
        }
    }
}

/// Trend-crossover signal generator over two trailing-window EMAs.
pub struct EmaSwitchStrategy {
    pub ema_short_period: usize,
    pub ema_long_period: usize,
    pub ema_short: Vec<u64>,
    pub ema_long: Vec<u64>,
    pub current_trend: Option<OrderSide>,
    /// +1 for long, -1 for short, 0 for flat.
    pub position: i64,
}

/// Whether two trends are the same.
fn same_trend(a: Option<OrderSide>, b: Option<OrderSide>) -> (r: bool)
    ensures
        r == (a == b),
{
    match (a, b) {
        (None, None) => true,
        (Some(x), Some(y)) => x == y,
        _ => false,
    }
}

proof fn lemma_step_moves_within(prev: int, price: int, period: int)
    requires
        0 <= prev <= ema_bound(),
        0 <= price <= u64::MAX,
        period >= 1,
    ensures
        0 <= ema_step(prev, price, period) <= ema_bound(),
        price * EMA_SCALE >= prev ==> ema_step(prev, price, period) <= price * EMA_SCALE,
        price * EMA_SCALE < prev ==> ema_step(prev, price, period) >= price * EMA_SCALE,
{
    let target = price * EMA_SCALE;
    assert(target <= ema_bound()) by (nonlinear_arith)
        requires
            target == price * 4294967296,
            0 <= price <= u64::MAX,
            ema_bound() == u64::MAX as int * 4294967296,
    ;
    let gap = if target >= prev { target - prev } else { prev - target };
    lemma_div_is_ordered_by_denominator(2 * gap, 2, period + 1);
    lemma_div_by_multiple(gap, 2);
    assert(2 * gap == gap * 2);
}

impl EmaSwitchStrategy {
    /// The generator's state as a value.
    pub open spec fn model(&self) -> SignalState {
        SignalState {
            short_period: self.ema_short_period as int,
            long_period: self.ema_long_period as int,
            closes: self.ema_long@,
            trend: self.current_trend,
            flag: self.position,
        }
    }

    /// Internal consistency: positive periods, both buffers hold the same
    /// closes, and the flag is a unit direction.
    pub open spec fn wf(&self) -> bool {
        &&& self.ema_short_period >= 1
        &&& self.ema_long_period >= 1
        &&& self.ema_short@ == self.ema_long@
        &&& -1 <= self.position <= 1
    }

    /// The averages over the trailing windows of the buffers as they stand.
    pub open spec fn short_ema(&self) -> int {
        ema_of(trailing(self.ema_short@, self.ema_short_period as int), self.ema_short_period as int)
    }

    pub open spec fn long_ema(&self) -> int {
        ema_of(trailing(self.ema_long@, self.ema_long_period as int), self.ema_long_period as int)
    }

    /// Whether the long buffer holds a full window.
    pub open spec fn warmed_up(&self) -> bool {
        self.ema_long@.len() >= self.ema_long_period
    }

    /// Trend decided after the buffers of `self` were extended by one close,
    /// from the trend `before`.
    pub open spec fn decided_trend(&self, before: Option<OrderSide>) -> Option<OrderSide> {
        classify(self.short_ema(), self.long_ema(), before)
    }

    pub fn new(short: usize, long: usize) -> (r: Self)
        requires
            short >= 1,
            long >= 1,
        ensures
            r.wf(),
            r.ema_short_period == short,
            r.ema_long_period == long,
            r.ema_short@.len() == 0,
            r.ema_long@.len() == 0,
            r.current_trend is None,
            r.position == 0,
            r.model() == initial_signal_state(short as int, long as int),
    {
        Self {
            ema_short_period: short,
            ema_long_period: long,
            ema_short: Vec::new(),
            ema_long: Vec::new(),
            current_trend: None,
            position: 0,
        }
    }

    /// Observes one bar and returns the intents it triggers, in emission order.
    pub fn generate_signal(&mut self, bar: &Bar) -> (r: Vec<Order>)
        requires
            old(self).wf(),
        ensures
            final(self).wf(),
            final(self).ema_short_period == old(self).ema_short_period,
            final(self).ema_long_period == old(self).ema_long_period,
            final(self).ema_short@ == old(self).ema_short@.push(bar.close),
            final(self).ema_long@ == old(self).ema_long@.push(bar.close),
            final(self).model() == signal_step(old(self).model(), *bar).0,
            r@ == signal_step(old(self).model(), *bar).1,
            !final(self).warmed_up() ==> {
                &&& r@ == Seq::<Order>::empty()
                &&& final(self).current_trend == old(self).current_trend
                &&& final(self).position == old(self).position
            },
            final(self).warmed_up() ==> ({
                let before = old(self).current_trend;
                let after = final(self).decided_trend(before);
                if after == before {
                    &&& r@ == Seq::<Order>::empty()
                    &&& final(self).current_trend == before
                    &&& final(self).position == old(self).position
                } else {
                    &&& r@ == transition_intents(before, after, old(self).position, *bar)
                    &&& final(self).current_trend == after
                    &&& final(self).position == flag_after(before, after, old(self).position)
                }
            }),
    {
        let mut orders: Vec<Order> = Vec::new();
        self.ema_short.push(bar.close);
        self.ema_long.push(bar.close);
        if self.ema_long.len() < self.ema_long_period {
            return orders;
        }
        let short_len = self.ema_short.len();
        let long_len = self.ema_long.len();
        let short_start: usize = if short_len > self.ema_short_period {
            short_len - self.ema_short_period
        } else {
            0
        };
        let long_start: usize = if long_len > self.ema_long_period {
            long_len - self.ema_long_period
        } else {
            0
        };
        let short_slice = &self.ema_short.as_slice()[short_start..short_len];
        let long_slice = &self.ema_long.as_slice()[long_start..long_len];
        let short_ema = Self::calc_ema_from_slice(short_slice, self.ema_short_period);
        let long_ema = Self::calc_ema_from_slice(long_slice, self.ema_long_period);
        let new_trend = if short_ema > long_ema {
            Some(OrderSide::Buy)
        } else if short_ema < long_ema {
            Some(OrderSide::Sell)
        } else {
            self.current_trend
        };
        if !same_trend(new_trend, self.current_trend) {
            match (self.current_trend, new_trend) {
                (Some(OrderSide::Buy), Some(OrderSide::Sell)) => {
                    if self.position > 0 {
                        orders.push(Order {
                            side: OrderSide::Sell,
                            price: bar.close,
                            quantity: self.position,
                            timestamp: bar.timestamp.clone(),
                        });
                    }
                    orders.push(Order {
                        side: OrderSide::Sell,
                        price: bar.close,
                        quantity: 1,
                        timestamp: bar.timestamp.clone(),
                    });
                    self.position = -1;
                },
                (Some(OrderSide::Sell), Some(OrderSide::Buy)) => {
                    if self.position < 0 {
                        orders.push(Order {
                            side: OrderSide::Buy,
                            price: bar.close,
                            quantity: -self.position,
                            timestamp: bar.timestamp.clone(),
                        });
                    }
                    orders.push(Order {
                        side: OrderSide::Buy,
                        price: bar.close,
                        quantity: 1,
                        timestamp: bar.timestamp.clone(),
                    });
                    self.position = 1;
                },
                (None, Some(OrderSide::Buy)) => {
                    orders.push(Order {
                        side: OrderSide::Buy,
                        price: bar.close,
                        quantity: 1,
                        timestamp: bar.timestamp.clone(),
                    });
                    self.position = 1;
                },
                (None, Some(OrderSide::Sell)) => {
                    orders.push(Order {
                        side: OrderSide::Sell,
                        price: bar.close,
                        quantity: 1,
                        timestamp: bar.timestamp.clone(),
                    });
                    self.position = -1;
                },
                _ => {},
            }
            self.current_trend = new_trend;
        }
        proof {
            assert(orders@ =~= transition_intents(old(self).current_trend, new_trend, old(self).position, *bar)
                || new_trend == old(self).current_trend);
        }
        orders
    }

    /// EMA over `prices`, seeded with the first of them.
    fn calc_ema_from_slice(prices: &[u64], period: usize) -> (r: u128)
        requires
            prices@.len() >= 1,
            period >= 1,
        ensures
            r == ema_of(prices@, period as int),
    {
        let mut ema: u128 = prices[0] as u128 * EMA_SCALE;
        proof {
            assert(prices@.subrange(0, 1).drop_last().len() == 0);
            assert(ema <= ema_bound()) by (nonlinear_arith)
                requires
                    ema == prices@[0] as int * 4294967296,
                    prices@[0] <= u64::MAX,
                    ema_bound() == u64::MAX as int * 4294967296,
            ;
        }
        let mut i: usize = 1;
        while i < prices.len()
            invariant
                1 <= i <= prices@.len(),
                period >= 1,
                0 <= ema <= ema_bound(),
                ema == ema_of(prices@.subrange(0, i as int), period as int),
            decreases prices@.len() - i,
        {
            let target: u128 = prices[i] as u128 * EMA_SCALE;
            let denom: u128 = period as u128 + 1;
            proof {
                lemma_step_moves_within(ema as int, prices@[i as int] as int, period as int);
                assert(prices@.subrange(0, i + 1).drop_last() =~= prices@.subrange(0, i as int));
            }
            if target >= ema {
                ema = ema + 2 * (target - ema) / denom;
            } else {
                ema = ema - 2 * (ema - target) / denom;
            }
            i = i + 1;
        }
        assert(prices@.subrange(0, i as int) =~= prices@);
        ema
    }
}

} // verus!
