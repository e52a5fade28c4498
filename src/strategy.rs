use vstd::prelude::*;
use crate::bar::{Bar, SCALE};
use crate::order::{Order, OrderSide};

verus! {

/// Volume, in ticks, that a bar must exceed before the simple strategies act:
/// ten thousand units.
pub const MIN_VOLUME: u64 = 10_000 * SCALE;

/// A strategy that decides on each bar, on its own, whether to trade.
pub trait Strategy {
    /// The intent the strategy emits for `bar`, if any.
    spec fn signal(&self, bar: Bar) -> Option<Order>;

    fn generate_signal(&self, bar: &Bar) -> (r: Option<Order>)
        ensures
            r == self.signal(*bar),
    ;
}

/// Buys one lot on every bullish bar with enough volume.
pub struct AlwaysBuy;

/// Sells ten lots on every bearish bar with enough volume.
pub struct AlwaysSell;

impl Strategy for AlwaysBuy {
    open spec fn signal(&self, bar: Bar) -> Option<Order> {
        if bar.close > bar.open && bar.volume > MIN_VOLUME {
            Some(Order { side: OrderSide::Buy, price: bar.close, quantity: 1, timestamp: bar.timestamp })
        } else {
            None
        }
    }

    fn generate_signal(&self, bar: &Bar) -> (r: Option<Order>) {
        if bar.close > bar.open && bar.volume > MIN_VOLUME {
            Some(Order {
                side: OrderSide::Buy,
                price: bar.close,
                quantity: 1,
                timestamp: bar.timestamp.clone(),
            })
        } else {
            None
        }
    }
}

impl Strategy for AlwaysSell {
    open spec fn signal(&self, bar: Bar) -> Option<Order> {
        if bar.close < bar.open && bar.volume > MIN_VOLUME {
            Some(Order { side: OrderSide::Sell, price: bar.close, quantity: 10, timestamp: bar.timestamp })
        } else {
            None
        }
    }

    fn generate_signal(&self, bar: &Bar) -> (r: Option<Order>) {
        if bar.close < bar.open && bar.volume > MIN_VOLUME {
            Some(Order {
                side: OrderSide::Sell,
                price: bar.close,
                quantity: 10,
                timestamp: bar.timestamp.clone(),
            })
        } else {
            None
        }
    }
}

/// One of the simple strategies, so that both kinds can stand in one list.
pub enum SimpleStrategy {
    Buy(AlwaysBuy),
    Sell(AlwaysSell),
}

impl Strategy for SimpleStrategy {
    open spec fn signal(&self, bar: Bar) -> Option<Order> {
        match self {
            SimpleStrategy::Buy(s) => s.signal(bar),
            SimpleStrategy::Sell(s) => s.signal(bar),
        }
    }

    fn generate_signal(&self, bar: &Bar) -> (r: Option<Order>) {
        match self {
            SimpleStrategy::Buy(s) => s.generate_signal(bar),
            SimpleStrategy::Sell(s) => s.generate_signal(bar),
        }
    }
}

} // verus!
