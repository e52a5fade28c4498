use vstd::prelude::*;

verus! {

/// Direction of a trade.
#[derive(Debug, Clone, Copy, PartialEq, Eq, Structural)]
pub enum OrderSide {
    Buy,
    Sell,
}

/// A trade intent: side, reference price in ticks, requested quantity in lots,
/// and the timestamp of the bar that triggered it.
#[derive(Debug, Clone)]
pub struct Order {
    pub side: OrderSide,
    pub price: u64,
    pub quantity: i64,
    pub timestamp: String,
}

} // verus!
