use vstd::prelude::*;

verus! {

/// Number of ticks in one unit of price or volume: prices and volumes are
/// fixed-point integers with eight decimal places.
pub const SCALE: u64 = 100_000_000;

/// One interval of price history. Prices and volume are in ticks (see `SCALE`).
#[derive(Debug, Clone)]
pub struct Bar {
    pub timestamp: String,
    pub open: u64,
    pub high: u64,
    pub low: u64,
    pub close: u64,
    pub volume: u64,
}

} // verus!
