use vstd::prelude::*;
use crate::bar::Bar;
use crate::order::Order;
use crate::strategy::Strategy;

verus! {

/// Last traded price, in ticks.
pub struct Market {
    pub last_close: u64,
}

impl Market {
    pub fn new(initial_price: u64) -> (r: Self)
        ensures
            r.last_close == initial_price,
    {
        Market { last_close: initial_price }
    }
}

/// Intents a strategy emits over `bars`, in bar order.
pub open spec fn signals<S: Strategy>(strategy: S, bars: Seq<Bar>) -> Seq<Order>
    decreases bars.len(),
{
    if bars.len() == 0 {
        Seq::empty()
    } else {
        let earlier = signals(strategy, bars.drop_last());
        match strategy.signal(bars.last()) {
            Some(o) => earlier.push(o),
            None => earlier,
        }
    }
}

/// Runs a strategy over every bar and collects the intents it emits.
pub fn run_simulation<S: Strategy>(strategy: &S, bars: &[Bar]) -> (r: Vec<Order>)
    ensures
        r@ == signals(*strategy, bars@),
{
    let mut orders: Vec<Order> = Vec::new();
    let mut i: usize = 0;
    while i < bars.len()
        invariant
            0 <= i <= bars@.len(),
            orders@ == signals(*strategy, bars@.subrange(0, i as int)),
        decreases bars@.len() - i,
    {
        proof {
            assert(bars@.subrange(0, i + 1).drop_last() =~= bars@.subrange(0, i as int));
        }
        match strategy.generate_signal(&bars[i]) {
            Some(o) => orders.push(o),
            None => {},
        }
        i = i + 1;
    }
    proof {
        assert(bars@.subrange(0, i as int) =~= bars@);
    }
    orders
}

} // verus!
