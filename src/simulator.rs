use vstd::prelude::*;
use vstd::arithmetic::div_mod::{lemma_div_is_ordered, lemma_div_by_multiple};
use rand::Rng;
use crate::bar::{Bar, SCALE};
use crate::engine::PPM;

verus! {

/// `price` moved by `ppm` parts per million, rounded down, capped at the
/// largest price, and kept at one tick or more when `price` is positive.
pub open spec fn moved_price(price: int, ppm: int) -> int {
    let p = price * (PPM + ppm) / PPM as int;
    if p > u64::MAX {
        u64::MAX as int
    } else if p == 0 && price > 0 {
        1
    } else {
        p
    }
}

/// Whether a bar is one step of the walk: its close lies less than 2% from
/// its open, its high less than 1% above the close, its low less than 1%
/// below it, and its volume in 5000..20000 units.
pub open spec fn walk_step(b: Bar) -> bool {
    &&& exists|change: int, up: int, down: int|
        -20000 <= change < 20000 && 0 <= up < 10000 && 0 <= down < 10000
        && #[trigger] moved_price(b.open as int, change) == b.close
        && #[trigger] moved_price(b.close as int, up) == b.high
        && #[trigger] moved_price(b.close as int, -down) == b.low
    &&& 5000 * SCALE <= b.volume < 20000 * SCALE
}

pub open spec fn digit_chars() -> Seq<char> {
    seq!['0', '1', '2', '3', '4', '5', '6', '7', '8', '9']
}

/// Decimal digits of `n`, without leading zeros.
pub open spec fn decimal_text(n: nat) -> Seq<char>
    decreases n,
{
    if n < 10 {
        seq![digit_chars()[n as int]]
    } else {
        decimal_text(n / 10).push(digit_chars()[(n % 10) as int])
    }
}

/// Timestamp text of the given hour of the simulated day: the hour in
/// decimal, padded to two digits.
pub open spec fn hour_timestamp_of(hour: usize) -> Seq<char> {
    "2025-10-24T"@ + (if hour < 10 { seq!['0'] } else { Seq::empty() }) + decimal_text(hour as nat) + ":00:00Z"@
}

/// Relies on `rand::thread_rng` and `rand::Rng::gen_range` (rand 0.8): a value
/// drawn from `low..high`; it panics on an empty range, which `requires` rules out.
#[verifier::external_body]
fn draw_in_range(low: i64, high: i64) -> (r: i64)
    requires
        low < high,
    ensures
        low <= r < high,
{
    rand::thread_rng().gen_range(low..high)
}

fn digit_str(d: usize) -> (r: &'static str)
    requires
        d < 10,
    ensures
        r@ == seq![digit_chars()[d as int]],
{
    proof {
        reveal_strlit("0");
        reveal_strlit("1");
        reveal_strlit("2");
        reveal_strlit("3");
        reveal_strlit("4");
        reveal_strlit("5");
        reveal_strlit("6");
        reveal_strlit("7");
        reveal_strlit("8");
        reveal_strlit("9");
    }
    match d {
        0 => "0",
        1 => "1",
        2 => "2",
        3 => "3",
        4 => "4",
        5 => "5",
        6 => "6",
        7 => "7",
        8 => "8",
        _ => "9",
    }
}

/// Appends the decimal digits of `n`.
fn push_decimal(s: &mut String, n: usize)
    ensures
        final(s)@ == old(s)@ + decimal_text(n as nat),
    decreases n,
{
    if n >= 10 {
        push_decimal(s, n / 10);
    }
    s.append(digit_str(n % 10));
    proof {
        assert(final(s)@ =~= old(s)@ + decimal_text(n as nat));
    }
}

/// Timestamp text of the given hour of the simulated day.
fn hour_timestamp(hour: usize) -> (r: String)
    ensures
        r@ == hour_timestamp_of(hour),
{
    let mut s = String::from_str("2025-10-24T");
    if hour < 10 {
        s.append("0");
        proof {
            reveal_strlit("0");
        }
    }
    push_decimal(&mut s, hour);
    s.append(":00:00Z");
    proof {
        assert(s@ =~= hour_timestamp_of(hour));
    }
    s
}

/// Exec form of `moved_price`.
fn move_price(price: u64, ppm: i64) -> (r: u64)
    requires
        -(PPM as int) <= ppm <= PPM,
    ensures
        r == moved_price(price as int, ppm as int),
        ppm >= 0 ==> r >= price,
        ppm <= 0 ==> r <= price,
        price > 0 ==> r > 0,
{
    let factor: u128 = (PPM as i64 + ppm) as u128;
    proof {
        assert(price as int * factor <= u64::MAX as int * 2000000) by (nonlinear_arith)
            requires factor <= 2000000, 0 <= price <= u64::MAX;
        lemma_div_by_multiple(price as int, PPM as int);
        if ppm >= 0 {
            assert(price as int * PPM <= price as int * factor) by (nonlinear_arith)
                requires factor >= PPM, 0 <= price;
            lemma_div_is_ordered(price as int * PPM, price as int * factor, PPM as int);
        } else {
            assert(price as int * factor <= price as int * PPM) by (nonlinear_arith)
                requires factor <= PPM, 0 <= price;
            lemma_div_is_ordered(price as int * factor, price as int * PPM, PPM as int);
        }
    }
    let p: u128 = price as u128 * factor / PPM as u128;
    if p > u64::MAX as u128 {
        u64::MAX
    } else if p == 0 && price > 0 {
        1
    } else {
        p as u64
    }
}

/// Generator of random-walk bars.
pub struct DataSimulator {
    pub num_bars: usize,
    pub start_price: u64,
}

/// One simulated bar: the close moves from `open` by `change_ppm`, the high
/// lies `up_ppm` above the close, the low `down_ppm` below it, and the volume
/// is `volume_units` whole units.
pub fn simulated_bar(open: u64, change_ppm: i64, up_ppm: i64, down_ppm: i64, volume_units: u64, timestamp: String) -> (r: Bar)
    requires
        -(PPM as int) <= change_ppm <= PPM,
        0 <= up_ppm <= PPM,
        0 <= down_ppm <= PPM,
        volume_units * SCALE <= u64::MAX,
    ensures
        r.open == open,
        r.close == moved_price(open as int, change_ppm as int),
        r.high == moved_price(r.close as int, up_ppm as int),
        r.low == moved_price(r.close as int, -down_ppm),
        r.volume == volume_units * SCALE,
        r.timestamp == timestamp,
        r.low <= r.close <= r.high,
        open > 0 ==> r.low > 0 && r.close > 0,
{
    let close = move_price(open, change_ppm);
    let high = move_price(close, up_ppm);
    let low = move_price(close, -down_ppm);
    Bar { timestamp, open, high, low, close, volume: volume_units * SCALE }
}

impl DataSimulator {
    pub fn new(num_bars: usize, start_price: u64) -> (r: Self)
        ensures
            r.num_bars == num_bars,
            r.start_price == start_price,
    {
        DataSimulator { num_bars, start_price }
    }

    /// A random walk of `num_bars` hourly bars from `start_price`: each close
    /// moves less than 2% from its open, the high lies less than 1% above the
    /// close, the low less than 1% below it, each open is the previous close,
    /// and volumes lie in 5000..20000 units.
    pub fn generate(&self) -> (r: Vec<Bar>)
        ensures
            r@.len() == self.num_bars,
            r@.len() > 0 ==> r@[0].open == self.start_price,
            forall|i: int| 0 < i < r@.len() ==> #[trigger] r@[i].open == r@[i - 1].close,
            forall|i: int|
                0 <= i < r@.len() ==> {
                    &&& walk_step(#[trigger] r@[i])
                    &&& r@[i].low <= r@[i].close <= r@[i].high
                    &&& self.start_price > 0 ==> r@[i].low > 0
                    &&& r@[i].timestamp@ == hour_timestamp_of(i as usize)
                },
    {
        let mut bars: Vec<Bar> = Vec::new();
        let mut price = self.start_price;
        let mut i: usize = 0;
        while i < self.num_bars
            invariant
                0 <= i <= self.num_bars,
                bars@.len() == i,
                i > 0 ==> price == bars@[i - 1].close,
                i == 0 ==> price == self.start_price,
                bars@.len() > 0 ==> bars@[0].open == self.start_price,
                forall|k: int| 0 < k < bars@.len() ==> #[trigger] bars@[k].open == bars@[k - 1].close,
                self.start_price > 0 ==> price > 0,
                forall|k: int|
                    0 <= k < bars@.len() ==> {
                        &&& walk_step(#[trigger] bars@[k])
                        &&& bars@[k].low <= bars@[k].close <= bars@[k].high
                        &&& self.start_price > 0 ==> bars@[k].low > 0
                        &&& bars@[k].timestamp@ == hour_timestamp_of(k as usize)
                    },
            decreases self.num_bars - i,
        {
            let change = draw_in_range(-20000, 20000);
            let up = draw_in_range(0, 10000);
            let down = draw_in_range(0, 10000);
            let volume = draw_in_range(5000, 20000);
            let bar = simulated_bar(price, change, up, down, volume as u64, hour_timestamp(i));
            proof {
                assert(walk_step(bar));
            }
            price = bar.close;
            bars.push(bar);
            i = i + 1;
        }
        bars
    }
}

} // verus!
