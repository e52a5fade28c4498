use vstd::prelude::*;
use vstd::string::StrSliceExecFns;
use crate::bar::SCALE;

verus! {

/// State of a left-to-right scan of decimal text.
pub struct Scan {
    pub ok: bool,
    pub seen_dot: bool,
    pub int_digits: nat,
    pub frac_digits: nat,
    pub int_value: int,
    pub frac_value: int,
}

pub open spec fn is_digit(c: char) -> bool {
    '0' <= c && c <= '9'
}

pub open spec fn digit_of(c: char) -> int {
    c as u32 as int - '0' as u32 as int
}

pub open spec fn pow10(n: nat) -> int
    decreases n,
{
    if n == 0 {
        1
    } else {
        10 * pow10((n - 1) as nat)
    }
}

/// The scan after one more character: digits before the dot build the
/// integer part, digits after it the fraction; a second dot or any other
/// character makes the text malformed.
pub open spec fn scan_step(st: Scan, c: char) -> Scan {
    if !st.ok {
        st
    } else if c == '.' {
        if st.seen_dot {
            Scan { ok: false, ..st }
        } else {
            Scan { seen_dot: true, ..st }
        }
    } else if is_digit(c) {
        if st.seen_dot {
            Scan { frac_digits: st.frac_digits + 1, frac_value: st.frac_value * 10 + digit_of(c), ..st }
        } else {
            Scan { int_digits: st.int_digits + 1, int_value: st.int_value * 10 + digit_of(c), ..st }
        }
    } else {
        Scan { ok: false, ..st }
    }
}

pub open spec fn scan(s: Seq<char>) -> Scan
    decreases s.len(),
{
    if s.len() == 0 {
        Scan { ok: true, seen_dot: false, int_digits: 0, frac_digits: 0, int_value: 0, frac_value: 0 }
    } else {
        scan_step(scan(s.drop_last()), s.last())
    }
}

/// Ticks of a non-negative decimal `I` or `I.F`, with at least one digit on
/// each side of a dot and at most eight after it, if that fits in `u64`.
pub open spec fn decimal_ticks(s: Seq<char>) -> Option<int> {
    let st = scan(s);
    if st.ok && st.int_digits >= 1 && (st.seen_dot ==> st.frac_digits >= 1) && st.frac_digits <= 8 {
        let v = st.int_value * SCALE + st.frac_value * pow10((8 - st.frac_digits) as nat);
        if v <= u64::MAX {
            Some(v)
        } else {
            None
        }
    } else {
        None
    }
}

/// Value of a non-empty run of decimal digits, if that fits in `i64`.
pub open spec fn digits_integer(s: Seq<char>) -> Option<int> {
    let st = scan(s);
    if st.ok && !st.seen_dot && st.int_digits >= 1 && st.int_value <= i64::MAX {
        Some(st.int_value)
    } else {
        None
    }
}

proof fn lemma_scan_nonneg(s: Seq<char>)
    ensures
        scan(s).int_value >= 0,
        0 <= scan(s).frac_value < pow10(scan(s).frac_digits),
    decreases s.len(),
{
    if s.len() > 0 {
        lemma_scan_nonneg(s.drop_last());
    }
}

/// Exec form of the scan over the whole text; the integer part is tracked
/// exactly up to `u64::MAX` and the fraction up to eight digits.
fn scan_text(s: &str) -> (r: (bool, bool, usize, usize, bool, u64, u64))
    ensures
        r.0 == scan(s@).ok,
        r.1 == scan(s@).seen_dot,
        r.2 == scan(s@).int_digits,
        r.3 == scan(s@).frac_digits,
        r.4 <==> scan(s@).int_value > u64::MAX,
        !r.4 ==> r.5 == scan(s@).int_value,
        r.3 <= 8 ==> r.6 == scan(s@).frac_value,
{
    let n = s.unicode_len();
    let mut ok = true;
    let mut seen_dot = false;
    let mut int_digits: usize = 0;
    let mut frac_digits: usize = 0;
    let mut big = false;
    let mut int_value: u64 = 0;
    let mut frac_value: u64 = 0;
    let mut i: usize = 0;
    proof {
        assert(s@.subrange(0, 0) =~= Seq::<char>::empty());
    }
    while i < n
        invariant
            n == s@.len(),
            0 <= i <= n,
            int_digits <= i,
            frac_digits <= i,
            ok == scan(s@.subrange(0, i as int)).ok,
            seen_dot == scan(s@.subrange(0, i as int)).seen_dot,
            int_digits == scan(s@.subrange(0, i as int)).int_digits,
            frac_digits == scan(s@.subrange(0, i as int)).frac_digits,
            big <==> scan(s@.subrange(0, i as int)).int_value > u64::MAX,
            !big ==> int_value == scan(s@.subrange(0, i as int)).int_value,
            frac_digits <= 8 ==> frac_value == scan(s@.subrange(0, i as int)).frac_value,
        decreases n - i,
    {
        let c = s.get_char(i);
        proof {
            assert(s@.subrange(0, i + 1).drop_last() =~= s@.subrange(0, i as int));
            lemma_scan_nonneg(s@.subrange(0, i as int));
        }
        if ok {
            if c == '.' {
                if seen_dot {
                    ok = false;
                } else {
                    seen_dot = true;
                }
            } else if '0' <= c && c <= '9' {
                let d = (c as u32 - '0' as u32) as u64;
                if seen_dot {
                    if frac_digits < 8 {
                        proof {
                            assert(pow10((frac_digits + 1) as nat) == 10 * pow10(frac_digits as nat));
                            lemma_pow10_eight();
                            lemma_pow10_monotone(frac_digits as nat, 7);
                        }
                        frac_value = frac_value * 10 + d;
                    }
                    frac_digits = frac_digits + 1;
                } else {
                    if !big {
                        if int_value > (u64::MAX - d) / 10 {
                            big = true;
                        } else {
                            int_value = int_value * 10 + d;
                        }
                    }
                    int_digits = int_digits + 1;
                }
            } else {
                ok = false;
            }
        }
        i = i + 1;
    }
    proof {
        assert(s@.subrange(0, n as int) =~= s@);
    }
    (ok, seen_dot, int_digits, frac_digits, big, int_value, frac_value)
}

proof fn lemma_pow10_eight()
    ensures
        pow10(8) == 100000000,
{
    reveal_with_fuel(pow10, 9);
}

proof fn lemma_pow10_monotone(a: nat, b: nat)
    requires
        a <= b,
    ensures
        1 <= pow10(a) <= pow10(b),
    decreases b,
{
    if a < b {
        lemma_pow10_monotone(a, (b - 1) as nat);
    } else if a > 0 {
        lemma_pow10_monotone((a - 1) as nat, (a - 1) as nat);
    }
}

fn pow10_of(n: usize) -> (r: u64)
    requires
        n <= 8,
    ensures
        r == pow10(n as nat),
{
    let mut r: u64 = 1;
    let mut k: usize = 0;
    while k < n
        invariant
            k <= n <= 8,
            r == pow10(k as nat),
        decreases n - k,
    {
        proof {
            lemma_pow10_monotone((k + 1) as nat, 8);
            lemma_pow10_eight();
        }
        r = r * 10;
        k = k + 1;
    }
    r
}

/// Ticks of decimal text such as `67321.12000000`.
pub fn parse_decimal_ticks(s: &str) -> (r: Option<u64>)
    ensures
        r is Some <==> decimal_ticks(s@) is Some,
        r matches Some(v) ==> v == decimal_ticks(s@)->0,
{
    let (ok, seen_dot, int_digits, frac_digits, big, int_value, frac_value) = scan_text(s);
    if !ok || int_digits == 0 || (seen_dot && frac_digits == 0) || frac_digits > 8 || big {
        proof {
            if big {
                lemma_scan_nonneg(s@);
                let st = scan(s@);
                assert(st.int_value * SCALE > u64::MAX) by (nonlinear_arith)
                    requires st.int_value > u64::MAX;
                lemma_pow10_monotone(0, (8 - st.frac_digits) as nat);
                assert(st.frac_value * pow10((8 - st.frac_digits) as nat) >= 0) by (nonlinear_arith)
                    requires st.frac_value >= 0, pow10((8 - st.frac_digits) as nat) >= 1;
            }
        }
        return None;
    }
    let scale = pow10_of(8 - frac_digits);
    proof {
        lemma_scan_nonneg(s@);
        lemma_pow10_monotone(frac_digits as nat, 8);
        lemma_pow10_monotone((8 - frac_digits) as nat, 8);
        lemma_pow10_eight();
        assert(frac_value * scale <= 100000000 * 100000000) by (nonlinear_arith)
            requires frac_value < 100000000, scale <= 100000000;
    }
    let v: u128 = int_value as u128 * SCALE as u128 + frac_value as u128 * scale as u128;
    if v > u64::MAX as u128 {
        None
    } else {
        Some(v as u64)
    }
}

/// Value of a run of decimal digits such as `1729036800000000`.
pub fn parse_digits(s: &str) -> (r: Option<i64>)
    ensures
        r is Some <==> digits_integer(s@) is Some,
        r matches Some(v) ==> v == digits_integer(s@)->0 && v >= 0,
{
    let (ok, seen_dot, int_digits, _frac_digits, big, int_value, _frac_value) = scan_text(s);
    if !ok || seen_dot || int_digits == 0 || big || int_value > i64::MAX as u64 {
        return None;
    }
    Some(int_value as i64)
}

} // verus!
