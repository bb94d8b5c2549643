use crate::lod::fits_i64;
use vstd::prelude::*;

verus! {

/// Horizontal room, in pixels, given to each time label.
pub const LABEL_WIDTH_PX: u64 = 204;

/// Number of time ticks for a canvas `width_px` wide: one per label width,
/// at least one.
pub open spec fn tick_count(width_px: nat) -> int {
    let n = width_px / LABEL_WIDTH_PX as nat;
    if n < 1 {
        1
    } else if n > i32::MAX {
        i32::MAX as int
    } else {
        n as int
    }
}

/// How many time ticks the axis of a canvas `width_px` wide carries.
pub fn scale_count(width_px: u64) -> (r: i32)
    ensures
        r == tick_count(width_px as nat),
        r >= 1,
{
    let n = width_px / LABEL_WIDTH_PX;
    if n < 1 {
        1
    } else if n > i32::MAX as u64 {
        i32::MAX
    } else {
        n as i32
    }
}

/// Spacing of the ticks: the visible duration split into `count` equal
/// parts, whole nanoseconds.
pub open spec fn tick_interval(begin_ns: i64, end_ns: i64, count: int) -> int {
    (end_ns - begin_ns) / count
}

/// The `k`-th tick (from 0): the ticks start one interval after `begin_ns`
/// rounded down to a multiple of the interval.
pub open spec fn tick_at(begin_ns: i64, interval: int, k: int) -> int {
    (begin_ns as int / interval) * interval + (k + 1) * interval
}

/// The ticks among the first `n` that fit in an `i64`, in order.
pub open spec fn ticks_prefix(begin_ns: i64, interval: int, n: int) -> Seq<i64>
    decreases n,
{
    if n <= 0 {
        Seq::empty()
    } else if fits_i64(tick_at(begin_ns, interval, n - 1)) {
        ticks_prefix(begin_ns, interval, n - 1).push(tick_at(begin_ns, interval, n - 1) as i64)
    } else {
        ticks_prefix(begin_ns, interval, n - 1)
    }
}

/// Times, in nanoseconds, of the `count` ticks of the time axis for the
/// window `[begin_ns, end_ns]`. `None` where the interval is not a positive
/// number of nanoseconds that fits in an `i64` (an empty or reversed window,
/// or one shorter than `count` nanoseconds); a tick that would lie outside
/// the range of `i64` is left out.
pub fn scale_ticks(begin_ns: i64, end_ns: i64, count: i32) -> (r: Option<Vec<i64>>)
    requires
        count >= 1,
    ensures
        match r {
            Some(ticks) => {
                let interval = tick_interval(begin_ns, end_ns, count as int);
                &&& 0 < interval <= i64::MAX
                &&& ticks@ == ticks_prefix(begin_ns, interval, count as int)
            },
            None => {
                let interval = tick_interval(begin_ns, end_ns, count as int);
                interval <= 0 || interval > i64::MAX
            },
        },
{
    let duration: i128 = (end_ns as i128) - (begin_ns as i128);
    if duration < count as i128 {
        proof {
            let c = count as int;
            let q = duration as int / c;
            vstd::arithmetic::div_mod::lemma_fundamental_div_mod(duration as int, c);
            vstd::arithmetic::div_mod::lemma_mod_bound(duration as int, c);
            assert(q <= 0) by (nonlinear_arith)
                requires
                    c * q + (duration as int) % c == duration,
                    0 <= (duration as int) % c,
                    duration < c,
                    c >= 1,
            ;
        }
        return None;
    }
    let interval: i128 = duration / (count as i128);
    proof {
        vstd::arithmetic::div_mod::lemma_div_is_ordered(count as int, duration as int, count as int);
        vstd::arithmetic::div_mod::lemma_div_basics(count as int);
        vstd::arithmetic::div_mod::lemma_div_is_ordered_by_denominator(duration as int, 1, count as int);
    }
    if interval > i64::MAX as i128 {
        return None;
    }
    let base: i128 = floor_div_i128(begin_ns as i128, interval) * interval;
    let mut ticks: Vec<i64> = Vec::new();
    let mut k: i32 = 0;
    while k < count
        invariant
            0 <= k <= count,
            0 < interval <= i64::MAX,
            interval == tick_interval(begin_ns, end_ns, count as int),
            base == (begin_ns as int / interval as int) * interval,
            i64::MIN - interval <= base <= i64::MAX,
            ticks@ == ticks_prefix(begin_ns, interval as int, k as int),
        decreases count - k,
    {
        assert(tick_at(begin_ns, interval as int, k as int) == base + (k + 1) * interval);
        assert(0 <= (k + 1) * interval <= i32::MAX * i64::MAX) by (nonlinear_arith)
            requires
                0 <= k < i32::MAX,
                0 < interval <= i64::MAX,
        ;
        let t: i128 = base + ((k as i128) + 1) * interval;
        if t >= i64::MIN as i128 && t <= i64::MAX as i128 {
            ticks.push(t as i64);
        }
        k += 1;
    }
    Some(ticks)
}

fn floor_div_i128(a: i128, b: i128) -> (r: i128)
    requires
        b > 0,
        fits_i64(a as int),
        b <= i64::MAX,
    ensures
        r as int == a as int / b as int,
        i64::MIN - b <= r * b <= i64::MAX,
{
    let q: i128 = if a >= 0 {
        ((a as u128) / (b as u128)) as i128
    } else {
        let n: u128 = (-a) as u128;
        let d: u128 = b as u128;
        let c: u128 = (n + (d - 1)) / d;
        -(c as i128)
    };
    proof {
        vstd::arithmetic::div_mod::lemma_fundamental_div_mod(a as int, b as int);
        vstd::arithmetic::div_mod::lemma_mod_bound(a as int, b as int);
        if a < 0 {
            let n: int = -a;
            let d: int = b as int;
            let s: int = n + d - 1;
            vstd::arithmetic::div_mod::lemma_fundamental_div_mod(s, d);
            vstd::arithmetic::div_mod::lemma_mod_bound(s, d);
            let c: int = s / d;
            assert(q == -c);
            assert(q * b <= a < q * b + b) by (nonlinear_arith)
                requires
                    c * d <= n + d - 1 < c * d + d,
                    q == -c,
                    d == b,
                    n == -a,
            ;
            vstd::arithmetic::div_mod::lemma_fundamental_div_mod_converse(
                a as int,
                b as int,
                q as int,
                a - q * b,
            );
        }
        let m = a as int % b as int;
        assert(q * b == a - m) by (nonlinear_arith)
            requires
                a as int == b * (a as int / b as int) + m,
                q as int == a as int / b as int,
        ;
    }
    q
}

} // verus!
