use std::ops::Range;
use vstd::prelude::*;

verus! {

/// `10` to the power `n`.
pub open spec fn pow10(n: nat) -> nat
    decreases n,
{
    if n == 0 {
        1
    } else {
        10 * pow10((n - 1) as nat)
    }
}

/// `floor(log10(n))` for `n >= 1`, and 0 below.
pub open spec fn log10_floor(n: nat) -> nat
    decreases n,
{
    if n < 10 {
        0
    } else {
        1 + log10_floor(n / 10)
    }
}

/// Level of detail of a visible duration in milliseconds:
/// `max(0, floor(log10(duration_ms) - 2))`, and 0 where the logarithm is not
/// a finite positive number.
pub open spec fn lod_of(duration_ms: int) -> nat {
    if duration_ms < 100 {
        0
    } else {
        (log10_floor(duration_ms as nat) - 2) as nat
    }
}

/// `log10_floor` never decreases.
pub proof fn lemma_log10_floor_monotonic(a: nat, b: nat)
    requires
        a <= b,
    ensures
        log10_floor(a) <= log10_floor(b),
    decreases b,
{
    if a >= 10 {
        lemma_log10_floor_monotonic(a / 10, b / 10);
    }
}

proof fn lemma_log10_floor_below(n: nat, k: nat)
    requires
        1 <= n < pow10(k),
    ensures
        log10_floor(n) < k,
    decreases k,
{
    if k == 0 {
        assert(pow10(0) == 1);
    }
    if n >= 10 {
        assert(k > 0) by {
            if k == 0 {
                assert(pow10(0) == 1);
            }
        }
        let p = pow10((k - 1) as nat);
        assert(n / 10 < p) by (nonlinear_arith)
            requires
                n < 10 * p,
        ;
        lemma_log10_floor_below(n / 10, (k - 1) as nat);
    }
}

/// A longer visible duration never has a finer level of detail.
pub proof fn lemma_lod_monotonic(d1: i64, d2: i64)
    requires
        d1 < d2,
    ensures
        lod_of(d1 as int) <= lod_of(d2 as int),
{
    if d1 >= 100 {
        reveal_with_fuel(log10_floor, 3);
        assert(log10_floor(100) == 2);
        lemma_log10_floor_monotonic(100, d1 as nat);
        lemma_log10_floor_monotonic(d1 as nat, d2 as nat);
    }
}

/// Level of detail for a visible duration given in milliseconds.
pub fn compute_lod(duration_ms: i64) -> (r: u32)
    ensures
        r == lod_of(duration_ms as int),
        r <= 16,
{
    if duration_ms < 100 {
        return 0;
    }
    let mut n: u64 = duration_ms as u64;
    let mut digits: u32 = 0;
    proof {
        reveal_with_fuel(pow10, 20);
        assert(pow10(19) == 10000000000000000000nat);
        lemma_log10_floor_below(duration_ms as nat, 19);
        reveal_with_fuel(log10_floor, 3);
        assert(log10_floor(100) == 2);
        lemma_log10_floor_monotonic(100, duration_ms as nat);
    }
    while n >= 10
        invariant
            digits + log10_floor(n as nat) == log10_floor(duration_ms as nat),
            log10_floor(duration_ms as nat) < 19,
        decreases n,
    {
        n = n / 10;
        digits = digits + 1;
    }
    digits - 2
}

/// Length in milliseconds of a diagnostic time segment at a level of
/// detail: `10^(lod+3) / 10`.
pub open spec fn segment_duration_ms(lod: nat) -> nat {
    pow10(lod + 3) / 10
}

/// Segment length for `lod`, in milliseconds.
pub fn compute_segment_duration(lod: u32) -> (r: i64)
    requires
        lod <= 16,
    ensures
        r == segment_duration_ms(lod as nat),
{
    let mut r: i64 = 100;
    let mut i: u32 = 0;
    proof {
        reveal_with_fuel(pow10, 19);
        assert(pow10(2) == 100);
        assert(pow10(18) == 1000000000000000000nat);
    }
    while i < lod
        invariant
            i <= lod <= 16,
            r == pow10(i as nat + 2),
            r <= pow10(18),
        decreases lod - i,
    {
        proof {
            reveal_with_fuel(pow10, 19);
            assert(pow10(18) == 1000000000000000000nat);
            lemma_pow10_increasing((i + 3) as nat, 18);
        }
        r = r * 10;
        i = i + 1;
    }
    proof {
        assert(pow10(lod as nat + 3) == 10 * pow10(lod as nat + 2));
    }
    r
}

proof fn lemma_pow10_increasing(a: nat, b: nat)
    requires
        a <= b,
    ensures
        pow10(a) <= pow10(b),
    decreases b,
{
    if a < b {
        lemma_pow10_increasing(a, (b - 1) as nat);
    }
}

/// A point in time as seconds since the Unix epoch plus the nanoseconds past
/// that second (a leap second carries up to two seconds of nanoseconds).
#[derive(Clone, Copy, Debug, PartialEq, Eq)]
pub struct Timestamp {
    pub secs: i64,
    pub subsec_nanos: u32,
}

/// The values of `i64`.
pub open spec fn fits_i64(x: int) -> bool {
    i64::MIN <= x <= i64::MAX
}

impl Timestamp {
    /// Nanoseconds since the Unix epoch, as an unbounded integer.
    pub open spec fn total_nanos(self) -> int {
        self.secs * 1_000_000_000 + self.subsec_nanos
    }

    /// Nanoseconds since the Unix epoch, or `None` where they do not fit in
    /// an `i64` (about the years 1677 to 2262).
    pub fn timestamp_nanos_opt(&self) -> (r: Option<i64>)
        ensures
            r == (if fits_i64(self.total_nanos()) {
                Some(self.total_nanos() as i64)
            } else {
                None
            }),
    {
        let total: i128 = (self.secs as i128) * 1_000_000_000 + (self.subsec_nanos as i128);
        if total >= i64::MIN as i128 && total <= i64::MAX as i128 {
            Some(total as i64)
        } else {
            None
        }
    }
}

/// The half-open range of diagnostic segment indices between two instants
/// given in nanoseconds: each end divided by the segment length, rounded
/// down. `None` where an instant or the segment length in nanoseconds does
/// not fit in an `i64`.
pub open spec fn segment_index_range(begin: Timestamp, end: Timestamp, lod: nat) -> Option<
    (int, int),
> {
    let seg: int = (segment_duration_ms(lod) * 1_000_000) as int;
    if fits_i64(begin.total_nanos()) && fits_i64(end.total_nanos()) && fits_i64(seg) {
        Some((begin.total_nanos() / seg, end.total_nanos() / seg))
    } else {
        None
    }
}

fn floor_div(a: i64, b: i64) -> (r: i64)
    requires
        b > 0,
    ensures
        r as int == a as int / b as int,
{
    if a >= 0 {
        return ((a as u64) / (b as u64)) as i64;
    }
    let n: u64 = (-(a as i128)) as u64;
    let d: u64 = b as u64;
    let q: u64 = (n + (d - 1)) / d;
    proof {
        let s = n + d - 1;
        vstd::arithmetic::div_mod::lemma_fundamental_div_mod(s as int, d as int);
        vstd::arithmetic::div_mod::lemma_mod_bound(s as int, d as int);
        assert(q * d <= s < q * d + d);
        let r: int = -q;
        assert(r * b <= a < r * b + b) by (nonlinear_arith)
            requires
                q * d <= n + d - 1 < q * d + d,
                r == -q,
                d == b,
                n == -a,
        ;
        vstd::arithmetic::div_mod::lemma_fundamental_div_mod_converse(
            a as int,
            b as int,
            r,
            a - r * b,
        );
        assert(q <= n) by (nonlinear_arith)
            requires
                q * d <= n + d - 1,
                d >= 1,
        ;
    }
    -(q as i128) as i64
}

/// The range of segment indices in view between `begin` and `end` at a level
/// of detail, or `None` where a value does not fit in nanoseconds.
pub fn compute_segment_index(begin: Timestamp, end: Timestamp, lod: u32) -> (r: Option<
    Range<i64>,
>)
    requires
        lod <= 16,
    ensures
        match r {
            Some(range) => segment_index_range(begin, end, lod as nat) == Some(
                (range.start as int, range.end as int),
            ),
            None => segment_index_range(begin, end, lod as nat) is None,
        },
{
    let segment_ms = compute_segment_duration(lod);
    let segment_ns: i64 = match segment_ms.checked_mul(1_000_000) {
        Some(ns) => ns,
        None => return None,
    };
    let begin_ns = match begin.timestamp_nanos_opt() {
        Some(ns) => ns,
        None => return None,
    };
    let end_ns = match end.timestamp_nanos_opt() {
        Some(ns) => ns,
        None => return None,
    };
    proof {
        reveal_with_fuel(pow10, 4);
        assert(pow10(3) == 1000);
        lemma_pow10_increasing(3, lod as nat + 3);
    }
    let first = floor_div(begin_ns, segment_ns);
    let last = floor_div(end_ns, segment_ns);
    Some(first..last)
}

/// Segment ranges are never reversed: for `begin <= end`, the first segment
/// index is at most the last.
pub proof fn lemma_segment_range_ordered(begin: Timestamp, end: Timestamp, lod: nat)
    requires
        begin.total_nanos() <= end.total_nanos(),
    ensures
        segment_index_range(begin, end, lod) matches Some((first, last)) ==> first <= last,
{
    let seg: int = (segment_duration_ms(lod) * 1_000_000) as int;
    if segment_index_range(begin, end, lod) is Some {
        reveal_with_fuel(pow10, 4);
        assert(pow10(3) == 1000);
        lemma_pow10_increasing(3, lod + 3);
        vstd::arithmetic::div_mod::lemma_div_is_ordered(begin.total_nanos(), end.total_nanos(), seg);
    }
}

} // verus!
