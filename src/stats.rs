use crate::measures::{MeasureSetView, MeasuresData};
use crate::window::{displayed, displayed_measures};
use vstd::prelude::*;

verus! {

/// The decimal digit `d`, for `d < 10`.
pub open spec fn digit_char(d: nat) -> char {
    seq!['0', '1', '2', '3', '4', '5', '6', '7', '8', '9'][d as int]
}

/// `n` written in decimal, without leading zeros.
pub open spec fn decimal(n: nat) -> Seq<char>
    decreases n,
{
    if n < 10 {
        seq![digit_char(n)]
    } else {
        decimal(n / 10).push(digit_char(n % 10))
    }
}

/// `n` written in decimal with a comma between groups of three digits,
/// counted from the right: `1234567` gives `1,234,567`.
pub open spec fn grouped_decimal(n: nat) -> Seq<char>
    decreases n,
{
    if n < 1000 {
        decimal(n)
    } else {
        grouped_decimal(n / 1000) + seq![
            ',',
            digit_char((n % 1000) / 100),
            digit_char((n % 100) / 10),
            digit_char(n % 10),
        ]
    }
}

fn digit_str(d: u64) -> (r: &'static str)
    requires
        d < 10,
    ensures
        r@ == seq![digit_char(d as nat)],
{
    proof {
        reveal_strlit("0");
        reveal_strlit("1");
        reveal_strlit("2");
        reveal_strlit("3");
        reveal_strlit("4");
        reveal_strlit("5");
        reveal_strlit("6");
        reveal_strlit("7");
        reveal_strlit("8");
        reveal_strlit("9");
    }
    if d == 0 {
        "0"
    } else if d == 1 {
        "1"
    } else if d == 2 {
        "2"
    } else if d == 3 {
        "3"
    } else if d == 4 {
        "4"
    } else if d == 5 {
        "5"
    } else if d == 6 {
        "6"
    } else if d == 7 {
        "7"
    } else if d == 8 {
        "8"
    } else {
        "9"
    }
}

fn decimal_string(n: u64) -> (r: String)
    ensures
        r@ == decimal(n as nat),
    decreases n,
{
    if n < 10 {
        let mut s = String::new();
        s.append(digit_str(n));
        s
    } else {
        let mut s = decimal_string(n / 10);
        s.append(digit_str(n % 10));
        s
    }
}

/// `n` in decimal with its digits grouped by thousands, as the point count
/// of the diagnostic overlay shows it.
pub fn group_thousands(n: u64) -> (r: String)
    ensures
        r@ == grouped_decimal(n as nat),
    decreases n,
{
    if n < 1000 {
        decimal_string(n)
    } else {
        let mut s = group_thousands(n / 1000);
        proof {
            reveal_strlit(",");
        }
        s.append(",");
        s.append(digit_str((n % 1000) / 100));
        s.append(digit_str((n % 100) / 10));
        s.append(digit_str(n % 10));
        proof {
            assert(s@ =~= grouped_decimal(n as nat));
        }
        s
    }
}

/// The number of samples drawn, over the first `n` series.
pub open spec fn drawn_count(d: Seq<(Seq<char>, MeasureSetView)>, n: int, begin_ns: i64, end_ns: i64) -> nat
    decreases n,
{
    if n <= 0 {
        0
    } else {
        drawn_count(d, n - 1, begin_ns, end_ns) + displayed(d[n - 1].1.measures, begin_ns, end_ns).len()
    }
}

/// How many samples, over all series, are drawn for the window
/// `(begin_ns, end_ns)`; the count stops at `u64::MAX`.
pub fn count_displayed_points(data: &MeasuresData, begin_ns: i64, end_ns: i64) -> (r: u64)
    ensures
        r == (if drawn_count(data.view(), data.view().len() as int, begin_ns, end_ns) > u64::MAX {
            u64::MAX as nat
        } else {
            drawn_count(data.view(), data.view().len() as int, begin_ns, end_ns)
        }),
{
    let mut total: u64 = 0;
    let mut i: usize = 0;
    while i < data.series.len()
        invariant
            i <= data.series@.len(),
            total == (if drawn_count(data.view(), i as int, begin_ns, end_ns) > u64::MAX {
                u64::MAX as nat
            } else {
                drawn_count(data.view(), i as int, begin_ns, end_ns)
            }),
        decreases data.series@.len() - i,
    {
        let shown = displayed_measures(data.series[i].1.measures.as_slice(), begin_ns, end_ns);
        total = total.saturating_add(shown.len() as u64);
        i += 1;
    }
    total
}

} // verus!
