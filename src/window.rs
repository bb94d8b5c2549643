use vstd::prelude::*;

verus! {

/// Strictly inside the visible window `(begin_ns, end_ns)`.
pub open spec fn in_window(t: i64, begin_ns: i64, end_ns: i64) -> bool {
    begin_ns < t && t < end_ns
}

/// The sample at `i` takes part in the drawing: it, its predecessor or its
/// successor lies inside the window. This one sample of slack keeps a line
/// whose end lies just outside the window from being cut short.
pub open spec fn displayed_at<V>(s: Seq<(i64, V)>, i: int, begin_ns: i64, end_ns: i64) -> bool {
    ||| in_window(s[i].0, begin_ns, end_ns)
    ||| (i > 0 && in_window(s[i - 1].0, begin_ns, end_ns))
    ||| (i + 1 < s.len() && in_window(s[i + 1].0, begin_ns, end_ns))
}

/// The displayed samples among the first `n`, in order.
pub open spec fn displayed_prefix<V>(s: Seq<(i64, V)>, n: int, begin_ns: i64, end_ns: i64) -> Seq<
    (i64, V),
>
    decreases n,
{
    if n <= 0 {
        Seq::empty()
    } else if displayed_at(s, n - 1, begin_ns, end_ns) {
        displayed_prefix(s, n - 1, begin_ns, end_ns).push(s[n - 1])
    } else {
        displayed_prefix(s, n - 1, begin_ns, end_ns)
    }
}

/// The displayed samples of `s`, in order.
pub open spec fn displayed<V>(s: Seq<(i64, V)>, begin_ns: i64, end_ns: i64) -> Seq<(i64, V)> {
    displayed_prefix(s, s.len() as int, begin_ns, end_ns)
}

fn strictly_inside(t: i64, begin_ns: i64, end_ns: i64) -> (r: bool)
    ensures
        r == in_window(t, begin_ns, end_ns),
{
    t > begin_ns && t < end_ns
}

/// Whether the sample at `index` is drawn for the window `(begin_ns, end_ns)`.
pub fn is_displayed<V>(measures: &[(i64, V)], index: usize, begin_ns: i64, end_ns: i64) -> (r:
    bool)
    requires
        index < measures@.len(),
    ensures
        r == displayed_at(measures@, index as int, begin_ns, end_ns),
{
    let mut drawn = strictly_inside(measures[index].0, begin_ns, end_ns);
    if index > 0 {
        drawn = drawn || strictly_inside(measures[index - 1].0, begin_ns, end_ns);
    }
    if index + 1 < measures.len() {
        drawn = drawn || strictly_inside(measures[index + 1].0, begin_ns, end_ns);
    }
    drawn
}

/// The samples that the polyline of a series goes through, in order.
pub fn displayed_measures<V: Copy>(measures: &[(i64, V)], begin_ns: i64, end_ns: i64) -> (r: Vec<
    (i64, V),
>)
    ensures
        r@ == displayed(measures@, begin_ns, end_ns),
{
    let mut out: Vec<(i64, V)> = Vec::new();
    let mut i: usize = 0;
    while i < measures.len()
        invariant
            i <= measures@.len(),
            out@ == displayed_prefix(measures@, i as int, begin_ns, end_ns),
        decreases measures@.len() - i,
    {
        if is_displayed(measures, i, begin_ns, end_ns) {
            out.push(measures[i]);
        }
        i += 1;
    }
    out
}

} // verus!
