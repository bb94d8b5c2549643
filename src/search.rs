use std::cmp::Ordering;
use vstd::prelude::*;

verus! {

/// Whether `f`, applied to an index of `data` and the element there, can only
/// ever give one answer.
pub open spec fn is_deterministic<T, F: Fn(usize, &T) -> Ordering>(data: Seq<T>, f: F) -> bool {
    forall|i: usize, o1: Ordering, o2: Ordering|
        #![trigger f.ensures((i, &data[i as int]), o1), f.ensures((i, &data[i as int]), o2)]
        i < data.len() && f.ensures((i, &data[i as int]), o1) && f.ensures(
            (i, &data[i as int]),
            o2,
        ) ==> o1 == o2
}

/// Binary search whose comparator also receives the index of the element.
///
/// The loop runs a number of times that depends only on `data.len()`: it does
/// not stop early on `Equal`. `Ok(k)` means that the comparator answered
/// `Equal` at `k`. `Err(k)` means that it answered `Less` just before `k`
/// (or `k` is 0) and `Greater` at `k` (or `k` is the length).
pub fn binary_search_by_with_index<T, F: Fn(usize, &T) -> Ordering>(data: &[T], f: F) -> (r:
    Result<usize, usize>)
    requires
        forall|i: usize| i < data@.len() ==> #[trigger] f.requires((i, &data@[i as int])),
        is_deterministic(data@, f),
    ensures
        match r {
            Ok(k) => k < data@.len() && f.ensures((k, &data@[k as int]), Ordering::Equal),
            Err(k) => {
                &&& k <= data@.len()
                &&& k > 0 ==> f.ensures(((k - 1) as usize, &data@[k - 1]), Ordering::Less)
                &&& k < data@.len() ==> f.ensures((k, &data@[k as int]), Ordering::Greater)
            },
        },
{
    let mut size: usize = data.len();
    if size == 0 {
        return Err(0);
    }
    let mut base: usize = 0;
    while size > 1
        invariant
            forall|i: usize| i < data@.len() ==> #[trigger] f.requires((i, &data@[i as int])),
            is_deterministic(data@, f),
            1 <= size,
            base + size <= data.len(),
            base > 0 ==> f.ensures((base, &data@[base as int]), Ordering::Less) || f.ensures(
                (base, &data@[base as int]),
                Ordering::Equal,
            ),
            base + size < data@.len() ==> exists|m: usize|
                #![trigger f.ensures((m, &data@[m as int]), Ordering::Greater)]
                base < m && base + size <= m + 1 && m <= base + size && f.ensures(
                    (m, &data@[m as int]),
                    Ordering::Greater,
                ),
        decreases size,
    {
        let half = size / 2;
        let mid = base + half;
        let cmp = f(mid, &data[mid]);
        let ghost old_base = base;
        match cmp {
            Ordering::Greater => {},
            _ => {
                base = mid;
            },
        }
        size -= half;
        proof {
            if base + size < data@.len() {
                if base == old_base {
                    assert(f.ensures((mid, &data@[mid as int]), Ordering::Greater));
                } else {
                    let m = choose|m: usize|
                        #![trigger f.ensures((m, &data@[m as int]), Ordering::Greater)]
                        old_base < m && base + size <= m + 1 && m <= base + size && f.ensures(
                            (m, &data@[m as int]),
                            Ordering::Greater,
                        );
                    assert(f.ensures((m, &data@[m as int]), Ordering::Greater));
                }
            }
        }
    }
    let cmp = f(base, &data[base]);
    if let Ordering::Equal = cmp {
        Ok(base)
    } else if let Ordering::Less = cmp {
        let k = base + 1;
        proof {
            if k < data@.len() {
                let m = choose|m: usize|
                    #![trigger f.ensures((m, &data@[m as int]), Ordering::Greater)]
                    base < m <= base + 1 && f.ensures((m, &data@[m as int]), Ordering::Greater);
                assert(m == k);
            }
        }
        Err(k)
    } else {
        proof {
            if base > 0 {
                assert(f.ensures((base, &data@[base as int]), Ordering::Greater));
            }
        }
        Err(base)
    }
}

/// Samples are in ascending order of time (equal times allowed).
pub open spec fn sorted_by_time<V>(s: Seq<(i64, V)>) -> bool {
    forall|i: int, j: int| 0 <= i <= j < s.len() ==> s[i].0 <= s[j].0
}

/// How many samples at the start of `s` lie strictly before `t`. On a sorted
/// sequence this is the number of samples before `t`, the point where a
/// sample at `t` would be inserted.
pub open spec fn count_before<V>(s: Seq<(i64, V)>, t: i64) -> nat
    decreases s.len(),
{
    if s.len() == 0 {
        0
    } else if s[0].0 < t {
        1 + count_before(s.drop_first(), t)
    } else {
        0
    }
}

/// Index of the sample that a query at time `t` resolves to: the first sample
/// at or after `t`, or the last sample when every sample lies before `t`.
pub open spec fn closest_index<V>(s: Seq<(i64, V)>, t: i64) -> int {
    if count_before(s, t) < s.len() {
        count_before(s, t) as int
    } else {
        s.len() - 1
    }
}

/// The three-way answer used while searching for the sample nearest to `t`:
/// a sample that directly follows the crossing of `t` is a match.
pub open spec fn crossing_order<V>(s: Seq<(i64, V)>, i: int, t: i64) -> Ordering {
    if i > 0 && s[i - 1].0 < t && s[i].0 > t {
        Ordering::Equal
    } else if s[i].0 < t {
        Ordering::Less
    } else {
        Ordering::Greater
    }
}

/// When the first `k` samples lie before `t` and the sample at `k` (if any)
/// does not, exactly `k` samples lead up to `t`.
pub proof fn lemma_count_before<V>(s: Seq<(i64, V)>, t: i64, k: int)
    requires
        0 <= k <= s.len(),
        forall|j: int| 0 <= j < k ==> s[j].0 < t,
        k < s.len() ==> s[k].0 >= t,
    ensures
        count_before(s, t) == k,
    decreases s.len(),
{
    if s.len() > 0 && k > 0 {
        let rest = s.drop_first();
        assert forall|j: int| 0 <= j < k - 1 implies rest[j].0 < t by {
            assert(rest[j] == s[j + 1]);
        }
        if k < s.len() {
            assert(rest[k - 1] == s[k]);
        }
        lemma_count_before(rest, t, k - 1);
    }
}

/// The sample nearest to `mouse_x_time`, for tooltips and the crosshair.
///
/// On a sorted sequence the answer is the first sample at or after the query
/// time, or the last sample when the query lies beyond all of them: a query
/// between two samples resolves to the later one, whichever is closer.
/// `None` only for an empty sequence.
pub fn find_closest_measure<V: Copy>(measures: &[(i64, V)], mouse_x_time: i64) -> (r: Option<
    (i64, V),
>)
    ensures
        measures@.len() == 0 <==> r is None,
        r is Some ==> exists|k: int|
            0 <= k < measures@.len() && r == Some(#[trigger] measures@[k]),
        sorted_by_time(measures@) && measures@.len() > 0 ==> r == Some(
            measures@[closest_index(measures@, mouse_x_time)],
        ),
{
    let cmp = |index: usize, measure: &(i64, V)| -> (o: Ordering)
        requires
            index < measures@.len(),
            *measure == measures@[index as int],
        ensures
            o == crossing_order(measures@, index as int, mouse_x_time),
        {
            if index > 0 && measures[index - 1].0 < mouse_x_time && measure.0 > mouse_x_time {
                Ordering::Equal
            } else if measure.0 < mouse_x_time {
                Ordering::Less
            } else {
                Ordering::Greater
            }
        };
    let res = binary_search_by_with_index(measures, cmp);
    let index = match res {
        Ok(x) => x,
        Err(x) => x,
    };
    if measures.len() == 0 {
        return None;
    }
    proof {
        let s = measures@;
        if sorted_by_time(s) {
            let k = index as int;
            if res is Ok {
                assert(crossing_order(s, k, mouse_x_time) == Ordering::Equal);
                assert forall|j: int| 0 <= j < k implies s[j].0 < mouse_x_time by {
                    assert(s[j].0 <= s[k - 1].0);
                }
            } else {
                if k > 0 {
                    assert(crossing_order(s, k - 1, mouse_x_time) == Ordering::Less);
                    assert forall|j: int| 0 <= j < k implies s[j].0 < mouse_x_time by {
                        assert(s[j].0 <= s[k - 1].0);
                    }
                }
                if k < s.len() {
                    assert(crossing_order(s, k, mouse_x_time) == Ordering::Greater);
                }
            }
            lemma_count_before(s, mouse_x_time, k);
        }
    }
    let last = measures.len() - 1;
    let at = if index < measures.len() {
        index
    } else {
        last
    };
    Some(measures[at])
}

} // verus!
