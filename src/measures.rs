use crate::lod::{fits_i64, Timestamp};
use crate::window::{displayed, displayed_measures};
use vstd::prelude::*;

verus! {

/// One series: its samples as `(time in ns, value key)` pairs, its unit, and
/// the extent of everything folded into it.
///
/// A value key is an integer whose order is the total order of the sample's
/// floating-point value; the drawing side turns it back into the value.
pub struct MeasureSet {
    pub measures: Vec<(i64, i64)>,
    pub unit: String,
    pub min: i64,
    pub max: i64,
    pub start: i64,
    pub end: i64,
}

/// The mathematical content of a `MeasureSet`.
pub struct MeasureSetView {
    pub measures: Seq<(i64, i64)>,
    pub unit: Seq<char>,
    pub min: i64,
    pub max: i64,
    pub start: i64,
    pub end: i64,
}

impl View for MeasureSet {
    type V = MeasureSetView;

    open spec fn view(&self) -> MeasureSetView {
        MeasureSetView {
            measures: self.measures@,
            unit: self.unit@,
            min: self.min,
            max: self.max,
            start: self.start,
            end: self.end,
        }
    }
}

impl MeasureSetView {
    /// Non-empty, and every sample lies within `[min, max]` by value and
    /// within `[start, end]` by time.
    pub open spec fn bounds_hold(self) -> bool {
        &&& self.measures.len() > 0
        &&& forall|i: int|
            0 <= i < self.measures.len() ==> self.min <= #[trigger] self.measures[i].1 <= self.max
                && self.start <= self.measures[i].0 <= self.end
    }

    /// The set after one more sample.
    pub open spec fn absorb(self, time: i64, value: i64) -> MeasureSetView {
        MeasureSetView {
            measures: self.measures.push((time, value)),
            unit: self.unit,
            min: if value < self.min {
                value
            } else {
                self.min
            },
            max: if value > self.max {
                value
            } else {
                self.max
            },
            start: if time < self.start {
                time
            } else {
                self.start
            },
            end: if time > self.end {
                time
            } else {
                self.end
            },
        }
    }
}

/// The set that a target's first sample starts.
pub open spec fn seeded(time: i64, value: i64, unit: Seq<char>) -> MeasureSetView {
    MeasureSetView {
        measures: seq![(time, value)],
        unit,
        min: value,
        max: value,
        start: time,
        end: time,
    }
}

/// All series by target, in the order in which targets were first seen.
pub struct MeasuresData {
    pub series: Vec<(String, MeasureSet)>,
}

/// The series of a `MeasuresData`, by target.
pub type SeriesView = Seq<(Seq<char>, MeasureSetView)>;

/// Position of `target` among the first `n` series, or -1.
pub open spec fn key_index_in(d: SeriesView, target: Seq<char>, n: int) -> int
    decreases n,
{
    if n <= 0 {
        -1
    } else if d[n - 1].0 == target {
        n - 1
    } else {
        key_index_in(d, target, n - 1)
    }
}

/// Position of `target` among the series, or -1.
pub open spec fn key_index(d: SeriesView, target: Seq<char>) -> int {
    key_index_in(d, target, d.len() as int)
}

/// The series after folding one sample of `target` into them: the target's
/// set absorbs it, or a new set is appended for an unseen target.
pub open spec fn fold_sample(
    d: SeriesView,
    target: Seq<char>,
    time: i64,
    value: i64,
    unit: Seq<char>,
) -> SeriesView {
    let i = key_index(d, target);
    if i >= 0 {
        d.update(i, (target, d[i].1.absorb(time, value)))
    } else {
        d.push((target, seeded(time, value, unit)))
    }
}

/// Targets are unique and every set keeps its bounds.
pub open spec fn series_wf(d: SeriesView) -> bool {
    &&& forall|i: int, j: int|
        0 <= i < j < d.len() ==> (#[trigger] d[i]).0 != (#[trigger] d[j]).0
    &&& forall|i: int| 0 <= i < d.len() ==> (#[trigger] d[i]).1.bounds_hold()
}

proof fn lemma_key_index_in(d: SeriesView, target: Seq<char>, n: int)
    requires
        0 <= n <= d.len(),
    ensures
        -1 <= key_index_in(d, target, n) < n,
        key_index_in(d, target, n) >= 0 ==> d[key_index_in(d, target, n)].0 == target,
        key_index_in(d, target, n) == -1 ==> forall|j: int| 0 <= j < n ==> d[j].0 != target,
    decreases n,
{
    if n > 0 {
        lemma_key_index_in(d, target, n - 1);
    }
}

/// Folding a sample keeps targets unique and every set within its bounds,
/// and the sample lands in its target's set.
pub proof fn lemma_fold_sample_wf(
    d: SeriesView,
    target: Seq<char>,
    time: i64,
    value: i64,
    unit: Seq<char>,
)
    requires
        series_wf(d),
    ensures
        series_wf(fold_sample(d, target, time, value, unit)),
        ({
            let f = fold_sample(d, target, time, value, unit);
            let k = key_index(f, target);
            &&& 0 <= k < f.len()
            &&& f[k].0 == target
            &&& f[k].1.measures.last() == (time, value)
        }),
{
    lemma_key_index_in(d, target, d.len() as int);
    let i = key_index(d, target);
    let f = fold_sample(d, target, time, value, unit);
    if i >= 0 {
        let s = d[i].1;
        let a = s.absorb(time, value);
        assert forall|j: int| 0 <= j < a.measures.len() implies a.min <= #[trigger] a.measures[j].1
            <= a.max && a.start <= a.measures[j].0 <= a.end by {
            if j < s.measures.len() {
                assert(a.measures[j] == s.measures[j]);
            }
        }
        assert(d[i].1.bounds_hold());
        assert forall|j: int| 0 <= j < f.len() implies (#[trigger] f[j]).1.bounds_hold() by {
            if j != i {
                assert(f[j] == d[j]);
            }
        }
        assert forall|p: int, q: int| 0 <= p < q < f.len() implies (#[trigger] f[p]).0 != (
        #[trigger] f[q]).0 by {
            assert(f[p].0 == d[p].0 && f[q].0 == d[q].0);
        }
        lemma_key_index_unique(f, target, i);
    } else {
        let a = seeded(time, value, unit);
        assert(a.measures[0] == (time, value));
        assert forall|j: int| 0 <= j < f.len() implies (#[trigger] f[j]).1.bounds_hold() by {
            if j < d.len() {
                assert(f[j] == d[j]);
            }
        }
        assert forall|p: int, q: int| 0 <= p < q < f.len() implies (#[trigger] f[p]).0 != (
        #[trigger] f[q]).0 by {
            if q < d.len() {
                assert(f[p] == d[p] && f[q] == d[q]);
            } else {
                assert(f[p] == d[p]);
            }
        }
        lemma_key_index_unique(f, target, d.len() as int);
    }
}

proof fn lemma_key_index_unique(d: SeriesView, target: Seq<char>, i: int)
    requires
        0 <= i < d.len(),
        d[i].0 == target,
        forall|p: int, q: int| 0 <= p < q < d.len() ==> (#[trigger] d[p]).0 != (#[trigger] d[q]).0,
    ensures
        key_index(d, target) == i,
{
    lemma_key_index_in(d, target, d.len() as int);
    let k = key_index(d, target);
    if k != i {
        if k < i {
            assert(d[k].0 != d[i].0);
        } else {
            assert(d[i].0 != d[k].0);
        }
    }
}

/// One raw row of a query result: a sample of `target` at an RFC 3339 time.
pub struct Measure {
    pub target: String,
    pub time: String,
    pub value: i64,
    pub unit: String,
}

/// The instant that an RFC 3339 string denotes, as seconds since the Unix
/// epoch and nanoseconds past that second; `None` where it does not parse.
pub uninterp spec fn rfc3339_instant(s: Seq<char>) -> Option<(i64, u32)>;

/// Relies on chrono's `DateTime::parse_from_rfc3339` for the RFC 3339
/// grammar; the parsed instant is read back with `timestamp` and
/// `timestamp_subsec_nanos`. The result depends on the text alone.
#[verifier::external_body]
fn parse_rfc3339(s: &str) -> (r: Option<(i64, u32)>)
    ensures
        r == rfc3339_instant(s@),
{
    match chrono::DateTime::parse_from_rfc3339(s) {
        Ok(t) => Some((t.timestamp(), t.timestamp_subsec_nanos())),
        Err(_) => None,
    }
}

/// Nanoseconds since the epoch of a row's time: `None` where the text does
/// not parse or the instant does not fit in an `i64` of nanoseconds.
pub open spec fn row_time_ns(time: Seq<char>) -> Option<i64> {
    match rfc3339_instant(time) {
        Some((secs, subsec_nanos)) => {
            let t = Timestamp { secs, subsec_nanos };
            if fits_i64(t.total_nanos()) {
                Some(t.total_nanos() as i64)
            } else {
                None
            }
        },
        None => None,
    }
}

/// The series after folding the first `n` rows in order; a row whose time
/// cannot be read is dropped.
pub open spec fn fold_rows(d: SeriesView, rows: Seq<Measure>, n: int) -> SeriesView
    decreases n,
{
    if n <= 0 {
        d
    } else {
        let prev = fold_rows(d, rows, n - 1);
        let row = rows[n - 1];
        match row_time_ns(row.time@) {
            Some(t) => fold_sample(prev, row.target@, t, row.value, row.unit@),
            None => prev,
        }
    }
}

/// Reads the time of a row, in nanoseconds since the epoch.
pub fn parse_time_ns(time: &String) -> (r: Option<i64>)
    ensures
        r == row_time_ns(time@),
{
    match parse_rfc3339(time.as_str()) {
        Some((secs, subsec_nanos)) => Timestamp { secs, subsec_nanos }.timestamp_nanos_opt(),
        None => None,
    }
}

impl MeasuresData {
    /// The series, by target.
    pub open spec fn view(&self) -> SeriesView {
        Seq::new(self.series@.len(), |i: int| (self.series@[i].0@, self.series@[i].1@))
    }

    pub open spec fn wf(&self) -> bool {
        series_wf(self.view())
    }

    /// No series yet.
    pub fn new() -> (r: MeasuresData)
        ensures
            r.view() == Seq::<(Seq<char>, MeasureSetView)>::empty(),
            r.wf(),
    {
        MeasuresData { series: Vec::new() }
    }

    /// Position of `target` among the series, if it has one.
    pub fn position(&self, target: &String) -> (r: Option<usize>)
        ensures
            match r {
                Some(i) => i as int == key_index(self.view(), target@),
                None => key_index(self.view(), target@) == -1,
            },
    {
        let mut i: usize = self.series.len();
        while i > 0
            invariant
                i <= self.series@.len(),
                key_index(self.view(), target@) == key_index_in(self.view(), target@, i as int),
            decreases i,
        {
            i -= 1;
            if self.series[i].0.eq(target) {
                return Some(i);
            }
        }
        None
    }

    /// Folds one sample of `target` in: its set absorbs it, or an unseen
    /// target gets a new set seeded with it. The unit of a known target is
    /// kept as it was.
    pub fn fold_measure(&mut self, target: &String, time_ns: i64, value: i64, unit: &String)
        requires
            old(self).wf(),
        ensures
            final(self).view() == fold_sample(old(self).view(), target@, time_ns, value, unit@),
            final(self).wf(),
    {
        proof {
            lemma_fold_sample_wf(self.view(), target@, time_ns, value, unit@);
            lemma_key_index_in(self.view(), target@, self.view().len() as int);
        }
        match self.position(target) {
            Some(i) => {
                let (name, mut set) = self.series.remove(i);
                if value < set.min {
                    set.min = value;
                }
                if value > set.max {
                    set.max = value;
                }
                if time_ns < set.start {
                    set.start = time_ns;
                }
                if time_ns > set.end {
                    set.end = time_ns;
                }
                set.measures.push((time_ns, value));
                self.series.insert(i, (name, set));
            },
            None => {
                let mut measures: Vec<(i64, i64)> = Vec::new();
                measures.push((time_ns, value));
                let set = MeasureSet {
                    measures,
                    unit: unit.clone(),
                    min: value,
                    max: value,
                    start: time_ns,
                    end: time_ns,
                };
                self.series.push((target.clone(), set));
            },
        }
        assert(self.view() =~= fold_sample(old(self).view(), target@, time_ns, value, unit@));
    }

    /// Folds rows in order. A row whose time does not parse, or lies outside
    /// the range of `i64` nanoseconds, is dropped and the rest go on. Targets
    /// stay unique, and every set keeps each folded value within
    /// `[min, max]` and each folded time within `[start, end]`.
    pub fn fold_measures(&mut self, rows: &Vec<Measure>)
        requires
            old(self).wf(),
        ensures
            final(self).view() == fold_rows(old(self).view(), rows@, rows@.len() as int),
            final(self).wf(),
    {
        let mut i: usize = 0;
        while i < rows.len()
            invariant
                i <= rows@.len(),
                self.wf(),
                self.view() == fold_rows(old(self).view(), rows@, i as int),
            decreases rows@.len() - i,
        {
            let row = &rows[i];
            match parse_time_ns(&row.time) {
                Some(time_ns) => {
                    self.fold_measure(&row.target, time_ns, row.value, &row.unit);
                },
                None => {},
            }
            i += 1;
        }
    }
}

/// The largest of a non-empty sequence of value keys.
pub open spec fn max_key(s: Seq<i64>) -> i64
    decreases s.len(),
{
    if s.len() <= 1 {
        s[0]
    } else {
        let m = max_key(s.drop_last());
        if s.last() > m {
            s.last()
        } else {
            m
        }
    }
}

/// The largest value key, or `None` for no values.
pub fn find_max_measure_value(measures: &[i64]) -> (r: Option<i64>)
    ensures
        r == (if measures@.len() == 0 {
            None
        } else {
            Some(max_key(measures@))
        }),
{
    if measures.len() == 0 {
        return None;
    }
    let mut best = measures[0];
    let mut i: usize = 1;
    while i < measures.len()
        invariant
            1 <= i <= measures@.len(),
            best == max_key(measures@.subrange(0, i as int)),
        decreases measures@.len() - i,
    {
        proof {
            let next = measures@.subrange(0, i as int + 1);
            assert(next.drop_last() =~= measures@.subrange(0, i as int));
        }
        if measures[i] > best {
            best = measures[i];
        }
        i += 1;
    }
    assert(measures@.subrange(0, measures@.len() as int) =~= measures@);
    Some(best)
}

/// The value keys of the samples drawn for the window.
pub open spec fn displayed_values(set: MeasureSetView, begin_ns: i64, end_ns: i64) -> Seq<i64> {
    displayed(set.measures, begin_ns, end_ns).map_values(|m: (i64, i64)| m.1)
}

/// The vertical scale of a series in the window `(begin_ns, end_ns)`: the
/// largest value among the samples drawn there, or the series' own maximum
/// when none is drawn.
pub fn get_max_measure_value(measure_set: &MeasureSet, begin_ns: i64, end_ns: i64) -> (r: i64)
    ensures
        r == (if displayed_values(measure_set@, begin_ns, end_ns).len() == 0 {
            measure_set.max
        } else {
            max_key(displayed_values(measure_set@, begin_ns, end_ns))
        }),
{
    let shown = displayed_measures(measure_set.measures.as_slice(), begin_ns, end_ns);
    let mut values: Vec<i64> = Vec::new();
    let mut i: usize = 0;
    while i < shown.len()
        invariant
            i <= shown@.len(),
            values@ == shown@.subrange(0, i as int).map_values(|m: (i64, i64)| m.1),
        decreases shown@.len() - i,
    {
        values.push(shown[i].1);
        i += 1;
        assert(values@ =~= shown@.subrange(0, i as int).map_values(|m: (i64, i64)| m.1));
    }
    assert(shown@.subrange(0, shown@.len() as int) =~= shown@);
    match find_max_measure_value(values.as_slice()) {
        Some(m) => m,
        None => measure_set.max,
    }
}

} // verus!
