//! The time-series store: series lifecycle (create, list, find, delete) and
//! measurement append/query. The store state is held in memory as plain
//! values; the unverified shell loads it from and writes it back to the
//! embedded database file, replaying measurements in run order.

use vstd::prelude::*;
use vstd::math::min;

use crate::Error;
use crate::order::sort_desc;
use crate::order::sorted_desc;
use crate::order::sorted_desc_copy;
use crate::order::lemma_sort_desc_sorted;
use crate::order::lemma_sort_desc_permutes;
use crate::order::ts_nondecreasing;

verus! {

/// One recorded value of a series: the epoch-seconds stamp taken at append
/// time, the per-series run number (1-based, strictly increasing), and the
/// value itself carried as its raw bit pattern (the core never computes on
/// values; the shell converts to and from floating point).
#[derive(Clone, Copy, Debug, PartialEq, Eq, Structural)]
pub struct Measurement {
    pub timestamp: u32,
    pub run: u32,
    pub value_bits: u64,
}

/// A series row: store-assigned id, user-chosen unique name, free-text unit,
/// and the measurements attached to it (empty in listing/lookup results).
#[derive(Debug)]
pub struct Series {
    pub id: u64,
    pub name: String,
    pub unit: String,
    pub measurements: Vec<Measurement>,
}

/// Mathematical image of a [`Series`].
pub struct SeriesView {
    pub id: u64,
    pub name: Seq<char>,
    pub unit: Seq<char>,
    pub measurements: Seq<Measurement>,
}

impl View for Series {
    type V = SeriesView;

    open spec fn view(&self) -> SeriesView {
        SeriesView {
            id: self.id,
            name: self.name@,
            unit: self.unit@,
            measurements: self.measurements@,
        }
    }
}

/// Mathematical image of the whole store: the series in insertion order and
/// the next id to hand out (ids are never reused, even after deletion).
pub struct StoreView {
    pub series: Seq<SeriesView>,
    pub next_id: u64,
}

/// A single series is well-formed when its id has been assigned (ids start
/// at 1) and its run numbers are exactly 1, 2, ..., len in order.
pub open spec fn series_wf(sv: SeriesView) -> bool {
    &&& 1 <= sv.id
    &&& forall|j: int|
        0 <= j < sv.measurements.len() ==> (#[trigger] sv.measurements[j]).run == j + 1
}

impl StoreView {
    /// Store invariant: every series is well-formed with an id below
    /// `next_id`, and names and ids are unique across the store.
    pub open spec fn wf(self) -> bool {
        &&& 1 <= self.next_id
        &&& forall|i: int|
            0 <= i < self.series.len() ==> series_wf(#[trigger] self.series[i])
                && self.series[i].id < self.next_id
        &&& forall|i: int, j: int|
            0 <= i < j < self.series.len() ==> (#[trigger] self.series[i]).name != (
            #[trigger] self.series[j]).name
        &&& forall|i: int, j: int|
            0 <= i < j < self.series.len() ==> (#[trigger] self.series[i]).id != (
            #[trigger] self.series[j]).id
    }
}

/// Whether some measurement in `ms` carries run number `r`.
pub open spec fn has_run(ms: Seq<Measurement>, r: int) -> bool {
    exists|j: int| 0 <= j < ms.len() && (#[trigger] ms[j]).run == r
}

/// Whether some series in `s` bears `name`.
pub open spec fn has_series(s: Seq<SeriesView>, name: Seq<char>) -> bool {
    exists|i: int| 0 <= i < s.len() && (#[trigger] s[i]).name == name
}

/// The index of the series bearing `name` (unique under [`StoreView::wf`]).
pub open spec fn index_of(s: Seq<SeriesView>, name: Seq<char>) -> int {
    choose|i: int| 0 <= i < s.len() && (#[trigger] s[i]).name == name
}

/// The series bearing `name`.
pub open spec fn series_named(s: Seq<SeriesView>, name: Seq<char>) -> SeriesView {
    s[index_of(s, name)]
}

/// The store. Operations resolve series by exact (case-sensitive) name;
/// absence of a series is reported as `None` or [`Error::NotFound`], never
/// conflated with a storage fault.
pub struct DataSource {
    series: Vec<Series>,
    next_id: u64,
}

impl View for DataSource {
    type V = StoreView;

    closed spec fn view(&self) -> StoreView {
        StoreView { series: self.series@.map_values(|s: Series| s@), next_id: self.next_id }
    }
}

impl DataSource {
    /// A fresh, empty store; ids will be assigned from 1 upwards.
    pub fn new() -> (r: DataSource)
        ensures
            r@.wf(),
            r@.series.len() == 0,
            r@.next_id == 1,
    {
        let r = DataSource { series: Vec::new(), next_id: 1 };
        proof {
            assert(r@.series =~= Seq::<SeriesView>::empty());
        }
        r
    }

    /// Exact-match lookup by name. Returns the series row (id, name, unit)
    /// with an empty measurement list; absence is not an error.
    pub fn get_series(&self, series: &str) -> (r: Option<Series>)
        requires
            self@.wf(),
        ensures
            match r {
                Some(row) => {
                    &&& has_series(self@.series, series@)
                    &&& row@.id == series_named(self@.series, series@).id
                    &&& row@.name == series@
                    &&& row@.unit == series_named(self@.series, series@).unit
                    &&& row@.measurements.len() == 0
                },
                None => !has_series(self@.series, series@),
            },
    {
        match self.find_index(series) {
            Some(i) => {
                let s = &self.series[i];
                proof {
                    lemma_index_of_unique(self@.series, series@, i as int);
                }
                Some(
                    Series {
                        id: s.id,
                        name: series.to_owned(),
                        unit: s.unit.clone(),
                        measurements: Vec::new(),
                    },
                )
            },
            None => None,
        }
    }

    /// Creates a new series under `name`. Fails with
    /// [`Error::ConstraintError`], leaving the store unchanged, exactly when
    /// the name is already taken; otherwise returns the materialized row
    /// (fresh id, given name and unit, no measurements).
    pub fn create_series(&mut self, name: &str, unit: &str) -> (r: Result<Series, Error>)
        requires
            old(self)@.wf(),
            old(self)@.next_id < u64::MAX,
        ensures
            final(self)@.wf(),
            match r {
                Ok(row) => {
                    &&& !has_series(old(self)@.series, name@)
                    &&& row@.id == old(self)@.next_id
                    &&& row@.name == name@
                    &&& row@.unit == unit@
                    &&& row@.measurements.len() == 0
                    &&& final(self)@.series == old(self)@.series.push(row@)
                    &&& final(self)@.next_id == old(self)@.next_id + 1
                },
                Err(e) => {
                    &&& e == Error::ConstraintError
                    &&& has_series(old(self)@.series, name@)
                    &&& final(self)@ == old(self)@
                },
            },
    {
        if self.find_index(name).is_some() {
            return Err(Error::ConstraintError);
        }
        let id = self.next_id;
        self.next_id = id + 1;
        let stored = Series {
            id,
            name: name.to_owned(),
            unit: unit.to_owned(),
            measurements: Vec::new(),
        };
        let ghost sv = stored@;
        self.series.push(stored);
        let row = Series {
            id,
            name: name.to_owned(),
            unit: unit.to_owned(),
            measurements: Vec::new(),
        };
        proof {
            assert(self@.series =~= old(self)@.series.push(sv));
            assert(row@ == sv);
            assert forall|p: int, q: int|
                0 <= p < q < self@.series.len() implies (#[trigger] self@.series[p]).name != (
            #[trigger] self@.series[q]).name by {
                if q == self@.series.len() - 1 {
                    assert(self@.series[p] == old(self)@.series[p]);
                }
            }
            assert forall|p: int, q: int|
                0 <= p < q < self@.series.len() implies (#[trigger] self@.series[p]).id != (
            #[trigger] self@.series[q]).id by {
                if q == self@.series.len() - 1 {
                    assert(self@.series[p] == old(self)@.series[p]);
                }
            }
        }
        Ok(row)
    }

    /// Appends a measurement to the series named `series`: the run number is
    /// one past the series' current maximum (1 for a fresh series) and the
    /// stamp is `now`, the caller's clock reading in epoch seconds. When the
    /// series does not exist it is first created with an empty unit if
    /// `create` is set, and otherwise the call fails with
    /// [`Error::NotFound`], leaving the store unchanged. Returns the run
    /// number assigned.
    pub fn measure(&mut self, series: &str, value_bits: u64, create: bool, now: u32) -> (r: Result<
        u32,
        Error,
    >)
        requires
            old(self)@.wf(),
            old(self)@.next_id < u64::MAX,
            forall|i: int|
                0 <= i < old(self)@.series.len() ==> (#[trigger] old(
                    self,
                )@.series[i]).measurements.len() < u32::MAX,
        ensures
            final(self)@.wf(),
            match r {
                Ok(run) => {
                    let m = Measurement { timestamp: now, run, value_bits };
                    if has_series(old(self)@.series, series@) {
                        let i = index_of(old(self)@.series, series@);
                        &&& run == old(self)@.series[i].measurements.len() + 1
                        &&& final(self)@.series == old(self)@.series.update(
                            i,
                            with_measurement(old(self)@.series[i], m),
                        )
                        &&& final(self)@.next_id == old(self)@.next_id
                    } else {
                        &&& create
                        &&& run == 1
                        &&& final(self)@.series == old(self)@.series.push(
                            SeriesView {
                                id: old(self)@.next_id,
                                name: series@,
                                unit: Seq::empty(),
                                measurements: seq![m],
                            },
                        )
                        &&& final(self)@.next_id == old(self)@.next_id + 1
                    }
                },
                Err(e) => {
                    &&& e == Error::NotFound
                    &&& !has_series(old(self)@.series, series@)
                    &&& !create
                    &&& final(self)@ == old(self)@
                },
            },
    {
        match self.find_index(series) {
            Some(i) => {
                proof {
                    lemma_index_of_unique(self@.series, series@, i as int);
                }
                let mut s = self.series.remove(i);
                let run = s.measurements.len() as u32 + 1;
                let m = Measurement { timestamp: now, run, value_bits };
                s.measurements.push(m);
                let ghost sv = s@;
                self.series.insert(i, s);
                proof {
                    assert(self@.series =~= old(self)@.series.update(i as int, sv));
                    lemma_wf_update(old(self)@, i as int, sv, self@);
                }
                Ok(run)
            },
            None => {
                if !create {
                    return Err(Error::NotFound);
                }
                let id = self.next_id;
                self.next_id = id + 1;
                let m = Measurement { timestamp: now, run: 1, value_bits };
                let mut ms: Vec<Measurement> = Vec::new();
                ms.push(m);
                let stored = Series {
                    id,
                    name: series.to_owned(),
                    unit: String::new(),
                    measurements: ms,
                };
                let ghost sv = stored@;
                self.series.push(stored);
                proof {
                    assert(self@.series =~= old(self)@.series.push(sv));
                    assert(sv.measurements =~= seq![m]);
                    assert forall|p: int, q: int|
                        0 <= p < q < self@.series.len() implies (#[trigger] self@.series[p]).name
                        != (#[trigger] self@.series[q]).name by {
                        if q == self@.series.len() - 1 {
                            assert(self@.series[p] == old(self)@.series[p]);
                        }
                    }
                    assert forall|p: int, q: int|
                        0 <= p < q < self@.series.len() implies (#[trigger] self@.series[p]).id != (
                    #[trigger] self@.series[q]).id by {
                        if q == self@.series.len() - 1 {
                            assert(self@.series[p] == old(self)@.series[p]);
                        }
                    }
                }
                Ok(1)
            },
        }
    }

    /// Deletes the series named `series` together with all its measurements,
    /// returning how many measurements were removed. Fails with
    /// [`Error::NotFound`], leaving the store unchanged, exactly when no such
    /// series exists; afterwards the name no longer resolves.
    pub fn delete_series(&mut self, series: &str) -> (r: Result<usize, Error>)
        requires
            old(self)@.wf(),
        ensures
            final(self)@.wf(),
            match r {
                Ok(count) => {
                    &&& has_series(old(self)@.series, series@)
                    &&& count == series_named(old(self)@.series, series@).measurements.len()
                    &&& final(self)@.series == old(self)@.series.remove(
                        index_of(old(self)@.series, series@),
                    )
                    &&& final(self)@.next_id == old(self)@.next_id
                    &&& !has_series(final(self)@.series, series@)
                },
                Err(e) => {
                    &&& e == Error::NotFound
                    &&& !has_series(old(self)@.series, series@)
                    &&& final(self)@ == old(self)@
                },
            },
    {
        match self.find_index(series) {
            Some(i) => {
                proof {
                    lemma_index_of_unique(self@.series, series@, i as int);
                }
                let s = self.series.remove(i);
                let count = s.measurements.len();
                proof {
                    assert(self@.series =~= old(self)@.series.remove(i as int));
                    lemma_wf_remove(old(self)@, i as int, self@);
                    assert forall|j: int|
                        0 <= j < self@.series.len() implies (#[trigger] self@.series[j]).name
                        != series@ by {
                        if j < i as int {
                            assert(old(self)@.series[j].name != old(self)@.series[i as int].name);
                        } else {
                            assert(self@.series[j] == old(self)@.series[j + 1]);
                            assert(old(self)@.series[i as int].name != old(self)@.series[
                                j + 1].name);
                        }
                    }
                }
                Ok(count)
            },
            None => Err(Error::NotFound),
        }
    }

    /// All series rows (id, name, unit) in insertion order, each with an
    /// empty measurement list.
    pub fn list_series(&self) -> (r: Vec<Series>)
        ensures
            r@.len() == self@.series.len(),
            forall|i: int|
                0 <= i < r@.len() ==> {
                    &&& (#[trigger] r@[i])@.id == self@.series[i].id
                    &&& r@[i]@.name == self@.series[i].name
                    &&& r@[i]@.unit == self@.series[i].unit
                    &&& r@[i]@.measurements.len() == 0
                },
    {
        let mut out: Vec<Series> = Vec::new();
        let n = self.series.len();
        let mut i: usize = 0;
        while i < n
            invariant
                n == self@.series.len(),
                n == self.series@.len(),
                i <= n,
                out@.len() == i,
                forall|j: int|
                    0 <= j < i ==> {
                        &&& (#[trigger] out@[j])@.id == self@.series[j].id
                        &&& out@[j]@.name == self@.series[j].name
                        &&& out@[j]@.unit == self@.series[j].unit
                        &&& out@[j]@.measurements.len() == 0
                    },
            decreases n - i,
        {
            let s = &self.series[i];
            out.push(
                Series {
                    id: s.id,
                    name: s.name.clone(),
                    unit: s.unit.clone(),
                    measurements: Vec::new(),
                },
            );
            i += 1;
        }
        out
    }

    /// Loads the series named `series` with up to `points` of its
    /// measurements attached, most-recent-first (see [`query_result`]);
    /// `points` of 0 yields the series with no measurements. Returns `None`,
    /// not an error, when no such series exists.
    pub fn series(&self, series: &str, points: u8) -> (r: Option<Series>)
        requires
            self@.wf(),
        ensures
            match r {
                Some(full) => {
                    &&& has_series(self@.series, series@)
                    &&& full@.id == series_named(self@.series, series@).id
                    &&& full@.name == series@
                    &&& full@.unit == series_named(self@.series, series@).unit
                    &&& full@.measurements == query_result(series_named(self@.series, series@), points)
                },
                None => !has_series(self@.series, series@),
            },
    {
        match self.find_index(series) {
            Some(i) => {
                proof {
                    lemma_index_of_unique(self@.series, series@, i as int);
                }
                let s = &self.series[i];
                let mut sorted = sorted_desc_copy(&s.measurements);
                proof {
                    lemma_sort_desc_permutes(s@.measurements);
                }
                sorted.truncate(points as usize);
                proof {
                    if points as int >= s@.measurements.len() {
                        assert(sorted@ =~= sort_desc(s@.measurements).take(
                            s@.measurements.len() as int,
                        ));
                    }
                }
                Some(
                    Series {
                        id: s.id,
                        name: series.to_owned(),
                        unit: s.unit.clone(),
                        measurements: sorted,
                    },
                )
            },
            None => None,
        }
    }

    /// A full copy of the store's contents in insertion order, measurements
    /// included — what the persistence shell writes back to disk.
    pub fn snapshot(&self) -> (r: Vec<Series>)
        ensures
            r@.len() == self@.series.len(),
            forall|i: int| 0 <= i < r@.len() ==> (#[trigger] r@[i])@ == self@.series[i],
    {
        let mut out: Vec<Series> = Vec::new();
        let n = self.series.len();
        let mut i: usize = 0;
        while i < n
            invariant
                n == self@.series.len(),
                n == self.series@.len(),
                i <= n,
                out@.len() == i,
                forall|j: int| 0 <= j < i ==> (#[trigger] out@[j])@ == self@.series[j],
            decreases n - i,
        {
            let s = &self.series[i];
            let mut ms: Vec<Measurement> = Vec::new();
            let k = s.measurements.len();
            let mut j: usize = 0;
            proof {
                assert(ms@ =~= s.measurements@.take(0));
            }
            while j < k
                invariant
                    k == s.measurements@.len(),
                    j <= k,
                    ms@ == s.measurements@.take(j as int),
                decreases k - j,
            {
                ms.push(s.measurements[j]);
                proof {
                    assert(s.measurements@.take(j + 1) =~= s.measurements@.take(j as int).push(
                        s.measurements@[j as int],
                    ));
                }
                j += 1;
            }
            proof {
                assert(s.measurements@.take(k as int) =~= s.measurements@);
            }
            out.push(Series { id: s.id, name: s.name.clone(), unit: s.unit.clone(), measurements: ms });
            i += 1;
        }
        out
    }

    /// The id the next created series would receive.
    pub fn next_id(&self) -> (r: u64)
        ensures
            r == self@.next_id,
    {
        self.next_id
    }

    /// Index of the series bearing `name`, if any.
    fn find_index(&self, name: &str) -> (r: Option<usize>)
        ensures
            match r {
                Some(i) => i < self@.series.len() && self@.series[i as int].name == name@,
                None => !has_series(self@.series, name@),
            },
    {
        let target: String = name.to_owned();
        let n = self.series.len();
        let mut i: usize = 0;
        while i < n
            invariant
                n == self@.series.len(),
                i <= n,
                self@.series.len() == self.series@.len(),
                forall|j: int| 0 <= j < i ==> (#[trigger] self@.series[j]).name != name@,
                target@ == name@,
            decreases n - i,
        {
            if self.series[i].name == target {
                assert(self@.series[i as int].name == name@);
                return Some(i);
            }
            i += 1;
        }
        None
    }
}

/// What a query for `points` measurements of the series `sv` returns: the
/// measurements rearranged most-recent-first, cut down to the first
/// `points` of them.
pub open spec fn query_result(sv: SeriesView, points: u8) -> Seq<Measurement> {
    sort_desc(sv.measurements).take(min(points as int, sv.measurements.len() as int))
}

/// `sv` with `m` appended to its measurements.
pub open spec fn with_measurement(sv: SeriesView, m: Measurement) -> SeriesView {
    SeriesView {
        id: sv.id,
        name: sv.name,
        unit: sv.unit,
        measurements: sv.measurements.push(m),
    }
}

/// Appending the next run to one series keeps the store well-formed.
proof fn lemma_wf_update(pre: StoreView, i: int, sv: SeriesView, post: StoreView)
    requires
        pre.wf(),
        0 <= i < pre.series.len(),
        sv.id == pre.series[i].id,
        sv.name == pre.series[i].name,
        sv.measurements.len() == pre.series[i].measurements.len() + 1,
        forall|j: int|
            0 <= j < pre.series[i].measurements.len() ==> (#[trigger] sv.measurements[j])
                == pre.series[i].measurements[j],
        sv.measurements.last().run == pre.series[i].measurements.len() + 1,
        post.series == pre.series.update(i, sv),
        post.next_id == pre.next_id,
    ensures
        post.wf(),
{
    assert forall|k: int| 0 <= k < post.series.len() implies series_wf(#[trigger] post.series[k])
        && post.series[k].id < post.next_id by {
        if k == i {
            assert(series_wf(pre.series[i]));
            assert forall|j: int| 0 <= j < sv.measurements.len() implies (
            #[trigger] sv.measurements[j]).run == j + 1 by {
                if j < pre.series[i].measurements.len() {
                    assert(sv.measurements[j] == pre.series[i].measurements[j]);
                } else {
                    assert(sv.measurements[j] == sv.measurements.last());
                }
            }
        } else {
            assert(post.series[k] == pre.series[k]);
        }
    }
    assert forall|p: int, q: int|
        0 <= p < q < post.series.len() implies (#[trigger] post.series[p]).name != (
    #[trigger] post.series[q]).name by {
        assert(post.series[p].name == pre.series[p].name);
        assert(post.series[q].name == pre.series[q].name);
    }
    assert forall|p: int, q: int|
        0 <= p < q < post.series.len() implies (#[trigger] post.series[p]).id != (
    #[trigger] post.series[q]).id by {
        assert(post.series[p].id == pre.series[p].id);
        assert(post.series[q].id == pre.series[q].id);
    }
}

/// Removing one series keeps the store well-formed.
proof fn lemma_wf_remove(pre: StoreView, i: int, post: StoreView)
    requires
        pre.wf(),
        0 <= i < pre.series.len(),
        post.series == pre.series.remove(i),
        post.next_id == pre.next_id,
    ensures
        post.wf(),
{
    assert forall|k: int| 0 <= k < post.series.len() implies series_wf(#[trigger] post.series[k])
        && post.series[k].id < post.next_id by {
        if k < i {
            assert(post.series[k] == pre.series[k]);
        } else {
            assert(post.series[k] == pre.series[k + 1]);
        }
    }
    assert forall|p: int, q: int|
        0 <= p < q < post.series.len() implies (#[trigger] post.series[p]).name != (
    #[trigger] post.series[q]).name by {
        let p0 = if p < i { p } else { p + 1 };
        let q0 = if q < i { q } else { q + 1 };
        assert(post.series[p] == pre.series[p0]);
        assert(post.series[q] == pre.series[q0]);
    }
    assert forall|p: int, q: int|
        0 <= p < q < post.series.len() implies (#[trigger] post.series[p]).id != (
    #[trigger] post.series[q]).id by {
        let p0 = if p < i { p } else { p + 1 };
        let q0 = if q < i { q } else { q + 1 };
        assert(post.series[p] == pre.series[p0]);
        assert(post.series[q] == pre.series[q0]);
    }
}

/// Under unique names, any index whose series bears `name` is the one
/// [`index_of`] picks, so [`series_named`] denotes that series.
pub proof fn lemma_index_of_unique(s: Seq<SeriesView>, name: Seq<char>, i: int)
    requires
        forall|p: int, q: int|
            0 <= p < q < s.len() ==> (#[trigger] s[p]).name != (#[trigger] s[q]).name,
        0 <= i < s.len(),
        s[i].name == name,
    ensures
        index_of(s, name) == i,
        series_named(s, name) == s[i],
        has_series(s, name),
{
    assert(has_series(s, name));
    let j = index_of(s, name);
    assert(0 <= j < s.len() && s[j].name == name);
    if i < j {
        assert(s[i].name != s[j].name);
    } else if j < i {
        assert(s[j].name != s[i].name);
    }
}

/// Law: a series created under a fresh name is found immediately
/// afterwards, exactly as it was created — same name, same unit, and an
/// empty measurement list.
pub proof fn lemma_find_after_create(s: Seq<SeriesView>, sv: SeriesView)
    requires
        forall|p: int, q: int|
            0 <= p < q < s.len() ==> (#[trigger] s[p]).name != (#[trigger] s[q]).name,
        !has_series(s, sv.name),
        sv.measurements.len() == 0,
    ensures
        has_series(s.push(sv), sv.name),
        series_named(s.push(sv), sv.name) == sv,
        series_named(s.push(sv), sv.name).measurements.len() == 0,
{
    let t = s.push(sv);
    assert(t[s.len() as int] == sv);
    assert forall|p: int, q: int|
        0 <= p < q < t.len() implies (#[trigger] t[p]).name != (#[trigger] t[q]).name by {
        if q == s.len() as int {
            assert(t[p] == s[p]);
            assert(!(0 <= p < s.len() && s[p].name == sv.name));
        } else {
            assert(t[p] == s[p]);
            assert(t[q] == s[q]);
        }
    }
    lemma_index_of_unique(t, sv.name, s.len() as int);
}

/// Law: a deleted series stays gone — after removing the series bearing
/// `name` from a store with unique names, no series bears `name`, so a
/// subsequent lookup or query returns nothing.
pub proof fn lemma_absent_after_delete(s: Seq<SeriesView>, name: Seq<char>, i: int)
    requires
        forall|p: int, q: int|
            0 <= p < q < s.len() ==> (#[trigger] s[p]).name != (#[trigger] s[q]).name,
        0 <= i < s.len(),
        s[i].name == name,
    ensures
        !has_series(s.remove(i), name),
{
    let t = s.remove(i);
    assert forall|j: int| 0 <= j < t.len() implies (#[trigger] t[j]).name != name by {
        if j < i {
            assert(t[j] == s[j]);
        } else {
            assert(t[j] == s[j + 1]);
        }
    }
}

/// Law: the run numbers of a well-formed series with `N` measurements are
/// exactly the set `{1, 2, ..., N}`, in order — so `N` appends to a fresh
/// series yield runs 1 through `N`, whatever the values and stamps were.
pub proof fn lemma_runs_are_one_to_n(sv: SeriesView)
    requires
        series_wf(sv),
    ensures
        forall|j: int| 0 <= j < sv.measurements.len() ==> (#[trigger] sv.measurements[j]).run == j
            + 1,
        forall|r: int| 1 <= r <= sv.measurements.len() ==> #[trigger] has_run(sv.measurements, r),
{
    assert forall|r: int| 1 <= r <= sv.measurements.len() implies #[trigger] has_run(
        sv.measurements,
        r,
    ) by {
        assert(sv.measurements[r - 1].run == r);
    }
}

/// Law: under a non-decreasing clock, appends keep the timestamps of a
/// series non-decreasing in insertion order — one step of the induction:
/// if the stamps so far never decrease and the clock has not gone back
/// behind the last stamp, the appended measurement keeps it so.
pub proof fn lemma_append_keeps_ts_monotone(ms: Seq<Measurement>, m: Measurement)
    requires
        ts_nondecreasing(ms),
        ms.len() > 0 ==> ms.last().timestamp <= m.timestamp,
    ensures
        ts_nondecreasing(ms.push(m)),
{
    let t = ms.push(m);
    assert forall|i: int, j: int|
        0 <= i <= j < t.len() implies t[i].timestamp <= t[j].timestamp by {
        if j == ms.len() as int {
            if i < j {
                assert(ms[i].timestamp <= ms.last().timestamp);
            }
        } else {
            assert(t[i] == ms[i]);
            assert(t[j] == ms[j]);
        }
    }
}

/// Law: a query returns at most `points` measurements, most-recent-first; a
/// query for 0 points returns none; and what it returns are measurements of
/// the series, each run appearing at most once.
pub proof fn lemma_query_shape(sv: SeriesView, points: u8)
    ensures
        query_result(sv, points).len() == min(points as int, sv.measurements.len() as int),
        sorted_desc(query_result(sv, points)),
        points == 0 ==> query_result(sv, points) == Seq::<Measurement>::empty(),
        forall|i: int|
            0 <= i < query_result(sv, points).len() ==> sv.measurements.to_multiset().contains(
                #[trigger] query_result(sv, points)[i],
            ),
{
    broadcast use vstd::seq_lib::group_seq_properties;

    lemma_sort_desc_sorted(sv.measurements);
    lemma_sort_desc_permutes(sv.measurements);
    let k = min(points as int, sv.measurements.len() as int);
    let sorted = sort_desc(sv.measurements);
    let q = query_result(sv, points);
    assert forall|i: int, j: int|
        0 <= i <= j < q.len() implies q[i].timestamp >= q[j].timestamp by {
        assert(q[i] == sorted[i]);
        assert(q[j] == sorted[j]);
    }
    if points == 0 {
        assert(q =~= Seq::<Measurement>::empty());
    }
    assert forall|i: int| 0 <= i < q.len() implies sv.measurements.to_multiset().contains(
        #[trigger] q[i],
    ) by {
        assert(q[i] == sorted[i]);
        assert(sorted.contains(sorted[i]));
    }
}

} // verus!
