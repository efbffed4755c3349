//! The collector: a registry mapping operation keys to running statistics
//! accumulators, plus the category table and the global pause flag.

use vstd::prelude::*;

use vstd::multiset::Multiset;

use crate::category::{CategoryInfo, CategoryInfoModel};
use crate::hist::{
    hist_record, hist_recorded_pairs, hist_reset, new_histogram, pairs_quantile, pairs_wf,
    quantile_from_pairs, sum_counts, DurationHistogram, HIST_MAX_RECORDABLE,
};

verus! {

broadcast use vstd::multiset::group_multiset_axioms;

// ---------------------------------------------------------------------------
// Association sequences keyed by strings
// ---------------------------------------------------------------------------
/// Some entry of the association sequence has key `k`.
pub open spec fn kv_has<T>(s: Seq<(Seq<char>, T)>, k: Seq<char>) -> bool {
    exists|i: int| 0 <= i < s.len() && (#[trigger] s[i]).0 == k
}

/// The index of the entry with key `k` (meaningful under [`kv_unique`]).
pub open spec fn kv_index<T>(s: Seq<(Seq<char>, T)>, k: Seq<char>) -> int {
    choose|i: int| 0 <= i < s.len() && (#[trigger] s[i]).0 == k
}

/// The value stored under key `k`.
pub open spec fn kv_get<T>(s: Seq<(Seq<char>, T)>, k: Seq<char>) -> T {
    s[kv_index(s, k)].1
}

/// No two entries share a key.
pub open spec fn kv_unique<T>(s: Seq<(Seq<char>, T)>) -> bool {
    forall|i: int, j: int| 0 <= i < j < s.len() ==> (#[trigger] s[i]).0 != (#[trigger] s[j]).0
}

/// Under uniqueness, an entry with key `k` at position `i` pins down
/// `kv_index`.
pub proof fn lemma_kv_index_unique<T>(s: Seq<(Seq<char>, T)>, k: Seq<char>, i: int)
    requires
        kv_unique(s),
        0 <= i < s.len(),
        s[i].0 == k,
    ensures
        kv_has(s, k),
        kv_index(s, k) == i,
{
    assert(kv_has(s, k));
    let j = kv_index(s, k);
    if i != j {
        assert(s[i].0 != s[j].0);
    }
}

// ---------------------------------------------------------------------------
// The statistics accumulator
// ---------------------------------------------------------------------------
/// Mathematical image of one running accumulator: the scalar summary
/// fields plus the multiset of recorded values feeding the quantile store.
pub ghost struct AccumModel {
    /// Number of recorded measurements (saturating at `u64::MAX`).
    pub count: u64,
    /// Sum of recorded durations in microseconds (saturating).
    pub total: u64,
    /// Smallest recorded duration; zero while empty.
    pub min: u64,
    /// Largest recorded duration; zero while empty.
    pub max: u64,
    /// Every value handed to the quantile store, clamped to what it can
    /// track.
    pub values: Multiset<u64>,
}

/// The accumulator of a key never seen.
pub open spec fn empty_accum() -> AccumModel {
    AccumModel { count: 0, total: 0, min: 0, max: 0, values: Multiset::empty() }
}

/// A recorded value is clamped to what the quantile store can track.
pub open spec fn clamp_recordable(d: u64) -> u64 {
    if d > HIST_MAX_RECORDABLE {
        HIST_MAX_RECORDABLE
    } else {
        d
    }
}

/// One measurement folded into an accumulator: the count grows by one and
/// the total by the duration (both saturating), min and max are updated,
/// and the clamped value joins the quantile store.
pub open spec fn accum_record_model(a: AccumModel, d: u64) -> AccumModel {
    AccumModel {
        count: if a.count == u64::MAX {
            u64::MAX
        } else {
            (a.count + 1) as u64
        },
        total: if a.total + d > u64::MAX {
            u64::MAX
        } else {
            (a.total + d) as u64
        },
        min: if a.count == 0 || d < a.min {
            d
        } else {
            a.min
        },
        max: if a.count == 0 || d > a.max {
            d
        } else {
            a.max
        },
        values: a.values.insert(clamp_recordable(d)),
    }
}

/// Internal consistency of an accumulator: the count mirrors the store
/// (up to saturation), an empty accumulator is all zeros, and the store
/// holds only trackable values.
pub open spec fn accum_wf(a: AccumModel) -> bool {
    &&& a.values.len() <= u64::MAX ==> a.count == a.values.len()
    &&& a.values.len() > u64::MAX ==> a.count == u64::MAX
    &&& a.count == 0 ==> a.total == 0 && a.min == 0 && a.max == 0
    &&& a.count > 0 ==> a.min <= a.max
    &&& forall|v: u64| #[trigger] a.values.count(v) > 0 ==> v <= HIST_MAX_RECORDABLE
}

/// Recording preserves accumulator consistency.
pub proof fn lemma_accum_record_wf(a: AccumModel, d: u64)
    requires
        accum_wf(a),
    ensures
        accum_wf(accum_record_model(a, d)),
{
    let r = accum_record_model(a, d);
    assert(r.values.len() == a.values.len() + 1);
    assert forall|v: u64| #[trigger] r.values.count(v) > 0 implies v
        <= HIST_MAX_RECORDABLE by {
        if v != clamp_recordable(d) {
            assert(a.values.count(v) > 0);
        }
    }
}

/// The running summary for one operation key: count, total, min, max and
/// the quantile store.
pub struct Accumulator {
    count: u64,
    total_micros: u64,
    min_micros: u64,
    max_micros: u64,
    hist: DurationHistogram,
}

impl View for Accumulator {
    type V = AccumModel;

    closed spec fn view(&self) -> AccumModel {
        AccumModel {
            count: self.count,
            total: self.total_micros,
            min: self.min_micros,
            max: self.max_micros,
            values: crate::hist::hist_contents(self.hist),
        }
    }
}

impl Accumulator {
    /// A fresh, empty accumulator.
    pub fn new() -> (r: Accumulator)
        ensures
            r@ == empty_accum(),
            accum_wf(r@),
    {
        let r = Accumulator {
            count: 0,
            total_micros: 0,
            min_micros: 0,
            max_micros: 0,
            hist: new_histogram(),
        };
        proof {
            assert(r@ == empty_accum());
        }
        r
    }

    /// Fold one measurement in. Never fails: a duration of zero is valid,
    /// and growth beyond what the counters can hold saturates.
    pub fn record(&mut self, duration_micros: u64)
        requires
            accum_wf(old(self)@),
        ensures
            final(self)@ == accum_record_model(old(self)@, duration_micros),
            accum_wf(final(self)@),
    {
        proof {
            lemma_accum_record_wf(self@, duration_micros);
        }
        let d = duration_micros;
        if self.count == 0 {
            self.min_micros = d;
            self.max_micros = d;
        } else {
            if d < self.min_micros {
                self.min_micros = d;
            }
            if d > self.max_micros {
                self.max_micros = d;
            }
        }
        self.count = self.count.saturating_add(1);
        self.total_micros = self.total_micros.saturating_add(d);
        let clamped = if d > HIST_MAX_RECORDABLE {
            HIST_MAX_RECORDABLE
        } else {
            d
        };
        hist_record(&mut self.hist, clamped);
    }

    /// Zero every field in place; the key this accumulator serves stays
    /// registered with its owner.
    pub fn reset(&mut self)
        ensures
            final(self)@ == empty_accum(),
            accum_wf(final(self)@),
    {
        self.count = 0;
        self.total_micros = 0;
        self.min_micros = 0;
        self.max_micros = 0;
        hist_reset(&mut self.hist);
    }
}

// ---------------------------------------------------------------------------
// Point-in-time statistics snapshots
// ---------------------------------------------------------------------------
/// A consistent point-in-time copy of one key's statistics. Percentiles
/// are quantiles of the quantization classes the store reported when the
/// snapshot was taken.
#[derive(Debug, Clone, Copy, PartialEq, Eq, Structural)]
pub struct OperationStats {
    /// Number of times this operation was recorded.
    pub count: u64,
    /// Total time spent in this operation, in microseconds.
    pub total_micros: u64,
    /// Smallest time recorded, in microseconds (zero when empty).
    pub min_time_micros: u64,
    /// Largest time recorded, in microseconds (zero when empty).
    pub max_time_micros: u64,
    /// Median, in microseconds.
    pub p50: u64,
    /// 95th percentile, in microseconds.
    pub p95: u64,
    /// 99th percentile, in microseconds.
    pub p99: u64,
    /// 99.9th percentile, in microseconds.
    pub p999: u64,
}

/// The snapshot `s` is a faithful copy of the accumulator `a`: scalar
/// fields agree, and the percentiles are the quantiles of a pair sequence
/// the quantile store reported for `a`'s values.
pub open spec fn snapshot_matches(s: OperationStats, a: AccumModel) -> bool {
    &&& s.count == a.count
    &&& s.total_micros == a.total
    &&& s.min_time_micros == a.min
    &&& s.max_time_micros == a.max
    &&& s.p50 <= s.p95 <= s.p99 <= s.p999
    &&& a.count == 0 ==> s.p50 == 0 && s.p95 == 0 && s.p99 == 0 && s.p999 == 0
    &&& exists|pairs: Seq<(u64, u64)>|
        #![trigger pairs_wf(pairs, a.values)]
        {
            &&& pairs_wf(pairs, a.values)
            &&& s.p50 == pairs_quantile(pairs, 500)
            &&& s.p95 == pairs_quantile(pairs, 950)
            &&& s.p99 == pairs_quantile(pairs, 990)
            &&& s.p999 == pairs_quantile(pairs, 999)
        }
}

impl Default for OperationStats {
    /// The all-zero snapshot: no samples, so every derived statistic is
    /// zero.
    fn default() -> (r: OperationStats)
        ensures
            r == (OperationStats {
                count: 0,
                total_micros: 0,
                min_time_micros: 0,
                max_time_micros: 0,
                p50: 0,
                p95: 0,
                p99: 0,
                p999: 0,
            }),
    {
        OperationStats {
            count: 0,
            total_micros: 0,
            min_time_micros: 0,
            max_time_micros: 0,
            p50: 0,
            p95: 0,
            p99: 0,
            p999: 0,
        }
    }
}

impl OperationStats {
    /// Mean duration in microseconds: zero when no samples were recorded,
    /// the integer quotient of total by count otherwise.
    pub fn mean(&self) -> (r: u64)
        ensures
            r == crate::mean_spec(self.count, self.total_micros),
    {
        crate::mean_of(self.count, self.total_micros)
    }

    /// Mean time in microseconds; the same quantity as [`Self::mean`].
    pub fn mean_time_micros(&self) -> (r: u64)
        ensures
            r == crate::mean_spec(self.count, self.total_micros),
    {
        crate::mean_of(self.count, self.total_micros)
    }

    /// Total time in microseconds.
    pub fn total_time_micros(&self) -> (r: u64)
        ensures
            r == self.total_micros,
    {
        self.total_micros
    }

    /// A rough spread estimate: zero below two samples, otherwise the
    /// larger of a quarter of the min-to-max range and a tenth of the
    /// mean. A documented approximation, not a true standard deviation.
    pub fn std_dev_micros(&self) -> (r: u64)
        requires
            self.min_time_micros <= self.max_time_micros,
        ensures
            r == std_dev_spec(self.count, self.total_micros, self.min_time_micros,
                self.max_time_micros),
    {
        if self.count < 2 {
            0
        } else {
            let spread = (self.max_time_micros - self.min_time_micros) / 4;
            let tenth = crate::mean_of(self.count, self.total_micros) / 10;
            if spread > tenth {
                spread
            } else {
                tenth
            }
        }
    }

    /// The 50th percentile (median) in microseconds.
    pub fn p50_micros(&self) -> (r: u64)
        ensures
            r == self.p50,
    {
        self.p50
    }

    /// The 95th percentile in microseconds.
    pub fn p95_micros(&self) -> (r: u64)
        ensures
            r == self.p95,
    {
        self.p95
    }

    /// The 99th percentile in microseconds.
    pub fn p99_micros(&self) -> (r: u64)
        ensures
            r == self.p99,
    {
        self.p99
    }

    /// The 99.9th percentile in microseconds.
    pub fn p999_micros(&self) -> (r: u64)
        ensures
            r == self.p999,
    {
        self.p999
    }
}

/// The spread approximation [`OperationStats::std_dev_micros`] returns.
pub open spec fn std_dev_spec(count: u64, total: u64, min: u64, max: u64) -> u64
    recommends
        min <= max,
{
    if count < 2 {
        0
    } else {
        let spread = ((max - min) as u64 / 4) as u64;
        let tenth = (crate::mean_spec(count, total) / 10) as u64;
        if spread > tenth {
            spread
        } else {
            tenth
        }
    }
}

/// Take a consistent snapshot of one accumulator: scalar fields are
/// copied, percentiles are computed from the quantile store's report.
/// Compute the four percentile fields from the quantile store: median,
/// 95th, 99th and 99.9th, in that (non-decreasing) order, all zero when
/// the store is empty.
fn hist_quantile_fields(h: &crate::hist::DurationHistogram) -> (q: (u64, u64, u64, u64))
    ensures
        q.0 <= q.1 <= q.2 <= q.3,
        crate::hist::hist_contents(*h).len() == 0 ==> q.0 == 0 && q.1 == 0 && q.2 == 0 && q.3
            == 0,
        exists|pairs: Seq<(u64, u64)>|
            #![trigger pairs_wf(pairs, crate::hist::hist_contents(*h))]
            {
                &&& pairs_wf(pairs, crate::hist::hist_contents(*h))
                &&& q.0 == pairs_quantile(pairs, 500)
                &&& q.1 == pairs_quantile(pairs, 950)
                &&& q.2 == pairs_quantile(pairs, 990)
                &&& q.3 == pairs_quantile(pairs, 999)
            },
{
    let pairs = hist_recorded_pairs(h);
    proof {
        crate::hist::lemma_pairs_wf_parts(pairs@, crate::hist::hist_contents(*h));
    }
    let p50 = quantile_from_pairs(&pairs, 500);
    let p95 = quantile_from_pairs(&pairs, 950);
    let p99 = quantile_from_pairs(&pairs, 990);
    let p999 = quantile_from_pairs(&pairs, 999);
    proof {
        crate::hist::lemma_pairs_quantile_monotone(pairs@, 500, 950);
        crate::hist::lemma_pairs_quantile_monotone(pairs@, 950, 990);
        crate::hist::lemma_pairs_quantile_monotone(pairs@, 990, 999);
        crate::hist::lemma_sum_counts_nonneg(pairs@);
        if crate::hist::hist_contents(*h).len() == 0 {
            assert(sum_counts(pairs@) == 0);
        }
    }
    (p50, p95, p99, p999)
}

fn snapshot_of(a: &Accumulator) -> (s: OperationStats)
    requires
        accum_wf(a@),
    ensures
        snapshot_matches(s, a@),
{
    let q = hist_quantile_fields(&a.hist);
    proof {
        if a@.count == 0 {
            assert(a@.values.len() == 0);
        }
    }
    OperationStats {
        count: a.count,
        total_micros: a.total_micros,
        min_time_micros: a.min_micros,
        max_time_micros: a.max_micros,
        p50: q.0,
        p95: q.1,
        p99: q.2,
        p999: q.3,
    }
}

// ---------------------------------------------------------------------------
// The collector
// ---------------------------------------------------------------------------
/// Mathematical image of the whole collector: the two keyed tables and
/// the pause flag.
pub ghost struct CollectorModel {
    /// Per-key accumulators, in first-record order.
    pub stats: Seq<(Seq<char>, AccumModel)>,
    /// Per-key category metadata, in first-registration order.
    pub cats: Seq<(Seq<char>, CategoryInfoModel)>,
    /// While set, all recording is dropped.
    pub paused: bool,
}

/// Keys are unique in both tables and every accumulator is consistent.
pub open spec fn collector_wf(m: CollectorModel) -> bool {
    &&& kv_unique(m.stats)
    &&& kv_unique(m.cats)
    &&& forall|i: int| 0 <= i < m.stats.len() ==> accum_wf((#[trigger] m.stats[i]).1)
}

/// The state of a collector that has never recorded anything.
pub open spec fn empty_collector() -> CollectorModel {
    CollectorModel { stats: Seq::empty(), cats: Seq::empty(), paused: false }
}

/// What `record` does: nothing while paused; otherwise the key's
/// accumulator (a fresh one on first sight) absorbs the measurement.
pub open spec fn record_model(m: CollectorModel, k: Seq<char>, d: u64) -> CollectorModel {
    if m.paused {
        m
    } else if kv_has(m.stats, k) {
        CollectorModel {
            stats: m.stats.update(
                kv_index(m.stats, k),
                (k, accum_record_model(kv_get(m.stats, k), d)),
            ),
            cats: m.cats,
            paused: m.paused,
        }
    } else {
        CollectorModel {
            stats: m.stats.push((k, accum_record_model(empty_accum(), d))),
            cats: m.cats,
            paused: m.paused,
        }
    }
}

/// What `record_with_category` does: nothing while paused; otherwise the
/// measurement is recorded and, only if the key has no category yet, the
/// given one is registered — the first writer wins.
pub open spec fn record_with_category_model(
    m: CollectorModel,
    k: Seq<char>,
    c: CategoryInfoModel,
    d: u64,
) -> CollectorModel {
    if m.paused {
        m
    } else {
        let r = record_model(m, k, d);
        if kv_has(m.cats, k) {
            r
        } else {
            CollectorModel { stats: r.stats, cats: m.cats.push((k, c)), paused: r.paused }
        }
    }
}

/// The count recorded under one key (zero for unknown keys).
pub open spec fn stats_count_of(m: CollectorModel, k: Seq<char>) -> int {
    if kv_has(m.stats, k) {
        kv_get(m.stats, k).count as int
    } else {
        0
    }
}

/// Whether any key has recorded measurements.
pub open spec fn has_data_model(m: CollectorModel) -> bool {
    exists|i: int| 0 <= i < m.stats.len() && (#[trigger] m.stats[i]).1.count > 0
}

/// Addition that sticks at `u64::MAX`.
pub open spec fn sat_add_u64(a: int, b: int) -> int {
    if a + b > u64::MAX {
        u64::MAX as int
    } else {
        a + b
    }
}

/// The saturating sum of all per-key counts.
pub open spec fn total_ops_model(s: Seq<(Seq<char>, AccumModel)>) -> int
    decreases s.len(),
{
    if s.len() == 0 {
        0
    } else {
        sat_add_u64(total_ops_model(s.drop_last()), s.last().1.count as int)
    }
}

/// The concurrency-safe registry: operation key to accumulator, key to
/// category (first writer wins), and one pause flag. Built explicitly and
/// passed around; a process-wide instance is the host's choice. All
/// growth saturates, so no recording ever fails.
pub struct ProfileCollector {
    stats: Vec<(String, Accumulator)>,
    cats: Vec<(String, CategoryInfo)>,
    paused: bool,
}

impl View for ProfileCollector {
    type V = CollectorModel;

    closed spec fn view(&self) -> CollectorModel {
        CollectorModel {
            stats: self.stats@.map_values(|e: (String, Accumulator)| (e.0@, e.1@)),
            cats: self.cats@.map_values(|e: (String, CategoryInfo)| (e.0@, e.1@)),
            paused: self.paused,
        }
    }
}

impl ProfileCollector {
    /// The collector's internal invariant; every constructor establishes
    /// it and every method preserves it.
    pub open spec fn wf(&self) -> bool {
        collector_wf(self@)
    }

    /// A fresh, empty collector, unpaused.
    pub fn new() -> (r: ProfileCollector)
        ensures
            r@ == empty_collector(),
            r.wf(),
    {
        let r = ProfileCollector { stats: Vec::new(), cats: Vec::new(), paused: false };
        proof {
            assert(r@.stats =~= empty_collector().stats);
            assert(r@.cats =~= empty_collector().cats);
        }
        r
    }

    /// The index of `key` in the stats table, if present.
    fn find_stat_index(&self, key: &String) -> (r: Option<usize>)
        ensures
            match r {
                Some(i) => i < self@.stats.len() && self@.stats[i as int].0 == key@,
                None => !kv_has(self@.stats, key@),
            },
    {
        let mut i: usize = 0;
        while i < self.stats.len()
            invariant
                0 <= i <= self@.stats.len(),
                forall|j: int| 0 <= j < i ==> (#[trigger] self@.stats[j]).0 != key@,
            decreases self@.stats.len() - i,
        {
            if self.stats[i].0 == *key {
                return Some(i);
            }
            i = i + 1;
        }
        None
    }

    /// The index of `key` in the category table, if present.
    fn find_cat_index(&self, key: &String) -> (r: Option<usize>)
        ensures
            match r {
                Some(i) => i < self@.cats.len() && self@.cats[i as int].0 == key@,
                None => !kv_has(self@.cats, key@),
            },
    {
        let mut i: usize = 0;
        while i < self.cats.len()
            invariant
                0 <= i <= self@.cats.len(),
                forall|j: int| 0 <= j < i ==> (#[trigger] self@.cats[j]).0 != key@,
            decreases self@.cats.len() - i,
        {
            if self.cats[i].0 == *key {
                return Some(i);
            }
            i = i + 1;
        }
        None
    }

    /// Record one measurement for `key`. Dropped entirely while paused;
    /// otherwise the key's accumulator (lazily created) absorbs it.
    pub fn record(&mut self, key: &str, duration_micros: u64)
        requires
            old(self).wf(),
        ensures
            final(self).wf(),
            final(self)@ == record_model(old(self)@, key@, duration_micros),
            old(self)@.paused ==> final(self)@ == old(self)@,
    {
        if self.paused {
            return ;
        }
        let k: String = key.to_owned();
        match self.find_stat_index(&k) {
            Some(i) => {
                proof {
                    lemma_kv_index_unique(self@.stats, key@, i as int);
                }
                let entry = &mut self.stats[i];
                entry.1.record(duration_micros);
                proof {
                    assert(final(self)@.stats =~= record_model(old(self)@, key@,
                        duration_micros).stats);
                }
            },
            None => {
                let mut a = Accumulator::new();
                a.record(duration_micros);
                self.stats.push((k, a));
                proof {
                    assert(self@.stats =~= record_model(old(self)@, key@, duration_micros).stats);
                    assert forall|i: int, j: int| 0 <= i < j < self@.stats.len() implies (
                    #[trigger] self@.stats[i]).0 != (#[trigger] self@.stats[j]).0 by {
                        if j == self@.stats.len() - 1 {
                            assert(old(self)@.stats[i].0 != key@);
                        }
                    }
                }
            },
        }
    }

    /// A point-in-time copy of one key's statistics, or `None` for a key
    /// never recorded.
    pub fn get_stats(&self, key: &str) -> (r: Option<OperationStats>)
        requires
            self.wf(),
        ensures
            match r {
                Some(s) => kv_has(self@.stats, key@) && snapshot_matches(s, kv_get(self@.stats,
                    key@)),
                None => !kv_has(self@.stats, key@),
            },
    {
        let k: String = key.to_owned();
        match self.find_stat_index(&k) {
            Some(i) => {
                proof {
                    lemma_kv_index_unique(self@.stats, key@, i as int);
                }
                Some(snapshot_of(&self.stats[i].1))
            },
            None => None,
        }
    }

    /// Snapshots of every key, in first-record order. Each entry is
    /// internally consistent.
    pub fn get_all_stats(&self) -> (r: Vec<(String, OperationStats)>)
        requires
            self.wf(),
        ensures
            r@.len() == self@.stats.len(),
            forall|i: int|
                0 <= i < r@.len() ==> (#[trigger] r@[i]).0@ == self@.stats[i].0
                    && snapshot_matches(r@[i].1, self@.stats[i].1),
    {
        let mut out: Vec<(String, OperationStats)> = Vec::new();
        let mut i: usize = 0;
        while i < self.stats.len()
            invariant
                self.wf(),
                0 <= i <= self@.stats.len(),
                out@.len() == i,
                forall|j: int|
                    0 <= j < i ==> (#[trigger] out@[j]).0@ == self@.stats[j].0
                        && snapshot_matches(out@[j].1, self@.stats[j].1),
            decreases self@.stats.len() - i,
        {
            let entry = &self.stats[i];
            proof {
                assert(accum_wf(self@.stats[i as int].1));
            }
            out.push((entry.0.clone(), snapshot_of(&entry.1)));
            i = i + 1;
        }
        out
    }

    /// Whether any profiling data has been collected.
    pub fn has_data(&self) -> (r: bool)
        requires
            self.wf(),
        ensures
            r == has_data_model(self@),
    {
        let mut i: usize = 0;
        while i < self.stats.len()
            invariant
                0 <= i <= self@.stats.len(),
                forall|j: int| 0 <= j < i ==> (#[trigger] self@.stats[j]).1.count == 0,
            decreases self@.stats.len() - i,
        {
            if self.stats[i].1.count > 0 {
                proof {
                    assert(self@.stats[i as int].1.count > 0);
                }
                return true;
            }
            i = i + 1;
        }
        false
    }

    /// The number of recorded operations summed over all keys,
    /// saturating at `u64::MAX`.
    pub fn total_operations(&self) -> (r: u64)
        requires
            self.wf(),
        ensures
            r == total_ops_model(self@.stats),
    {
        let mut acc: u64 = 0;
        let mut i: usize = 0;
        while i < self.stats.len()
            invariant
                0 <= i <= self@.stats.len(),
                acc == total_ops_model(self@.stats.take(i as int)),
            decreases self@.stats.len() - i,
        {
            proof {
                assert(self@.stats.take(i + 1).drop_last() =~= self@.stats.take(i as int));
            }
            acc = acc.saturating_add(self.stats[i].1.count);
            i = i + 1;
        }
        proof {
            assert(self@.stats.take(self@.stats.len() as int) =~= self@.stats);
        }
        acc
    }

    /// Zero every accumulator in place; keys and categories stay
    /// registered, and the pause flag is untouched.
    pub fn reset_all(&mut self)
        requires
            old(self).wf(),
        ensures
            final(self).wf(),
            final(self)@.stats.len() == old(self)@.stats.len(),
            forall|i: int|
                0 <= i < final(self)@.stats.len() ==> (#[trigger] final(self)@.stats[i]).0 == old(
                    self,
                )@.stats[i].0 && final(self)@.stats[i].1 == empty_accum(),
            final(self)@.cats == old(self)@.cats,
            final(self)@.paused == old(self)@.paused,
    {
        let mut i: usize = 0;
        while i < self.stats.len()
            invariant
                self@.stats.len() == old(self)@.stats.len(),
                0 <= i <= self@.stats.len(),
                forall|j: int|
                    0 <= j < self@.stats.len() ==> (#[trigger] self@.stats[j]).0 == old(
                        self,
                    )@.stats[j].0,
                forall|j: int|
                    0 <= j < i ==> (#[trigger] self@.stats[j]).1 == empty_accum(),
                forall|j: int|
                    i <= j < self@.stats.len() ==> (#[trigger] self@.stats[j]).1 == old(
                        self,
                    )@.stats[j].1,
                self@.cats == old(self)@.cats,
                self@.paused == old(self)@.paused,
            decreases self@.stats.len() - i,
        {
            let ghost pre = self@.stats;
            let entry = &mut self.stats[i];
            entry.1.reset();
            proof {
                assert(self@.stats =~= pre.update(i as int, (pre[i as int].0, empty_accum())));
            }
            i = i + 1;
        }
        proof {
            assert(kv_unique(self@.stats)) by {
                assert forall|i2: int, j2: int|
                    0 <= i2 < j2 < self@.stats.len() implies (#[trigger] self@.stats[i2]).0 != (
                #[trigger] self@.stats[j2]).0 by {
                    assert(old(self)@.stats[i2].0 != old(self)@.stats[j2].0);
                }
            }
        }
    }

    /// Drop every accumulator and every category registration, and clear
    /// the pause flag: the canonical reset to a clean slate.
    pub fn clear_all(&mut self)
        requires
            old(self).wf(),
        ensures
            final(self).wf(),
            final(self)@ == empty_collector(),
    {
        self.stats = Vec::new();
        self.cats = Vec::new();
        self.paused = false;
        proof {
            assert(self@.stats =~= empty_collector().stats);
            assert(self@.cats =~= empty_collector().cats);
        }
    }

    /// Remove one key's statistics entirely; other keys and the category
    /// table are untouched.
    pub fn reset_operation(&mut self, key: &str)
        requires
            old(self).wf(),
        ensures
            final(self).wf(),
            final(self)@.cats == old(self)@.cats,
            final(self)@.paused == old(self)@.paused,
            !kv_has(old(self)@.stats, key@) ==> final(self)@.stats == old(self)@.stats,
            kv_has(old(self)@.stats, key@) ==> final(self)@.stats == old(self)@.stats.remove(
                kv_index(old(self)@.stats, key@),
            ),
            !kv_has(final(self)@.stats, key@),
    {
        let k: String = key.to_owned();
        match self.find_stat_index(&k) {
            Some(i) => {
                proof {
                    lemma_kv_index_unique(self@.stats, key@, i as int);
                }
                let _ = self.stats.remove(i);
                proof {
                    assert(self@.stats =~= old(self)@.stats.remove(i as int));
                    assert forall|j: int|
                        0 <= j < self@.stats.len() implies (#[trigger] self@.stats[j]).0 != key@ by {
                        if j < i as int {
                            assert(old(self)@.stats[j].0 != old(self)@.stats[i as int].0);
                        } else {
                            assert(old(self)@.stats[j + 1].0 != old(self)@.stats[i as int].0);
                        }
                    }
                }
            },
            None => {},
        }
    }

    /// Record one measurement and, if `key` has no category yet, register
    /// the given one; a category already registered for `key` stays — the
    /// first writer wins, by design. Dropped entirely while paused.
    pub fn record_with_category(&mut self, key: &str, category: CategoryInfo, duration_micros: u64)
        requires
            old(self).wf(),
        ensures
            final(self).wf(),
            final(self)@ == record_with_category_model(old(self)@, key@, category@,
                duration_micros),
    {
        if self.paused {
            return ;
        }
        self.record(key, duration_micros);
        proof {
            assert(self@.cats == old(self)@.cats);
        }
        let k: String = key.to_owned();
        match self.find_cat_index(&k) {
            Some(_) => {},
            None => {
                let ghost mid = self@.cats;
                self.cats.push((k, category));
                proof {
                    assert(self@.cats =~= old(self)@.cats.push((key@, category@)));
                    assert forall|i: int, j: int| 0 <= i < j < self@.cats.len() implies (
                    #[trigger] self@.cats[i]).0 != (#[trigger] self@.cats[j]).0 by {
                        if j == self@.cats.len() - 1 {
                            assert(!kv_has(mid, key@));
                            assert(mid[i].0 != key@);
                        }
                    }
                }
            },
        }
    }

    /// The category registered for `key` at first record, if any. A key
    /// without one is merely uncategorized, never an error.
    pub fn get_category(&self, key: &str) -> (r: Option<CategoryInfo>)
        requires
            self.wf(),
        ensures
            match r {
                Some(c) => kv_has(self@.cats, key@) && c@ == kv_get(self@.cats, key@),
                None => !kv_has(self@.cats, key@),
            },
    {
        let k: String = key.to_owned();
        match self.find_cat_index(&k) {
            Some(i) => {
                proof {
                    lemma_kv_index_unique(self@.cats, key@, i as int);
                }
                Some(self.cats[i].1.duplicate())
            },
            None => None,
        }
    }

    /// Suppress all recording until `unpause`.
    pub fn pause(&mut self)
        requires
            old(self).wf(),
        ensures
            final(self).wf(),
            final(self)@ == (CollectorModel { paused: true, ..old(self)@ }),
    {
        self.paused = true;
    }

    /// Resume recording.
    pub fn unpause(&mut self)
        requires
            old(self).wf(),
        ensures
            final(self).wf(),
            final(self)@ == (CollectorModel { paused: false, ..old(self)@ }),
    {
        self.paused = false;
    }

    /// Whether recording is currently suppressed.
    pub fn is_paused(&self) -> (r: bool)
        ensures
            r == self@.paused,
    {
        self.paused
    }

    /// Clear the pause flag without touching any data.
    pub fn reset_pause_state(&mut self)
        requires
            old(self).wf(),
        ensures
            final(self).wf(),
            final(self)@ == (CollectorModel { paused: false, ..old(self)@ }),
    {
        self.paused = false;
    }
}


// ---------------------------------------------------------------------------
// Summary statistics
// ---------------------------------------------------------------------------
/// Mathematical image of a [`SummaryStats`] value.
pub ghost struct SummaryStatsModel {
    /// Total number of operations recorded, over all keys.
    pub total_operations: int,
    /// Number of distinct keys.
    pub unique_operations: int,
    /// Total time over all keys, in microseconds.
    pub total_time_micros: int,
    /// The key with the largest 99th percentile, if any.
    pub slowest_operation: Option<Seq<char>>,
    /// That largest 99th percentile, in microseconds.
    pub slowest_p99_micros: u64,
    /// The key with the most calls, if any.
    pub busiest_operation: Option<Seq<char>>,
    /// That largest call count.
    pub busiest_count: u64,
}

/// Aggregate statistics across all profiled operations.
#[derive(Debug, Clone)]
pub struct SummaryStats {
    /// Total number of operations recorded.
    pub total_operations: u64,
    /// Number of unique operation keys.
    pub unique_operations: usize,
    /// Total time spent across all operations, in microseconds.
    pub total_time_micros: u64,
    /// Operation with the largest 99th percentile.
    pub slowest_operation: Option<String>,
    /// Largest per-key 99th percentile, in microseconds.
    pub slowest_p99_micros: u64,
    /// Operation with the most calls.
    pub busiest_operation: Option<String>,
    /// Number of calls of the busiest operation.
    pub busiest_count: u64,
}

impl View for SummaryStats {
    type V = SummaryStatsModel;

    open spec fn view(&self) -> SummaryStatsModel {
        SummaryStatsModel {
            total_operations: self.total_operations as int,
            unique_operations: self.unique_operations as int,
            total_time_micros: self.total_time_micros as int,
            slowest_operation: match self.slowest_operation {
                Some(k) => Some(k@),
                None => None,
            },
            slowest_p99_micros: self.slowest_p99_micros,
            busiest_operation: match self.busiest_operation {
                Some(k) => Some(k@),
                None => None,
            },
            busiest_count: self.busiest_count,
        }
    }
}

impl Default for SummaryStats {
    /// The summary of an empty collector: all zero, no named keys.
    fn default() -> (r: SummaryStats)
        ensures
            r@ == (SummaryStatsModel {
                total_operations: 0,
                unique_operations: 0,
                total_time_micros: 0,
                slowest_operation: None,
                slowest_p99_micros: 0,
                busiest_operation: None,
                busiest_count: 0,
            }),
    {
        SummaryStats {
            total_operations: 0,
            unique_operations: 0,
            total_time_micros: 0,
            slowest_operation: None,
            slowest_p99_micros: 0,
            busiest_operation: None,
            busiest_count: 0,
        }
    }
}

/// Saturating sum of the counts of a row sequence.
pub open spec fn rows_total_ops(rows: Seq<(String, OperationStats)>) -> int
    decreases rows.len(),
{
    if rows.len() == 0 {
        0
    } else {
        sat_add_u64(rows_total_ops(rows.drop_last()), rows.last().1.count as int)
    }
}

/// Saturating sum of the totals of a row sequence.
pub open spec fn rows_total_time(rows: Seq<(String, OperationStats)>) -> int
    decreases rows.len(),
{
    if rows.len() == 0 {
        0
    } else {
        sat_add_u64(rows_total_time(rows.drop_last()), rows.last().1.total_micros as int)
    }
}

/// The first index with the largest call count (later ties lose).
pub open spec fn busiest_idx(rows: Seq<(String, OperationStats)>) -> int
    decreases rows.len(),
{
    if rows.len() <= 1 {
        0
    } else {
        let b = busiest_idx(rows.drop_last());
        if rows.last().1.count > rows[b].1.count {
            rows.len() - 1
        } else {
            b
        }
    }
}

/// The first index with the largest 99th percentile (later ties lose).
pub open spec fn slowest_idx(rows: Seq<(String, OperationStats)>) -> int
    decreases rows.len(),
{
    if rows.len() <= 1 {
        0
    } else {
        let b = slowest_idx(rows.drop_last());
        if rows.last().1.p99 > rows[b].1.p99 {
            rows.len() - 1
        } else {
            b
        }
    }
}

/// The busiest index stays in range.
proof fn lemma_busiest_idx_in_range(rows: Seq<(String, OperationStats)>)
    requires
        rows.len() > 0,
    ensures
        0 <= busiest_idx(rows) < rows.len(),
        0 <= slowest_idx(rows) < rows.len(),
    decreases rows.len(),
{
    if rows.len() > 1 {
        lemma_busiest_idx_in_range(rows.drop_last());
    }
}

/// The summary a row sequence yields: saturating totals, the key count,
/// and the busiest / slowest rows (first maximum each).
pub open spec fn summary_spec(rows: Seq<(String, OperationStats)>) -> SummaryStatsModel {
    SummaryStatsModel {
        total_operations: rows_total_ops(rows),
        unique_operations: rows.len() as int,
        total_time_micros: rows_total_time(rows),
        slowest_operation: if rows.len() == 0 {
            None
        } else {
            Some(rows[slowest_idx(rows)].0@)
        },
        slowest_p99_micros: if rows.len() == 0 {
            0
        } else {
            rows[slowest_idx(rows)].1.p99
        },
        busiest_operation: if rows.len() == 0 {
            None
        } else {
            Some(rows[busiest_idx(rows)].0@)
        },
        busiest_count: if rows.len() == 0 {
            0
        } else {
            rows[busiest_idx(rows)].1.count
        },
    }
}

/// Each row is the snapshot of the accumulator with the same key.
pub open spec fn rows_match(
    rows: Seq<(String, OperationStats)>,
    stats: Seq<(Seq<char>, AccumModel)>,
) -> bool {
    &&& rows.len() == stats.len()
    &&& forall|i: int|
        0 <= i < rows.len() ==> (#[trigger] rows[i]).0@ == stats[i].0 && snapshot_matches(
            rows[i].1,
            stats[i].1,
        )
}

/// Compute the aggregate summary of a sequence of snapshot rows.
pub fn summarize_rows(rows: &Vec<(String, OperationStats)>) -> (r: SummaryStats)
    ensures
        r@ == summary_spec(rows@),
{
    if rows.len() == 0 {
        proof {
            assert(rows@.take(0) =~= rows@);
        }
        return SummaryStats::default();
    }
    let mut total_ops: u64 = 0;
    let mut total_time: u64 = 0;
    let mut bi: usize = 0;
    let mut si: usize = 0;
    let mut i: usize = 0;
    while i < rows.len()
        invariant
            rows@.len() > 0,
            0 <= i <= rows@.len(),
            total_ops == rows_total_ops(rows@.take(i as int)),
            total_time == rows_total_time(rows@.take(i as int)),
            i == 0 ==> bi == 0 && si == 0,
            i > 0 ==> bi == busiest_idx(rows@.take(i as int)) && si == slowest_idx(rows@.take(
                i as int,
            )) && bi < i && si < i,
        decreases rows@.len() - i,
    {
        proof {
            assert(rows@.take(i + 1).drop_last() =~= rows@.take(i as int));
            if i > 0 {
                lemma_busiest_idx_in_range(rows@.take(i as int));
            }
        }
        total_ops = total_ops.saturating_add(rows[i].1.count);
        total_time = total_time.saturating_add(rows[i].1.total_micros);
        if i == 0 {
            bi = 0;
            si = 0;
        } else {
            if rows[i].1.count > rows[bi].1.count {
                bi = i;
            }
            if rows[i].1.p99 > rows[si].1.p99 {
                si = i;
            }
        }
        i = i + 1;
    }
    proof {
        assert(rows@.take(rows@.len() as int) =~= rows@);
    }
    SummaryStats {
        total_operations: total_ops,
        unique_operations: rows.len(),
        total_time_micros: total_time,
        slowest_operation: Some(rows[si].0.clone()),
        slowest_p99_micros: rows[si].1.p99,
        busiest_operation: Some(rows[bi].0.clone()),
        busiest_count: rows[bi].1.count,
    }
}

impl ProfileCollector {
    /// Aggregate summary across all operations: total calls, unique key
    /// count, total time, the busiest key by call count and the slowest
    /// key by 99th percentile — computed from one consistent set of
    /// snapshots of this collector's accumulators.
    pub fn get_summary(&self) -> (r: SummaryStats)
        requires
            self.wf(),
        ensures
            exists|rows: Seq<(String, OperationStats)>|
                #![trigger rows_match(rows, self@.stats)]
                rows_match(rows, self@.stats) && r@ == summary_spec(rows),
    {
        let rows = self.get_all_stats();
        let r = summarize_rows(&rows);
        proof {
            assert(rows_match(rows@, self@.stats));
        }
        r
    }
}


// ---------------------------------------------------------------------------
// Laws
// ---------------------------------------------------------------------------
/// Sum of a sequence of durations.
pub open spec fn seq_sum(ds: Seq<u64>) -> int
    decreases ds.len(),
{
    if ds.len() == 0 {
        0
    } else {
        seq_sum(ds.drop_last()) + ds.last()
    }
}

/// Smallest element of a non-empty sequence.
pub open spec fn seq_min(ds: Seq<u64>) -> u64
    decreases ds.len(),
{
    if ds.len() <= 1 {
        ds[0]
    } else {
        let m = seq_min(ds.drop_last());
        if ds.last() < m {
            ds.last()
        } else {
            m
        }
    }
}

/// Largest element of a non-empty sequence.
pub open spec fn seq_max(ds: Seq<u64>) -> u64
    decreases ds.len(),
{
    if ds.len() <= 1 {
        ds[0]
    } else {
        let m = seq_max(ds.drop_last());
        if ds.last() > m {
            ds.last()
        } else {
            m
        }
    }
}

/// The accumulator obtained by recording the durations of `ds` in order,
/// starting from the empty accumulator.
pub open spec fn accum_fold(ds: Seq<u64>) -> AccumModel
    decreases ds.len(),
{
    if ds.len() == 0 {
        empty_accum()
    } else {
        accum_record_model(accum_fold(ds.drop_last()), ds.last())
    }
}

proof fn lemma_seq_sum_nonneg(ds: Seq<u64>)
    ensures
        seq_sum(ds) >= 0,
    decreases ds.len(),
{
    if ds.len() > 0 {
        lemma_seq_sum_nonneg(ds.drop_last());
    }
}

/// Folding a sequence of records yields exactly its length as the count
/// and its sum as the total, each saturating at `u64::MAX`.
pub proof fn lemma_accum_fold_count_total(ds: Seq<u64>)
    ensures
        accum_fold(ds).count == if ds.len() > u64::MAX {
            u64::MAX as int
        } else {
            ds.len() as int
        },
        accum_fold(ds).total == if seq_sum(ds) > u64::MAX {
            u64::MAX as int
        } else {
            seq_sum(ds)
        },
    decreases ds.len(),
{
    if ds.len() > 0 {
        lemma_accum_fold_count_total(ds.drop_last());
        lemma_seq_sum_nonneg(ds.drop_last());
    }
}

/// Folding a non-empty sequence of records yields exactly its smallest
/// element as the min and its largest as the max.
pub proof fn lemma_accum_fold_min_max(ds: Seq<u64>)
    requires
        ds.len() > 0,
    ensures
        accum_fold(ds).min == seq_min(ds),
        accum_fold(ds).max == seq_max(ds),
    decreases ds.len(),
{
    if ds.len() > 1 {
        lemma_accum_fold_min_max(ds.drop_last());
        lemma_accum_fold_count_total(ds.drop_last());
        assert(accum_fold(ds.drop_last()).count > 0);
        assert(accum_fold(ds) == accum_record_model(accum_fold(ds.drop_last()), ds.last()));
    } else {
        assert(ds.drop_last().len() == 0);
        assert(accum_fold(ds.drop_last()) == empty_accum());
        assert(accum_fold(ds) == accum_record_model(empty_accum(), ds.last()));
    }
}

/// LAW: for any sequence of `record` calls whose length and sum stay
/// within `u64`, the accumulator ends with `count == n`,
/// `total == sum(d_i)`, `min == min(d_i)` and `max == max(d_i)`.
pub proof fn lemma_record_fold_stats(ds: Seq<u64>)
    requires
        ds.len() <= u64::MAX,
        seq_sum(ds) <= u64::MAX,
    ensures
        accum_fold(ds).count == ds.len(),
        accum_fold(ds).total == seq_sum(ds),
        ds.len() > 0 ==> accum_fold(ds).min == seq_min(ds),
        ds.len() > 0 ==> accum_fold(ds).max == seq_max(ds),
{
    lemma_accum_fold_count_total(ds);
    if ds.len() > 0 {
        lemma_accum_fold_min_max(ds);
    }
}

proof fn lemma_seq_sum_remove(ds: Seq<u64>, i: int)
    requires
        0 <= i < ds.len(),
    ensures
        seq_sum(ds.remove(i)) == seq_sum(ds) - ds[i],
    decreases ds.len(),
{
    if i == ds.len() - 1 {
        assert(ds.remove(i) =~= ds.drop_last());
    } else {
        lemma_seq_sum_remove(ds.drop_last(), i);
        assert(ds.remove(i).drop_last() =~= ds.drop_last().remove(i));
        assert(ds.remove(i).last() == ds.last());
    }
}

proof fn lemma_seq_sum_permutation(ds1: Seq<u64>, ds2: Seq<u64>)
    requires
        ds1.to_multiset() == ds2.to_multiset(),
    ensures
        seq_sum(ds1) == seq_sum(ds2),
    decreases ds1.len(),
{
    broadcast use vstd::seq_lib::group_to_multiset_ensures;

    assert(ds1.to_multiset().len() == ds1.len());
    assert(ds2.to_multiset().len() == ds2.len());
    if ds1.len() == 0 {
        assert(ds2.len() == 0);
    } else {
        let x = ds1.last();
        assert(ds1.contains(x));
        assert(ds2.to_multiset().count(x) > 0);
        assert(ds2.contains(x));
        let j = choose|j: int| 0 <= j < ds2.len() && ds2[j] == x;
        assert(ds1.remove(ds1.len() - 1).to_multiset() == ds1.to_multiset().remove(x));
        assert(ds2.remove(j).to_multiset() == ds2.to_multiset().remove(x));
        assert(ds1.remove(ds1.len() - 1) =~= ds1.drop_last());
        lemma_seq_sum_permutation(ds1.drop_last(), ds2.remove(j));
        lemma_seq_sum_remove(ds2, j);
    }
}

proof fn lemma_seq_min_max_props(ds: Seq<u64>)
    requires
        ds.len() > 0,
    ensures
        ds.contains(seq_min(ds)),
        ds.contains(seq_max(ds)),
        forall|i: int| 0 <= i < ds.len() ==> seq_min(ds) <= #[trigger] ds[i] <= seq_max(ds),
    decreases ds.len(),
{
    if ds.len() == 1 {
        assert(ds[0] == seq_min(ds));
    } else {
        lemma_seq_min_max_props(ds.drop_last());
        assert forall|i: int| 0 <= i < ds.len() implies seq_min(ds) <= #[trigger] ds[i] <= seq_max(
            ds,
        ) by {
            if i < ds.len() - 1 {
                assert(ds.drop_last()[i] == ds[i]);
            }
        }
        if seq_min(ds) == ds.last() {
            assert(ds.contains(seq_min(ds)));
        } else {
            let k = choose|k: int| 0 <= k < ds.drop_last().len() && ds.drop_last()[k] == seq_min(
                ds.drop_last(),
            );
            assert(ds[k] == seq_min(ds));
            assert(ds.contains(seq_min(ds)));
        }
        if seq_max(ds) == ds.last() {
            assert(ds.contains(seq_max(ds)));
        } else {
            let k = choose|k: int| 0 <= k < ds.drop_last().len() && ds.drop_last()[k] == seq_max(
                ds.drop_last(),
            );
            assert(ds[k] == seq_max(ds));
            assert(ds.contains(seq_max(ds)));
        }
    }
}

/// LAW: recording is a fold over an unordered multiset of durations —
/// two interleavings with the same measurements end with the same count,
/// total, min and max.
pub proof fn lemma_accum_fold_order_irrelevant(ds1: Seq<u64>, ds2: Seq<u64>)
    requires
        ds1.to_multiset() == ds2.to_multiset(),
    ensures
        accum_fold(ds1).count == accum_fold(ds2).count,
        accum_fold(ds1).total == accum_fold(ds2).total,
        accum_fold(ds1).min == accum_fold(ds2).min,
        accum_fold(ds1).max == accum_fold(ds2).max,
{
    broadcast use vstd::seq_lib::group_to_multiset_ensures;

    assert(ds1.to_multiset().len() == ds1.len());
    assert(ds2.to_multiset().len() == ds2.len());
    assert(ds1.len() == ds2.len());
    lemma_accum_fold_count_total(ds1);
    lemma_accum_fold_count_total(ds2);
    lemma_seq_sum_permutation(ds1, ds2);
    if ds1.len() > 0 {
        lemma_accum_fold_min_max(ds1);
        lemma_accum_fold_min_max(ds2);
        lemma_seq_min_max_props(ds1);
        lemma_seq_min_max_props(ds2);
        assert(ds2.to_multiset().count(seq_min(ds1)) > 0);
        assert(ds2.contains(seq_min(ds1)));
        assert(ds1.to_multiset().count(seq_min(ds2)) > 0);
        assert(ds1.contains(seq_min(ds2)));
        assert(ds2.to_multiset().count(seq_max(ds1)) > 0);
        assert(ds2.contains(seq_max(ds1)));
        assert(ds1.to_multiset().count(seq_max(ds2)) > 0);
        assert(ds1.contains(seq_max(ds2)));
        let i1 = choose|i: int| 0 <= i < ds2.len() && ds2[i] == seq_min(ds1);
        let i2 = choose|i: int| 0 <= i < ds1.len() && ds1[i] == seq_min(ds2);
        let j1 = choose|i: int| 0 <= i < ds2.len() && ds2[i] == seq_max(ds1);
        let j2 = choose|i: int| 0 <= i < ds1.len() && ds1[i] == seq_max(ds2);
        assert(seq_min(ds2) <= ds2[i1]);
        assert(seq_min(ds1) <= ds1[i2]);
        assert(seq_max(ds2) >= ds2[j1]);
        assert(seq_max(ds1) >= ds1[j2]);
    }
}

/// Recording keeps the collector's invariant, and changes exactly the
/// recorded key's count (saturating), leaving every other key alone.
pub proof fn lemma_record_model_count(m: CollectorModel, k: Seq<char>, d: u64)
    requires
        collector_wf(m),
        !m.paused,
    ensures
        collector_wf(record_model(m, k, d)),
        stats_count_of(record_model(m, k, d), k) == if stats_count_of(m, k) == u64::MAX {
            u64::MAX as int
        } else {
            stats_count_of(m, k) + 1
        },
        forall|k2: Seq<char>| k2 != k ==> #[trigger] stats_count_of(record_model(m, k, d), k2)
            == stats_count_of(m, k2),
{
    let r = record_model(m, k, d);
    if kv_has(m.stats, k) {
        let i = kv_index(m.stats, k);
        assert(0 <= i < m.stats.len() && m.stats[i].0 == k);
        assert(kv_unique(r.stats)) by {
            assert forall|a: int, b: int| 0 <= a < b < r.stats.len() implies (
            #[trigger] r.stats[a]).0 != (#[trigger] r.stats[b]).0 by {
                assert(m.stats[a].0 == r.stats[a].0);
                assert(m.stats[b].0 == r.stats[b].0);
            }
        }
        assert forall|q: int| 0 <= q < r.stats.len() implies accum_wf(
            (#[trigger] r.stats[q]).1,
        ) by {
            if q == i {
                lemma_accum_record_wf(m.stats[i].1, d);
            } else {
                assert(r.stats[q] == m.stats[q]);
            }
        }
        lemma_kv_index_unique(r.stats, k, i);
        assert forall|k2: Seq<char>| k2 != k implies #[trigger] stats_count_of(r, k2)
            == stats_count_of(m, k2) by {
            lemma_kv_other_keys_update(m.stats, r.stats, k2);
        }
    } else {
        let i = m.stats.len() as int;
        assert(kv_unique(r.stats)) by {
            assert forall|a: int, b: int| 0 <= a < b < r.stats.len() implies (
            #[trigger] r.stats[a]).0 != (#[trigger] r.stats[b]).0 by {
                if b < i {
                    assert(m.stats[a].0 == r.stats[a].0);
                    assert(m.stats[b].0 == r.stats[b].0);
                } else {
                    assert(r.stats[a].0 == m.stats[a].0);
                    assert(kv_has(m.stats, r.stats[a].0));
                }
            }
        }
        assert forall|q: int| 0 <= q < r.stats.len() implies accum_wf(
            (#[trigger] r.stats[q]).1,
        ) by {
            if q == i {
                lemma_accum_record_wf(empty_accum(), d);
            } else {
                assert(r.stats[q] == m.stats[q]);
            }
        }
        lemma_kv_index_unique(r.stats, k, i);
        assert forall|k2: Seq<char>| k2 != k implies #[trigger] stats_count_of(r, k2)
            == stats_count_of(m, k2) by {
            lemma_kv_other_keys_update(m.stats, r.stats, k2);
        }
    }
}

/// If two association sequences agree on every entry whose key is `k2`,
/// lookups of `k2` agree. Here: the sequences agree except at entries
/// keyed otherwise, as updates and pushes for another key leave them.
proof fn lemma_kv_other_keys_update(
    s1: Seq<(Seq<char>, AccumModel)>,
    s2: Seq<(Seq<char>, AccumModel)>,
    k2: Seq<char>,
)
    requires
        s1.len() <= s2.len(),
        forall|i: int| 0 <= i < s1.len() ==> #[trigger] s2[i].0 == s1[i].0,
        forall|i: int|
            0 <= i < s1.len() && s1[i].0 == k2 ==> #[trigger] s2[i] == s1[i],
        forall|i: int| s1.len() <= i < s2.len() ==> (#[trigger] s2[i]).0 != k2,
        kv_unique(s1),
        kv_unique(s2),
    ensures
        (if kv_has(s1, k2) {
            kv_get(s1, k2).count as int
        } else {
            0
        }) == (if kv_has(s2, k2) {
            kv_get(s2, k2).count as int
        } else {
            0
        }),
{
    if kv_has(s1, k2) {
        let i = kv_index(s1, k2);
        assert(0 <= i < s1.len() && s1[i].0 == k2);
        lemma_kv_index_unique(s2, k2, i);
    } else {
        if kv_has(s2, k2) {
            let i = kv_index(s2, k2);
            assert(0 <= i < s2.len() && s2[i].0 == k2);
            assert(i < s1.len());
            assert(kv_has(s1, k2));
        }
    }
}

/// LAW: after `clear_all`, every query reads "no data": nothing has
/// data, the total is zero, the tables are empty and the collector is
/// not paused — whatever the state was before.
pub proof fn lemma_clear_all_resets_everything()
    ensures
        !has_data_model(empty_collector()),
        total_ops_model(empty_collector().stats) == 0,
        empty_collector().stats.len() == 0,
        empty_collector().cats.len() == 0,
        !empty_collector().paused,
{
}

/// LAW: while the collector is paused, `record` leaves the whole state —
/// in particular every key's count — unchanged.
pub proof fn lemma_paused_record_is_dropped(m: CollectorModel, k: Seq<char>, d: u64)
    requires
        m.paused,
    ensures
        record_model(m, k, d) == m,
        record_with_category_model(m, k, arbitrary(), d) == m,
{
}

/// LAW: after `unpause`, one `record` raises the recorded key's count by
/// exactly one (whenever the count has room to grow).
pub proof fn lemma_record_after_unpause(m: CollectorModel, k: Seq<char>, d: u64)
    requires
        collector_wf(m),
        stats_count_of(m, k) < u64::MAX,
    ensures
        stats_count_of(
            record_model(CollectorModel { paused: false, ..m }, k, d),
            k,
        ) == stats_count_of(m, k) + 1,
{
    let m1 = CollectorModel { paused: false, ..m };
    assert(collector_wf(m1));
    if kv_has(m.stats, k) {
        let i = kv_index(m.stats, k);
        lemma_kv_index_unique(m1.stats, k, i);
    }
    lemma_record_model_count(m1, k, d);
    assert(stats_count_of(m1, k) == stats_count_of(m, k));
}

/// LAW: the category registered first for a key wins — a second
/// `record_with_category` under the same key keeps the first category
/// and still counts both measurements.
pub proof fn lemma_category_first_writer_wins(
    m: CollectorModel,
    k: Seq<char>,
    c1: CategoryInfoModel,
    c2: CategoryInfoModel,
    d1: u64,
    d2: u64,
)
    requires
        collector_wf(m),
        !m.paused,
        !kv_has(m.cats, k),
        stats_count_of(m, k) + 2 <= u64::MAX,
    ensures
        ({
            let m2 = record_with_category_model(record_with_category_model(m, k, c1, d1), k, c2,
                d2);
            &&& kv_has(m2.cats, k)
            &&& kv_get(m2.cats, k) == c1
            &&& stats_count_of(m2, k) == stats_count_of(m, k) + 2
        }),
{
    let m1 = record_with_category_model(m, k, c1, d1);
    let m2 = record_with_category_model(m1, k, c2, d2);
    lemma_record_model_count(m, k, d1);
    let r1 = record_model(m, k, d1);
    assert(m1.stats == r1.stats);
    assert(m1.cats == m.cats.push((k, c1)));
    assert(collector_wf(m1)) by {
        assert(kv_unique(m1.cats)) by {
            assert forall|a: int, b: int| 0 <= a < b < m1.cats.len() implies (
            #[trigger] m1.cats[a]).0 != (#[trigger] m1.cats[b]).0 by {
                if b == m1.cats.len() - 1 {
                    assert(kv_has(m.cats, m.cats[a].0));
                }
            }
        }
    }
    lemma_kv_index_unique(m1.cats, k, m.cats.len() as int);
    assert(kv_has(m1.cats, k));
    lemma_record_model_count(m1, k, d2);
    assert(m2.cats == m1.cats);
    lemma_kv_index_unique(m2.cats, k, m.cats.len() as int);
}


/// The collector after a sequence of `record(k, d_i)` calls, in order.
pub open spec fn record_seq_model(m: CollectorModel, k: Seq<char>, ds: Seq<u64>) -> CollectorModel
    decreases ds.len(),
{
    if ds.len() == 0 {
        m
    } else {
        record_model(record_seq_model(m, k, ds.drop_last()), k, ds.last())
    }
}

/// On a fresh collector, a sequence of records under one key leaves
/// exactly that key, holding the fold of the durations.
proof fn lemma_record_seq_single_key(k: Seq<char>, ds: Seq<u64>)
    ensures
        record_seq_model(empty_collector(), k, ds).cats == empty_collector().cats,
        !record_seq_model(empty_collector(), k, ds).paused,
        ds.len() == 0 ==> record_seq_model(empty_collector(), k, ds).stats =~= Seq::<
            (Seq<char>, AccumModel),
        >::empty(),
        ds.len() > 0 ==> record_seq_model(empty_collector(), k, ds).stats =~= seq![
            (k, accum_fold(ds)),
        ],
    decreases ds.len(),
{
    if ds.len() > 0 {
        lemma_record_seq_single_key(k, ds.drop_last());
        let prev = record_seq_model(empty_collector(), k, ds.drop_last());
        let m = record_model(prev, k, ds.last());
        if ds.len() == 1 {
            assert(!kv_has(prev.stats, k));
        } else {
            assert(prev.stats =~= seq![(k, accum_fold(ds.drop_last()))]);
            assert(prev.stats[0].0 == k);
            assert(kv_unique(prev.stats));
            lemma_kv_index_unique(prev.stats, k, 0);
            assert(m.stats =~= seq![(k, accum_record_model(accum_fold(ds.drop_last()), ds.last()))]);
        }
    }
}

/// LAW: for any non-empty sequence of `record(k, d_1 .. d_n)` calls on a
/// fresh collector whose length and sum stay within `u64`, the key ends
/// with `count == n`, `total == sum(d_i)`, `min == min(d_i)` and
/// `max == max(d_i)`.
pub proof fn lemma_record_seq_stats(k: Seq<char>, ds: Seq<u64>)
    requires
        0 < ds.len() <= u64::MAX,
        seq_sum(ds) <= u64::MAX,
    ensures
        ({
            let m = record_seq_model(empty_collector(), k, ds);
            &&& kv_has(m.stats, k)
            &&& kv_get(m.stats, k).count == ds.len()
            &&& kv_get(m.stats, k).total == seq_sum(ds)
            &&& kv_get(m.stats, k).min == seq_min(ds)
            &&& kv_get(m.stats, k).max == seq_max(ds)
        }),
{
    lemma_record_seq_single_key(k, ds);
    let m = record_seq_model(empty_collector(), k, ds);
    assert(m.stats[0].0 == k);
    assert(kv_unique(m.stats));
    lemma_kv_index_unique(m.stats, k, 0);
    lemma_record_fold_stats(ds);
}

/// LAW: two arbitrary interleavings of the same multiset of measurements
/// under one key end with the same count, total, min and max — recording
/// is a fold over an unordered multiset of durations.
pub proof fn lemma_record_seq_order_irrelevant(k: Seq<char>, ds1: Seq<u64>, ds2: Seq<u64>)
    requires
        ds1.to_multiset() == ds2.to_multiset(),
        ds1.len() > 0,
    ensures
        ({
            let m1 = record_seq_model(empty_collector(), k, ds1);
            let m2 = record_seq_model(empty_collector(), k, ds2);
            &&& kv_get(m1.stats, k).count == kv_get(m2.stats, k).count
            &&& kv_get(m1.stats, k).total == kv_get(m2.stats, k).total
            &&& kv_get(m1.stats, k).min == kv_get(m2.stats, k).min
            &&& kv_get(m1.stats, k).max == kv_get(m2.stats, k).max
        }),
{
    broadcast use vstd::seq_lib::group_to_multiset_ensures;

    assert(ds1.to_multiset().len() == ds1.len());
    assert(ds2.to_multiset().len() == ds2.len());
    lemma_record_seq_single_key(k, ds1);
    lemma_record_seq_single_key(k, ds2);
    let m1 = record_seq_model(empty_collector(), k, ds1);
    let m2 = record_seq_model(empty_collector(), k, ds2);
    assert(m1.stats[0].0 == k);
    assert(kv_unique(m1.stats));
    lemma_kv_index_unique(m1.stats, k, 0);
    assert(m2.stats[0].0 == k);
    assert(kv_unique(m2.stats));
    lemma_kv_index_unique(m2.stats, k, 0);
    lemma_accum_fold_order_irrelevant(ds1, ds2);
}

} // verus!
