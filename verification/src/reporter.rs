//! Read-only reporting over the collector's data: snapshots grouped,
//! filtered and sorted, with time values rendered in a chosen unit.
//! Text layout beyond these views is left to the host.

use vstd::prelude::*;

use vstd::multiset::Multiset;
use vstd::string::StringExecFns;
use vstd::string::StringSliceAdditionalSpecFns;

use crate::category::CategoryInfo;
use crate::collector::{
    kv_get, kv_has, kv_unique, rows_match, summarize_rows, summary_spec, OperationStats,
    ProfileCollector, SummaryStats,
};
use crate::decimal::{dec2_seq, dec3_seq, dec_seq, three_digits, two_digits, u64_to_string};

verus! {

/// Percentile options for sorting.
#[derive(Debug, Clone, Copy, PartialEq, Eq, Structural)]
pub enum Percentile {
    /// The median.
    P50,
    /// The 95th percentile.
    P95,
    /// The 99th percentile.
    P99,
    /// The 99.9th percentile.
    P999,
}

/// Time format for displaying durations.
#[derive(Debug, Clone, Copy, PartialEq, Eq, Structural)]
pub enum TimeFormat {
    /// Whole microseconds.
    Microseconds,
    /// Milliseconds with two decimals.
    Milliseconds,
    /// Seconds with three decimals.
    Seconds,
    /// The smallest unit in which the value reads at least one.
    Auto,
}

/// The rendering of `micros` in whole microseconds.
pub open spec fn micros_text(micros: u64) -> Seq<char> {
    dec_seq(micros as int) + " µs"@
}

/// The rendering of `micros` in milliseconds with two decimals, rounded
/// half-up.
pub open spec fn millis_text(micros: u64) -> Seq<char> {
    let th = (micros + 5) / 10;
    dec_seq(th / 100) + "."@ + dec2_seq(th % 100) + " ms"@
}

/// The rendering of `micros` in seconds with three decimals, rounded
/// half-up.
pub open spec fn seconds_text(micros: u64) -> Seq<char> {
    let tm = (micros + 500) / 1000;
    dec_seq(tm / 1000) + "."@ + dec3_seq(tm % 1000) + " s"@
}

/// What [`TimeFormat::format_time`] renders: the chosen unit, or under
/// `Auto` the smallest unit in which the value is at least one (falling
/// back to seconds near and above one second).
pub open spec fn format_time_spec(fmt: TimeFormat, micros: u64) -> Seq<char> {
    match fmt {
        TimeFormat::Microseconds => micros_text(micros),
        TimeFormat::Milliseconds => millis_text(micros),
        TimeFormat::Seconds => seconds_text(micros),
        TimeFormat::Auto => if micros < 1000 {
            micros_text(micros)
        } else if micros < 1000000 {
            millis_text(micros)
        } else {
            seconds_text(micros)
        },
    }
}

impl TimeFormat {
    /// Render a time value according to this format. Fractions are
    /// decimal-rounded half-up.
    pub fn format_time(&self, micros: u64) -> (r: String)
        ensures
            r@ == format_time_spec(*self, micros),
    {
        match self {
            TimeFormat::Microseconds => format_micros(micros),
            TimeFormat::Milliseconds => format_millis(micros),
            TimeFormat::Seconds => format_seconds(micros),
            TimeFormat::Auto => {
                if micros < 1000 {
                    format_micros(micros)
                } else if micros < 1000000 {
                    format_millis(micros)
                } else {
                    format_seconds(micros)
                }
            },
        }
    }
}

fn format_micros(micros: u64) -> (r: String)
    ensures
        r@ == micros_text(micros),
{
    let mut s = u64_to_string(micros);
    s.append(" µs");
    proof {
        assert(s@ =~= micros_text(micros));
    }
    s
}

fn format_millis(micros: u64) -> (r: String)
    ensures
        r@ == millis_text(micros),
{
    let th = ((micros as u128 + 5) / 10) as u64;
    proof {
        assert(th == (micros + 5) as int / 10);
    }
    let mut s = u64_to_string(th / 100);
    s.append(".");
    let frac = two_digits(th % 100);
    s.append(frac.as_str());
    s.append(" ms");
    proof {
        assert(s@ =~= millis_text(micros));
    }
    s
}

fn format_seconds(micros: u64) -> (r: String)
    ensures
        r@ == seconds_text(micros),
{
    let tm = ((micros as u128 + 500) / 1000) as u64;
    proof {
        assert(tm == (micros + 500) as int / 1000);
    }
    let mut s = u64_to_string(tm / 1000);
    s.append(".");
    let frac = three_digits(tm % 1000);
    s.append(frac.as_str());
    s.append(" s");
    proof {
        assert(s@ =~= seconds_text(micros));
    }
    s
}

/// Metrics for sorting operations in views and reports.
#[derive(Debug, Clone, Copy, PartialEq, Eq, Structural)]
pub enum SortMetric {
    /// By call count.
    Count,
    /// By total recorded time.
    TotalTime,
    /// By mean recorded time.
    MeanTime,
    /// By the median.
    P50,
    /// By the 95th percentile.
    P95,
    /// By the 99th percentile.
    P99,
}

/// The value a sort metric reads from a snapshot.
pub open spec fn metric_value(metric: SortMetric, s: OperationStats) -> int {
    match metric {
        SortMetric::Count => s.count as int,
        SortMetric::TotalTime => s.total_micros as int,
        SortMetric::MeanTime => crate::mean_spec(s.count, s.total_micros) as int,
        SortMetric::P50 => s.p50 as int,
        SortMetric::P95 => s.p95 as int,
        SortMetric::P99 => s.p99 as int,
    }
}

/// Read a sort metric from a snapshot.
fn metric_value_of(metric: SortMetric, s: &OperationStats) -> (r: u64)
    ensures
        r as int == metric_value(metric, *s),
{
    match metric {
        SortMetric::Count => s.count,
        SortMetric::TotalTime => s.total_micros,
        SortMetric::MeanTime => crate::mean_of(s.count, s.total_micros),
        SortMetric::P50 => s.p50,
        SortMetric::P95 => s.p95,
        SortMetric::P99 => s.p99,
    }
}

/// Configuration for generating profile reports.
#[derive(Debug, Clone)]
pub struct ReportConfig {
    /// Include percentile statistics in rendered views.
    pub include_percentiles: bool,
    /// Sort operations by mean time instead of by name.
    pub sort_by_time: bool,
    /// Sort by a specific percentile instead.
    pub sort_by_percentile: Option<Percentile>,
    /// Exclude keys with fewer samples than this.
    pub min_samples: u64,
    /// Group operations by category.
    pub group_by_category: bool,
    /// Include summary statistics in rendered views.
    pub include_summary: bool,
    /// Time format for displaying durations.
    pub time_format: TimeFormat,
    /// Largest number of operations per view; zero means unlimited.
    pub max_operations: usize,
    /// Keep keys with zero samples even under a minimum-sample filter.
    pub include_empty: bool,
}

impl Default for ReportConfig {
    /// Percentiles and summary on, grouped by category, no filters, auto
    /// time unit.
    fn default() -> (r: ReportConfig)
        ensures
            r.include_percentiles == true,
            r.sort_by_time == false,
            r.sort_by_percentile is None,
            r.min_samples == 0,
            r.group_by_category == true,
            r.include_summary == true,
            r.time_format == TimeFormat::Auto,
            r.max_operations == 0,
            r.include_empty == false,
    {
        ReportConfig {
            include_percentiles: true,
            sort_by_time: false,
            sort_by_percentile: None,
            min_samples: 0,
            group_by_category: true,
            include_summary: true,
            time_format: TimeFormat::Auto,
            max_operations: 0,
            include_empty: false,
        }
    }
}


// ---------------------------------------------------------------------------
// Ordering of rows: a metric, descending, with key names breaking ties
// ---------------------------------------------------------------------------
/// The UTF-8 bytes of a key; Rust orders strings by exactly these.
pub open spec fn key_bytes(k: Seq<char>) -> Seq<u8> {
    vstd::utf8::encode_utf8(k)
}

/// Strict lexicographic order on byte sequences.
pub open spec fn bytes_lt(a: Seq<u8>, b: Seq<u8>) -> bool
    decreases a.len(),
{
    if b.len() == 0 {
        false
    } else if a.len() == 0 {
        true
    } else if a[0] != b[0] {
        a[0] < b[0]
    } else {
        bytes_lt(a.drop_first(), b.drop_first())
    }
}

/// `a` sorts at or before `b` by name: `b` is not strictly below `a`.
pub open spec fn name_le(a: Seq<char>, b: Seq<char>) -> bool {
    !bytes_lt(key_bytes(b), key_bytes(a))
}

proof fn lemma_bytes_lt_irrefl(a: Seq<u8>)
    ensures
        !bytes_lt(a, a),
    decreases a.len(),
{
    if a.len() > 0 {
        lemma_bytes_lt_irrefl(a.drop_first());
    }
}

proof fn lemma_bytes_lt_trans(a: Seq<u8>, b: Seq<u8>, c: Seq<u8>)
    requires
        bytes_lt(a, b),
        bytes_lt(b, c),
    ensures
        bytes_lt(a, c),
    decreases a.len(),
{
    if a.len() > 0 && b.len() > 0 && c.len() > 0 && a[0] == b[0] && b[0] == c[0] {
        lemma_bytes_lt_trans(a.drop_first(), b.drop_first(), c.drop_first());
    }
}

proof fn lemma_bytes_lt_connex(a: Seq<u8>, b: Seq<u8>)
    ensures
        bytes_lt(a, b) || bytes_lt(b, a) || a == b,
    decreases a.len(),
{
    if a.len() > 0 && b.len() > 0 && a[0] == b[0] {
        lemma_bytes_lt_connex(a.drop_first(), b.drop_first());
        if a.drop_first() == b.drop_first() {
            assert forall|i: int| 0 <= i < a.len() implies a[i] == b[i] by {
                if i > 0 {
                    assert(a.drop_first()[i - 1] == b.drop_first()[i - 1]);
                }
            }
            assert(a =~= b);
        }
    }
}

/// The name order is total and transitive.
proof fn lemma_name_le_props(a: Seq<char>, b: Seq<char>, c: Seq<char>)
    ensures
        name_le(a, b) || name_le(b, a),
        name_le(a, b) && name_le(b, c) ==> name_le(a, c),
{
    let ka = key_bytes(a);
    let kb = key_bytes(b);
    let kc = key_bytes(c);
    lemma_bytes_lt_connex(ka, kb);
    lemma_bytes_lt_irrefl(ka);
    lemma_bytes_lt_irrefl(kb);
    if bytes_lt(ka, kb) && bytes_lt(kb, ka) {
        lemma_bytes_lt_trans(ka, kb, ka);
    }
    if name_le(a, b) && name_le(b, c) && bytes_lt(kc, ka) {
        lemma_bytes_lt_connex(ka, kb);
        lemma_bytes_lt_connex(kb, kc);
        lemma_bytes_lt_irrefl(kc);
        if bytes_lt(ka, kb) {
            if bytes_lt(kb, kc) {
                lemma_bytes_lt_trans(ka, kb, kc);
                lemma_bytes_lt_trans(ka, kc, ka);
                lemma_bytes_lt_irrefl(ka);
            } else if kb == kc {
                lemma_bytes_lt_trans(kc, ka, kb);
            } else {
                assert(false);
            }
        } else if ka == kb {
            if bytes_lt(kb, kc) {
                lemma_bytes_lt_trans(kb, kc, ka);
            } else if kb == kc {
            } else {
                assert(false);
            }
        } else {
            assert(false);
        }
    }
}

/// Whether `a` is strictly below `b` in Rust's string order.
fn str_lt(a: &str, b: &str) -> (r: bool)
    ensures
        r == bytes_lt(a.spec_bytes(), b.spec_bytes()),
{
    let ab = a.as_bytes();
    let bb = b.as_bytes();
    proof {
        assert(ab@.skip(0) =~= ab@);
        assert(bb@.skip(0) =~= bb@);
    }
    let mut i: usize = 0;
    loop
        invariant
            0 <= i <= ab@.len(),
            i <= bb@.len(),
            ab@ == a.spec_bytes(),
            bb@ == b.spec_bytes(),
            forall|j: int| 0 <= j < i ==> ab@[j] == bb@[j],
            bytes_lt(a.spec_bytes(), b.spec_bytes()) == bytes_lt(
                ab@.skip(i as int),
                bb@.skip(i as int),
            ),
        decreases ab@.len() - i,
    {
        if i == bb.len() {
            return false;
        }
        if i == ab.len() {
            return true;
        }
        let x = ab[i];
        let y = bb[i];
        if x != y {
            return x < y;
        }
        proof {
            assert(ab@.skip(i as int).drop_first() =~= ab@.skip(i + 1));
            assert(bb@.skip(i as int).drop_first() =~= bb@.skip(i + 1));
        }
        i = i + 1;
    }
}

/// Whether `a` sorts at or before `b` by name.
fn name_le_exec(a: &String, b: &String) -> (r: bool)
    ensures
        r == name_le(a@, b@),
{
    !str_lt(b.as_str(), a.as_str())
}

/// How a view orders its rows: descending by a metric or by the 99.9th
/// percentile, with names breaking ties, or ascending by name alone.
#[derive(Debug, Clone, Copy, PartialEq, Eq, Structural)]
pub enum RowOrder {
    /// Largest metric first; equal metrics sort by name.
    MetricDesc(SortMetric),
    /// Largest 99.9th percentile first; ties sort by name.
    P999Desc,
    /// Names ascending.
    NameAsc,
}

/// `a` sorts at or before `b` under the given order.
pub open spec fn row_le(ord: RowOrder, a: (String, OperationStats), b: (String, OperationStats)) -> bool {
    match ord {
        RowOrder::MetricDesc(metric) => metric_value(metric, a.1) > metric_value(metric, b.1) || (
        metric_value(metric, a.1) == metric_value(metric, b.1) && name_le(a.0@, b.0@)),
        RowOrder::P999Desc => a.1.p999 > b.1.p999 || (a.1.p999 == b.1.p999 && name_le(a.0@, b.0@)),
        RowOrder::NameAsc => name_le(a.0@, b.0@),
    }
}

/// The row order is total and transitive.
proof fn lemma_row_le_props(
    ord: RowOrder,
    a: (String, OperationStats),
    b: (String, OperationStats),
    c: (String, OperationStats),
)
    ensures
        row_le(ord, a, b) || row_le(ord, b, a),
        row_le(ord, a, b) && row_le(ord, b, c) ==> row_le(ord, a, c),
{
    lemma_name_le_props(a.0@, b.0@, c.0@);
    lemma_name_le_props(b.0@, a.0@, c.0@);
}

/// Every adjacent-or-not pair of rows is ordered.
pub open spec fn rows_sorted(ord: RowOrder, s: Seq<(String, OperationStats)>) -> bool {
    forall|x: int, y: int| 0 <= x < y < s.len() ==> row_le(ord, #[trigger] s[x], #[trigger] s[y])
}

fn row_le_exec(ord: RowOrder, a: &(String, OperationStats), b: &(String, OperationStats)) -> (r:
    bool)
    ensures
        r == row_le(ord, *a, *b),
{
    match ord {
        RowOrder::MetricDesc(m) => {
            let va = metric_value_of(m, &a.1);
            let vb = metric_value_of(m, &b.1);
            if va > vb {
                true
            } else if va < vb {
                false
            } else {
                name_le_exec(&a.0, &b.0)
            }
        },
        RowOrder::P999Desc => {
            if a.1.p999 > b.1.p999 {
                true
            } else if a.1.p999 < b.1.p999 {
                false
            } else {
                name_le_exec(&a.0, &b.0)
            }
        },
        RowOrder::NameAsc => name_le_exec(&a.0, &b.0),
    }
}

/// Selection sort of rows under the given order; the result holds the
/// same rows, ordered.
fn sort_rows(rows: Vec<(String, OperationStats)>, ord: RowOrder) -> (out: Vec<
    (String, OperationStats),
>)
    ensures
        out@.to_multiset() == rows@.to_multiset(),
        out@.len() == rows@.len(),
        rows_sorted(ord, out@),
        forall|i: int| 0 <= i < out@.len() ==> rows@.contains(#[trigger] out@[i]),
{
    broadcast use vstd::seq_lib::group_to_multiset_ensures;
    broadcast use vstd::multiset::group_multiset_axioms;

    let mut rest = rows;
    let mut out: Vec<(String, OperationStats)> = Vec::new();
    while rest.len() > 0
        invariant
            out@.to_multiset().add(rest@.to_multiset()) == rows@.to_multiset(),
            out@.len() + rest@.len() == rows@.len(),
            rows_sorted(ord, out@),
            forall|x: int, y: int|
                0 <= x < out@.len() && 0 <= y < rest@.len() ==> row_le(
                    ord,
                    #[trigger] out@[x],
                    #[trigger] rest@[y],
                ),
            forall|y: int| 0 <= y < rest@.len() ==> rows@.contains(#[trigger] rest@[y]),
            forall|x: int| 0 <= x < out@.len() ==> rows@.contains(#[trigger] out@[x]),
        decreases rest@.len(),
    {
        // find the least remaining row
        proof {
            lemma_row_le_props(ord, rest@[0], rest@[0], rest@[0]);
        }
        let mut mi: usize = 0;
        let mut j: usize = 1;
        while j < rest.len()
            invariant
                0 <= mi < j <= rest@.len(),
                rest@.len() > 0,
                forall|k: int| 0 <= k < j ==> row_le(ord, rest@[mi as int], #[trigger] rest@[k]),
            decreases rest@.len() - j,
        {
            let take_j = !row_le_exec(ord, &rest[mi], &rest[j]);
            proof {
                lemma_row_le_props(ord, rest@[mi as int], rest@[j as int], rest@[j as int]);
                if take_j {
                    assert forall|k: int| 0 <= k < j + 1 implies row_le(
                        ord,
                        rest@[j as int],
                        #[trigger] rest@[k],
                    ) by {
                        lemma_row_le_props(ord, rest@[j as int], rest@[mi as int], rest@[k]);
                        lemma_row_le_props(ord, rest@[j as int], rest@[j as int], rest@[j as int]);
                    }
                }
            }
            if take_j {
                mi = j;
            }
            j = j + 1;
        }
        let ghost pre_rest = rest@;
        let ghost pre_out = out@;
        let x = rest.remove(mi);
        out.push(x);
        proof {
            pre_rest.to_multiset_ensures();
            pre_out.to_multiset_ensures();
            assert(pre_rest.remove(mi as int).to_multiset() == pre_rest.to_multiset().remove(
                pre_rest[mi as int],
            ));
            assert(out@ == pre_out.push(x));
            assert(out@.to_multiset() == pre_out.to_multiset().insert(x));
            assert(pre_rest.to_multiset().count(x) > 0) by {
                assert(pre_rest.contains(x));
            }
            assert(out@.to_multiset().add(rest@.to_multiset()) =~= pre_out.to_multiset().add(
                pre_rest.to_multiset(),
            ));
            assert forall|p: int, q: int|
                0 <= p < q < out@.len() implies row_le(ord, #[trigger] out@[p], #[trigger] out@[q]) by {
                if q == out@.len() - 1 {
                    assert(row_le(ord, pre_out[p], pre_rest[mi as int]));
                }
            }
            assert forall|p: int, q: int|
                0 <= p < out@.len() && 0 <= q < rest@.len() implies row_le(
                ord,
                #[trigger] out@[p],
                #[trigger] rest@[q],
            ) by {
                let orig_q = if q < mi as int {
                    q
                } else {
                    q + 1
                };
                assert(rest@[q] == pre_rest[orig_q]);
                if p == out@.len() - 1 {
                    assert(row_le(ord, pre_rest[mi as int], pre_rest[orig_q]));
                } else {
                    assert(row_le(ord, pre_out[p], pre_rest[orig_q]));
                }
            }
            assert forall|q: int| 0 <= q < rest@.len() implies rows@.contains(
                #[trigger] rest@[q],
            ) by {
                let orig_q = if q < mi as int {
                    q
                } else {
                    q + 1
                };
                assert(rest@[q] == pre_rest[orig_q]);
            }
        }
    }
    proof {
        rest@.to_multiset_ensures();
        out@.to_multiset_ensures();
        rows@.to_multiset_ensures();
        assert(rest@.to_multiset() =~= Multiset::<(String, OperationStats)>::empty());
        assert(out@.to_multiset() =~= rows@.to_multiset());
        assert(out@.to_multiset().len() == out@.len());
        assert(rows@.to_multiset().len() == rows@.len());
    }
    out
}


// ---------------------------------------------------------------------------
// The report
// ---------------------------------------------------------------------------
/// The category table as mathematical key-value pairs.
pub open spec fn cat_table_view(v: Seq<(String, CategoryInfo)>) -> Seq<
    (Seq<char>, crate::category::CategoryInfoModel),
> {
    v.map_values(|e: (String, CategoryInfo)| (e.0@, e.1@))
}

/// The category name a key renders under: the registered one, or
/// "Uncategorized" for a key without one (never an error).
pub open spec fn resolved_cat_name(
    cats: Seq<(Seq<char>, crate::category::CategoryInfoModel)>,
    k: Seq<char>,
) -> Seq<char> {
    if kv_has(cats, k) {
        kv_get(cats, k).name
    } else {
        "Uncategorized"@
    }
}

/// Whether a filter keeps a row: enough samples, or empty rows are
/// explicitly included.
pub open spec fn row_kept(config: ReportConfig, s: OperationStats) -> bool {
    s.count >= config.min_samples || config.include_empty
}

/// The row order a configuration asks for: mean time when sorting by
/// time, else the chosen percentile, else names.
pub open spec fn config_order(config: ReportConfig) -> RowOrder {
    if config.sort_by_time {
        RowOrder::MetricDesc(SortMetric::MeanTime)
    } else {
        match config.sort_by_percentile {
            Some(Percentile::P50) => RowOrder::MetricDesc(SortMetric::P50),
            Some(Percentile::P95) => RowOrder::MetricDesc(SortMetric::P95),
            Some(Percentile::P99) => RowOrder::MetricDesc(SortMetric::P99),
            Some(Percentile::P999) => RowOrder::P999Desc,
            None => RowOrder::NameAsc,
        }
    }
}

/// A point-in-time report: a snapshot of every key's statistics and of
/// the category table, taken together, read-only from then on.
pub struct ProfileReport {
    /// The configuration the report renders under.
    pub config: ReportConfig,
    /// Snapshot rows, one per key, in first-record order.
    pub stats: Vec<(String, OperationStats)>,
    /// The category registered for each key that has one.
    pub categories: Vec<(String, CategoryInfo)>,
}

impl ProfileReport {
    /// The report's internal consistency: category keys are unique and
    /// every row's minimum is at most its maximum.
    pub open spec fn wf(&self) -> bool {
        &&& kv_unique(cat_table_view(self.categories@))
        &&& forall|i: int|
            0 <= i < self.stats@.len() ==> (#[trigger] self.stats@[i]).1.min_time_micros
                <= self.stats@[i].1.max_time_micros
    }

    /// Snapshot the collector under the default configuration.
    pub fn generate(collector: &ProfileCollector) -> (r: ProfileReport)
        requires
            collector.wf(),
        ensures
            r.wf(),
            rows_match(r.stats@, collector@.stats),
    {
        ProfileReport::generate_with_config(collector, ReportConfig::default())
    }

    /// Snapshot the collector under the given configuration: one row per
    /// key, and the registered category of every key that has one.
    pub fn generate_with_config(collector: &ProfileCollector, config: ReportConfig) -> (r:
        ProfileReport)
        requires
            collector.wf(),
        ensures
            r.wf(),
            r.config == config,
            rows_match(r.stats@, collector@.stats),
            forall|j: int|
                0 <= j < r.categories@.len() ==> kv_has(
                    collector@.cats,
                    (#[trigger] r.categories@[j]).0@,
                ) && r.categories@[j].1@ == kv_get(collector@.cats, r.categories@[j].0@),
    {
        let stats = collector.get_all_stats();
        let mut categories: Vec<(String, CategoryInfo)> = Vec::new();
        let mut i: usize = 0;
        while i < stats.len()
            invariant
                collector.wf(),
                rows_match(stats@, collector@.stats),
                0 <= i <= stats@.len(),
                forall|j: int|
                    0 <= j < categories@.len() ==> kv_has(
                        collector@.cats,
                        (#[trigger] categories@[j]).0@,
                    ) && categories@[j].1@ == kv_get(collector@.cats, categories@[j].0@),
                forall|j: int|
                    0 <= j < categories@.len() ==> exists|w: int|
                        0 <= w < i && (#[trigger] categories@[j]).0@ == stats@[w].0@,
                kv_unique(cat_table_view(categories@)),
            decreases stats@.len() - i,
        {
            let key = &stats[i].0;
            match collector.get_category(key.as_str()) {
                Some(c) => {
                    let ghost pre = categories@;
                    categories.push((key.clone(), c));
                    proof {
                        assert(cat_table_view(categories@) =~= cat_table_view(pre).push(
                            (key@, c@),
                        ));
                        assert forall|a: int, b: int|
                            0 <= a < b < cat_table_view(categories@).len() implies (
                        #[trigger] cat_table_view(categories@)[a]).0 != (
                        #[trigger] cat_table_view(categories@)[b]).0 by {
                            if b == cat_table_view(categories@).len() - 1 {
                                let w = choose|w: int|
                                    0 <= w < i && (pre[a]).0@ == stats@[w].0@;
                                assert(collector@.stats[w].0 == stats@[w].0@);
                                assert(collector@.stats[i as int].0 == stats@[i as int].0@);
                                assert(collector@.stats[w].0 != collector@.stats[i as int].0);
                            }
                        }
                    }
                },
                None => {},
            }
            i = i + 1;
        }
        proof {
            assert forall|j: int|
                0 <= j < stats@.len() implies (#[trigger] stats@[j]).1.min_time_micros
                    <= stats@[j].1.max_time_micros by {
                assert(crate::collector::snapshot_matches(stats@[j].1, collector@.stats[j].1));
            }
        }
        ProfileReport { config, stats, categories }
    }

    /// One line of plain text with the headline numbers: unique key
    /// count, total calls, and total time in the configured unit.
    pub fn quick_summary(&self) -> (r: String)
        ensures
            r@ == quick_summary_text(self.stats@, self.config.time_format),
    {
        let sm = summarize_rows(&self.stats);
        let mut out = "Operations: ".to_owned();
        out.append(u64_to_string(sm.unique_operations as u64).as_str());
        out.append(" | Total calls: ");
        out.append(u64_to_string(sm.total_operations).as_str());
        out.append(" | Total time: ");
        out.append(self.config.time_format.format_time(sm.total_time_micros).as_str());
        proof {
            assert(out@ =~= quick_summary_text(self.stats@, self.config.time_format));
        }
        out
    }

    /// The aggregate summary of this report's rows.
    pub fn summary_stats(&self) -> (r: SummaryStats)
        ensures
            r@ == summary_spec(self.stats@),
    {
        summarize_rows(&self.stats)
    }

    /// The top operations under the given metric: every row sorted
    /// descending by the metric with names breaking ties, cut to
    /// `limit` rows.
    pub fn top_operations_by(&self, metric: SortMetric, limit: usize) -> (r: Vec<
        (String, OperationStats),
    >)
        ensures
            r@.len() == if limit < self.stats@.len() {
                limit as int
            } else {
                self.stats@.len() as int
            },
            exists|srt: Seq<(String, OperationStats)>|
                #![trigger rows_sorted(RowOrder::MetricDesc(metric), srt)]
                {
                    &&& srt.to_multiset() == self.stats@.to_multiset()
                    &&& rows_sorted(RowOrder::MetricDesc(metric), srt)
                    &&& r@ == srt.take(r@.len() as int)
                },
    {
        let rows = clone_rows(&self.stats);
        let mut sorted = sort_rows(rows, RowOrder::MetricDesc(metric));
        let ghost srt = sorted@;
        if limit < sorted.len() {
            sorted.truncate(limit);
        }
        proof {
            assert(sorted@ =~= srt.take(sorted@.len() as int));
        }
        sorted
    }
}

/// An exact copy of a row sequence.
fn clone_rows(rows: &Vec<(String, OperationStats)>) -> (r: Vec<(String, OperationStats)>)
    ensures
        r@ == rows@,
{
    let mut out: Vec<(String, OperationStats)> = Vec::new();
    let mut i: usize = 0;
    while i < rows.len()
        invariant
            0 <= i <= rows@.len(),
            out@ =~= rows@.take(i as int),
        decreases rows@.len() - i,
    {
        let e = &rows[i];
        out.push((e.0.clone(), e.1));
        proof {
            assert(out@ =~= rows@.take(i + 1));
        }
        i = i + 1;
    }
    proof {
        assert(rows@.take(rows@.len() as int) =~= rows@);
    }
    out
}

/// The one-line summary [`ProfileReport::quick_summary`] renders.
pub open spec fn quick_summary_text(rows: Seq<(String, OperationStats)>, fmt: TimeFormat) -> Seq<
    char,
> {
    "Operations: "@ + dec_seq(rows.len() as int) + " | Total calls: "@ + dec_seq(
        crate::collector::rows_total_ops(rows),
    ) + " | Total time: "@ + format_time_spec(fmt, crate::collector::rows_total_time(rows) as u64)
}


// ---------------------------------------------------------------------------
// Filtering, grouping and the CSV export
// ---------------------------------------------------------------------------
/// One CSV data row: key, category name, then the row's numbers in
/// microseconds, comma-separated and newline-terminated.
pub open spec fn csv_line(
    cats: Seq<(Seq<char>, crate::category::CategoryInfoModel)>,
    row: (String, OperationStats),
) -> Seq<char> {
    row.0@ + ","@ + resolved_cat_name(cats, row.0@) + ","@ + dec_seq(row.1.count as int) + ","@
        + dec_seq(crate::mean_spec(row.1.count, row.1.total_micros) as int) + ","@ + dec_seq(
        row.1.min_time_micros as int,
    ) + ","@ + dec_seq(row.1.max_time_micros as int) + ","@ + dec_seq(row.1.p50 as int) + ","@
        + dec_seq(row.1.p95 as int) + ","@ + dec_seq(row.1.p99 as int) + ","@ + dec_seq(
        row.1.p999 as int,
    ) + ","@ + dec_seq(
        crate::collector::std_dev_spec(
            row.1.count,
            row.1.total_micros,
            row.1.min_time_micros,
            row.1.max_time_micros,
        ) as int,
    ) + "\n"@
}

/// The concatenated CSV lines of a row sequence.
pub open spec fn csv_body(
    cats: Seq<(Seq<char>, crate::category::CategoryInfoModel)>,
    rows: Seq<(String, OperationStats)>,
) -> Seq<char>
    decreases rows.len(),
{
    if rows.len() == 0 {
        Seq::empty()
    } else {
        csv_body(cats, rows.drop_last()) + csv_line(cats, rows.last())
    }
}

impl ProfileReport {
    /// The registered category's name for a key, or "Uncategorized".
    fn category_name_for(&self, key: &String) -> (r: String)
        requires
            self.wf(),
        ensures
            r@ == resolved_cat_name(cat_table_view(self.categories@), key@),
    {
        let ghost cats = cat_table_view(self.categories@);
        let mut i: usize = 0;
        while i < self.categories.len()
            invariant
                self.wf(),
                cats == cat_table_view(self.categories@),
                0 <= i <= self.categories@.len(),
                forall|j: int| 0 <= j < i ==> (#[trigger] cats[j]).0 != key@,
            decreases self.categories@.len() - i,
        {
            if self.categories[i].0 == *key {
                proof {
                    assert(cats[i as int].0 == key@);
                    crate::collector::lemma_kv_index_unique(cats, key@, i as int);
                }
                return self.categories[i].1.name.clone();
            }
            i = i + 1;
        }
        proof {
            assert(!kv_has(cats, key@));
        }
        "Uncategorized".to_owned()
    }

    /// Render one row as a CSV line.
    fn csv_line_of(&self, row: &(String, OperationStats)) -> (r: String)
        requires
            self.wf(),
            row.1.min_time_micros <= row.1.max_time_micros,
        ensures
            r@ == csv_line(cat_table_view(self.categories@), *row),
    {
        let mut out = row.0.clone();
        out.append(",");
        let cat = self.category_name_for(&row.0);
        out.append(cat.as_str());
        out.append(",");
        out.append(u64_to_string(row.1.count).as_str());
        out.append(",");
        out.append(u64_to_string(crate::mean_of(row.1.count, row.1.total_micros)).as_str());
        out.append(",");
        out.append(u64_to_string(row.1.min_time_micros).as_str());
        out.append(",");
        out.append(u64_to_string(row.1.max_time_micros).as_str());
        out.append(",");
        out.append(u64_to_string(row.1.p50).as_str());
        out.append(",");
        out.append(u64_to_string(row.1.p95).as_str());
        out.append(",");
        out.append(u64_to_string(row.1.p99).as_str());
        out.append(",");
        out.append(u64_to_string(row.1.p999).as_str());
        out.append(",");
        out.append(u64_to_string(row.1.std_dev_micros()).as_str());
        out.append("\n");
        proof {
            assert(out@ =~= csv_line(cat_table_view(self.categories@), *row));
        }
        out
    }

    /// The rows that pass the configured minimum-sample filter, sorted
    /// by name, each rendered as one CSV line after a header: the direct
    /// serialization of the filtered view.
    pub fn to_csv(&self) -> (r: String)
        requires
            self.wf(),
        ensures
            exists|srt: Seq<(String, OperationStats)>|
                #![trigger rows_sorted(RowOrder::NameAsc, srt)]
                {
                    &&& srt.to_multiset() == self.stats@.filter(
                        |e: (String, OperationStats)| row_kept(self.config, e.1),
                    ).to_multiset()
                    &&& rows_sorted(RowOrder::NameAsc, srt)
                    &&& r@ == csv_header_text() + csv_body(cat_table_view(self.categories@), srt)
                },
    {
        let filtered = self.filtered_rows();
        let sorted = sort_rows(filtered, RowOrder::NameAsc);
        let mut out =
            "Operation,Category,Count,Mean (µs),Min (µs),Max (µs),P50 (µs),P95 (µs),P99 (µs),P99.9 (µs),Std Dev (µs)\n".to_owned();
        let ghost cats = cat_table_view(self.categories@);
        let mut i: usize = 0;
        while i < sorted.len()
            invariant
                self.wf(),
                0 <= i <= sorted@.len(),
                out@ == csv_header_text() + csv_body(cats, sorted@.take(i as int)),
                cats == cat_table_view(self.categories@),
                forall|j: int|
                    0 <= j < sorted@.len() ==> (#[trigger] sorted@[j]).1.min_time_micros
                        <= sorted@[j].1.max_time_micros,
            decreases sorted@.len() - i,
        {
            let row = &sorted[i];
            let line = self.csv_line_of(row);
            out.append(line.as_str());
            proof {
                assert(sorted@.take(i + 1).drop_last() =~= sorted@.take(i as int));
                assert(sorted@.take(i + 1).last() == sorted@[i as int]);
                assert(out@ =~= csv_header_text() + csv_body(cats, sorted@.take(i + 1)));
            }
            i = i + 1;
        }
        proof {
            assert(sorted@.take(sorted@.len() as int) =~= sorted@);
        }
        out
    }

    /// The rows that pass the minimum-sample filter, in their stored
    /// order.
    fn filtered_rows(&self) -> (r: Vec<(String, OperationStats)>)
        requires
            self.wf(),
        ensures
            r@ == self.stats@.filter(|e: (String, OperationStats)| row_kept(self.config, e.1)),
            forall|j: int|
                0 <= j < r@.len() ==> (#[trigger] r@[j]).1.min_time_micros
                    <= r@[j].1.max_time_micros,
    {
        let ghost pred = |e: (String, OperationStats)| row_kept(self.config, e.1);
        let mut out: Vec<(String, OperationStats)> = Vec::new();
        let mut i: usize = 0;
        while i < self.stats.len()
            invariant
                self.wf(),
                0 <= i <= self.stats@.len(),
                out@ == self.stats@.take(i as int).filter(pred),
                pred == (|e: (String, OperationStats)| row_kept(self.config, e.1)),
                forall|j: int|
                    0 <= j < out@.len() ==> (#[trigger] out@[j]).1.min_time_micros
                        <= out@[j].1.max_time_micros,
            decreases self.stats@.len() - i,
        {
            let e = &self.stats[i];
            let keep = e.1.count >= self.config.min_samples || self.config.include_empty;
            proof {
                assert(self.stats@.take(i + 1).drop_last() =~= self.stats@.take(i as int));
                assert(self.stats@.take(i + 1).last() == self.stats@[i as int]);
                reveal_with_fuel(Seq::filter, 2);
            }
            if keep {
                out.push((e.0.clone(), e.1));
            }
            i = i + 1;
        }
        proof {
            assert(self.stats@.take(self.stats@.len() as int) =~= self.stats@);
        }
        out
    }

    /// The rows of one category group: rows whose registered category
    /// name is the given one (with "Uncategorized" collecting keys that
    /// have none), filtered like every view, sorted by the configured
    /// order, and cut to the configured row cap.
    pub fn rows_in_category(&self, category_name: &str) -> (r: Vec<(String, OperationStats)>)
        requires
            self.wf(),
        ensures
            exists|srt: Seq<(String, OperationStats)>|
                #![trigger rows_sorted(config_order(self.config), srt)]
                {
                    &&& srt.to_multiset() == self.stats@.filter(
                        |e: (String, OperationStats)| row_kept(self.config, e.1)
                            && resolved_cat_name(cat_table_view(self.categories@), e.0@)
                            == category_name@,
                    ).to_multiset()
                    &&& rows_sorted(config_order(self.config), srt)
                    &&& r@ == srt.take(r@.len() as int)
                    &&& r@.len() == if self.config.max_operations > 0 && self.config.max_operations
                        < srt.len() {
                        self.config.max_operations as int
                    } else {
                        srt.len() as int
                    }
                },
    {
        let ghost pred = |e: (String, OperationStats)|
            row_kept(self.config, e.1) && resolved_cat_name(cat_table_view(self.categories@), e.0@)
                == category_name@;
        let target: String = category_name.to_owned();
        let mut picked: Vec<(String, OperationStats)> = Vec::new();
        let mut i: usize = 0;
        while i < self.stats.len()
            invariant
                self.wf(),
                0 <= i <= self.stats@.len(),
                target@ == category_name@,
                picked@ == self.stats@.take(i as int).filter(pred),
                pred == (|e: (String, OperationStats)|
                    row_kept(self.config, e.1) && resolved_cat_name(
                        cat_table_view(self.categories@),
                        e.0@,
                    ) == category_name@),
            decreases self.stats@.len() - i,
        {
            let e = &self.stats[i];
            let keep_samples = e.1.count >= self.config.min_samples || self.config.include_empty;
            let cat = self.category_name_for(&e.0);
            let keep = keep_samples && cat == target;
            proof {
                assert(self.stats@.take(i + 1).drop_last() =~= self.stats@.take(i as int));
                assert(self.stats@.take(i + 1).last() == self.stats@[i as int]);
                reveal_with_fuel(Seq::filter, 2);
            }
            if keep {
                picked.push((e.0.clone(), e.1));
            }
            i = i + 1;
        }
        proof {
            assert(self.stats@.take(self.stats@.len() as int) =~= self.stats@);
        }
        let order = if self.config.sort_by_time {
            RowOrder::MetricDesc(SortMetric::MeanTime)
        } else {
            match self.config.sort_by_percentile {
                Some(Percentile::P50) => RowOrder::MetricDesc(SortMetric::P50),
                Some(Percentile::P95) => RowOrder::MetricDesc(SortMetric::P95),
                Some(Percentile::P99) => RowOrder::MetricDesc(SortMetric::P99),
                Some(Percentile::P999) => RowOrder::P999Desc,
                None => RowOrder::NameAsc,
            }
        };
        let mut sorted = sort_rows(picked, order);
        let ghost srt = sorted@;
        if self.config.max_operations > 0 && self.config.max_operations < sorted.len() {
            sorted.truncate(self.config.max_operations);
        }
        proof {
            assert(sorted@ =~= srt.take(sorted@.len() as int));
        }
        sorted
    }
}

/// The header line of the CSV export.
pub open spec fn csv_header_text() -> Seq<char> {
    "Operation,Category,Count,Mean (µs),Min (µs),Max (µs),P50 (µs),P95 (µs),P99 (µs),P99.9 (µs),Std Dev (µs)\n"@
}

/// Builder for configuring and generating reports.
pub struct ReportBuilder {
    /// The configuration assembled so far.
    pub config: ReportConfig,
}

impl ReportBuilder {
    /// Start from the default configuration.
    pub fn new() -> (r: ReportBuilder)
        ensures
            r.config.include_percentiles == true,
            r.config.sort_by_time == false,
            r.config.sort_by_percentile is None,
            r.config.min_samples == 0,
            r.config.group_by_category == true,
            r.config.include_summary == true,
            r.config.time_format == TimeFormat::Auto,
            r.config.max_operations == 0,
            r.config.include_empty == false,
    {
        ReportBuilder { config: ReportConfig::default() }
    }

    /// Set whether to include percentiles.
    pub fn include_percentiles(self, enabled: bool) -> (r: ReportBuilder)
        ensures
            r.config == (ReportConfig { include_percentiles: enabled, ..self.config }),
    {
        let mut config = self.config;
        config.include_percentiles = enabled;
        ReportBuilder { config }
    }

    /// Set whether to sort by mean time.
    pub fn sort_by_time(self, sort: bool) -> (r: ReportBuilder)
        ensures
            r.config == (ReportConfig { sort_by_time: sort, ..self.config }),
    {
        let mut config = self.config;
        config.sort_by_time = sort;
        ReportBuilder { config }
    }

    /// Sort by a specific percentile.
    pub fn sort_by_percentile(self, percentile: Percentile) -> (r: ReportBuilder)
        ensures
            r.config == (ReportConfig {
                sort_by_percentile: Some(percentile),
                ..self.config
            }),
    {
        let mut config = self.config;
        config.sort_by_percentile = Some(percentile);
        ReportBuilder { config }
    }

    /// Set the minimum samples required for a row to appear.
    pub fn min_samples(self, min: u64) -> (r: ReportBuilder)
        ensures
            r.config == (ReportConfig { min_samples: min, ..self.config }),
    {
        let mut config = self.config;
        config.min_samples = min;
        ReportBuilder { config }
    }

    /// Set whether to group by category.
    pub fn group_by_category(self, group: bool) -> (r: ReportBuilder)
        ensures
            r.config == (ReportConfig { group_by_category: group, ..self.config }),
    {
        let mut config = self.config;
        config.group_by_category = group;
        ReportBuilder { config }
    }

    /// Set whether to include the summary.
    pub fn include_summary(self, enabled: bool) -> (r: ReportBuilder)
        ensures
            r.config == (ReportConfig { include_summary: enabled, ..self.config }),
    {
        let mut config = self.config;
        config.include_summary = enabled;
        ReportBuilder { config }
    }

    /// Set the time format.
    pub fn time_format(self, format: TimeFormat) -> (r: ReportBuilder)
        ensures
            r.config == (ReportConfig { time_format: format, ..self.config }),
    {
        let mut config = self.config;
        config.time_format = format;
        ReportBuilder { config }
    }

    /// Set the largest number of operations per view (zero: unlimited).
    pub fn max_operations(self, max: usize) -> (r: ReportBuilder)
        ensures
            r.config == (ReportConfig { max_operations: max, ..self.config }),
    {
        let mut config = self.config;
        config.max_operations = max;
        ReportBuilder { config }
    }

    /// Set whether to include keys with zero samples.
    pub fn include_empty(self, enabled: bool) -> (r: ReportBuilder)
        ensures
            r.config == (ReportConfig { include_empty: enabled, ..self.config }),
    {
        let mut config = self.config;
        config.include_empty = enabled;
        ReportBuilder { config }
    }

    /// Generate the report from a collector under this configuration.
    pub fn build(self, collector: &ProfileCollector) -> (r: ProfileReport)
        requires
            collector.wf(),
        ensures
            r.wf(),
            r.config == self.config,
            rows_match(r.stats@, collector@.stats),
    {
        ProfileReport::generate_with_config(collector, self.config)
    }
}



// ---------------------------------------------------------------------------
// Group labels
// ---------------------------------------------------------------------------
/// Category group order: lower priority first, names breaking ties.
pub open spec fn cat_le(
    a: crate::category::CategoryInfoModel,
    b: crate::category::CategoryInfoModel,
) -> bool {
    a.priority < b.priority || (a.priority == b.priority && name_le(a.name, b.name))
}

proof fn lemma_cat_le_props(
    a: crate::category::CategoryInfoModel,
    b: crate::category::CategoryInfoModel,
    c: crate::category::CategoryInfoModel,
)
    ensures
        cat_le(a, b) || cat_le(b, a),
        cat_le(a, b) && cat_le(b, c) ==> cat_le(a, c),
{
    lemma_name_le_props(a.name, b.name, c.name);
    lemma_name_le_props(b.name, a.name, c.name);
}

fn cat_le_exec(a: &CategoryInfo, b: &CategoryInfo) -> (r: bool)
    ensures
        r == cat_le(a@, b@),
{
    if a.priority < b.priority {
        true
    } else if b.priority < a.priority {
        false
    } else {
        name_le_exec(&a.name, &b.name)
    }
}

/// The label is one of the categories registered in the table.
pub open spec fn label_from_table(c: CategoryInfo, table: Seq<(String, CategoryInfo)>) -> bool {
    exists|j: int| 0 <= j < table.len() && c@ == ((#[trigger] table[j]).1)@
}

/// Some label in the sequence carries this name.
pub open spec fn label_name_in(name: Seq<char>, labels: Seq<CategoryInfo>) -> bool {
    exists|x: int| 0 <= x < labels.len() && ((#[trigger] labels[x])@).name == name
}

impl ProfileReport {
    /// One label per distinct registered category name, carrying the
    /// first registration's metadata, in registration order.
    fn dedup_labels(&self) -> (r: Vec<CategoryInfo>)
        requires
            self.wf(),
        ensures
            forall|x: int, y: int|
                0 <= x < y < r@.len() ==> ((#[trigger] r@[x])@).name != ((#[trigger] r@[y])@).name,
            forall|x: int| 0 <= x < r@.len() ==> label_from_table(#[trigger] r@[x], self.categories@),
            forall|j: int|
                0 <= j < self.categories@.len() ==> label_name_in(
                    ((#[trigger] self.categories@[j]).1)@.name,
                    r@,
                ),
    {
        let mut out: Vec<CategoryInfo> = Vec::new();
        let mut j: usize = 0;
        while j < self.categories.len()
            invariant
                self.wf(),
                0 <= j <= self.categories@.len(),
                forall|x: int, y: int|
                    0 <= x < y < out@.len() ==> ((#[trigger] out@[x])@).name != ((
                    #[trigger] out@[y])@).name,
                forall|x: int|
                    0 <= x < out@.len() ==> label_from_table(#[trigger] out@[x], self.categories@),
                forall|w: int|
                    0 <= w < j ==> label_name_in(
                        ((#[trigger] self.categories@[w]).1)@.name,
                        out@,
                    ),
            decreases self.categories@.len() - j,
        {
            let c = &self.categories[j].1;
            let mut seen = false;
            let mut x: usize = 0;
            while x < out.len()
                invariant
                    0 <= x <= out@.len(),
                    seen <==> exists|y: int| 0 <= y < x && ((#[trigger] out@[y])@).name == c@.name,
                decreases out@.len() - x,
            {
                if out[x].name == c.name {
                    proof {
                        assert(((out@[x as int])@).name == c@.name);
                    }
                    seen = true;
                }
                x = x + 1;
            }
            let ghost pre = out@;
            if !seen {
                out.push(c.duplicate());
            }
            proof {
                if !seen {
                    assert(out@[out@.len() - 1]@ == c@);
                    assert(label_from_table(out@[out@.len() - 1], self.categories@)) by {
                        assert(out@[out@.len() - 1]@ == ((self.categories@[j as int]).1)@);
                    }
                    assert forall|x2: int|
                        0 <= x2 < out@.len() implies label_from_table(
                        #[trigger] out@[x2],
                        self.categories@,
                    ) by {
                        if x2 < out@.len() - 1 {
                            assert(out@[x2] == pre[x2]);
                        }
                    }
                }
                assert forall|w: int|
                    0 <= w < j + 1 implies label_name_in(
                    ((#[trigger] self.categories@[w]).1)@.name,
                    out@,
                ) by {
                    let name = ((self.categories@[w]).1)@.name;
                    if w == j as int {
                        if seen {
                            let y = choose|y: int|
                                0 <= y < pre.len() && ((#[trigger] pre[y])@).name == c@.name;
                            assert(out@[y]@.name == name);
                        } else {
                            assert(out@[out@.len() - 1]@.name == name);
                        }
                    } else {
                        let y = choose|y: int|
                            0 <= y < pre.len() && ((#[trigger] pre[y])@).name == name;
                        assert(out@[y] == pre[y]);
                        assert(out@[y]@.name == name);
                    }
                }
            }
            j = j + 1;
        }
        out
    }

    /// The labels of the category groups: one entry per distinct
    /// registered category name, sorted by priority with names breaking
    /// ties. Iterating these and asking [`Self::rows_in_category`] for
    /// each yields the grouped view.
    pub fn group_labels(&self) -> (r: Vec<CategoryInfo>)
        requires
            self.wf(),
        ensures
            forall|x: int, y: int|
                0 <= x < y < r@.len() ==> cat_le((#[trigger] r@[x])@, (#[trigger] r@[y])@),
            forall|x: int, y: int|
                0 <= x < y < r@.len() ==> ((#[trigger] r@[x])@).name != ((#[trigger] r@[y])@).name,
            forall|x: int| 0 <= x < r@.len() ==> label_from_table(#[trigger] r@[x], self.categories@),
            forall|j: int|
                0 <= j < self.categories@.len() ==> label_name_in(
                    ((#[trigger] self.categories@[j]).1)@.name,
                    r@,
                ),
    {
        broadcast use vstd::seq_lib::group_to_multiset_ensures;
        broadcast use vstd::multiset::group_multiset_axioms;

        let d = self.dedup_labels();
        let out = sort_labels(d);
        proof {
            assert forall|x: int, y: int|
                0 <= x < y < out@.len() implies ((#[trigger] out@[x])@).name != ((
            #[trigger] out@[y])@).name by {
                if out@[x]@.name == out@[y]@.name {
                    assert(d@.contains(out@[x]));
                    assert(d@.contains(out@[y]));
                    let ix = choose|i: int| 0 <= i < d@.len() && d@[i] == out@[x];
                    let iy = choose|i: int| 0 <= i < d@.len() && d@[i] == out@[y];
                    // distinct names in dedup force one source entry
                    assert(ix == iy);
                    let v = out@[x];
                    assert(out@[y] == v);
                    // the same value twice in the output means it sits at
                    // least twice in the multiset, but dedup holds it once
                    out@.to_multiset_ensures();
                    d@.to_multiset_ensures();
                    assert(out@.remove(x).to_multiset() == out@.to_multiset().remove(v));
                    assert(out@.remove(x)[y - 1] == v);
                    assert(out@.remove(x).contains(v));
                    out@.remove(x).to_multiset_ensures();
                    assert(out@.remove(x).to_multiset().count(v) >= 1);
                    assert(out@.to_multiset().count(v) >= 2);
                    assert(d@.to_multiset().count(v) >= 2);
                    assert(d@.remove(ix).to_multiset() == d@.to_multiset().remove(v));
                    assert(d@.remove(ix).to_multiset().count(v) >= 1);
                    d@.remove(ix).to_multiset_ensures();
                    assert(d@.remove(ix).contains(v));
                    let i3 = choose|i3: int|
                        0 <= i3 < d@.remove(ix).len() && d@.remove(ix)[i3] == v;
                    let i4: int = if i3 < ix {
                        i3
                    } else {
                        i3 + 1
                    };
                    assert(d@[i4] == v);
                    assert(d@[i4]@.name != d@[ix]@.name);
                    assert(false);
                }
            }
            assert forall|x: int|
                0 <= x < out@.len() implies label_from_table(
                #[trigger] out@[x],
                self.categories@,
            ) by {
                assert(d@.contains(out@[x]));
                let ix = choose|i: int| 0 <= i < d@.len() && d@[i] == out@[x];
                assert(label_from_table(d@[ix], self.categories@));
            }
            assert forall|j: int|
                0 <= j < self.categories@.len() implies label_name_in(
                ((#[trigger] self.categories@[j]).1)@.name,
                out@,
            ) by {
                let name = ((self.categories@[j]).1)@.name;
                let xd = choose|xd: int| 0 <= xd < d@.len() && ((#[trigger] d@[xd])@).name == name;
                d@.to_multiset_ensures();
                out@.to_multiset_ensures();
                assert(d@.contains(d@[xd]));
                assert(d@.to_multiset().count(d@[xd]) > 0);
                assert(out@.to_multiset().count(d@[xd]) > 0);
                assert(out@.contains(d@[xd]));
                let x2 = choose|x2: int| 0 <= x2 < out@.len() && out@[x2] == d@[xd];
                assert(out@[x2]@.name == name);
            }
        }
        out
    }
}

/// Selection sort of category labels under [`cat_le`].
fn sort_labels(labels: Vec<CategoryInfo>) -> (out: Vec<CategoryInfo>)
    ensures
        out@.to_multiset() == labels@.to_multiset(),
        out@.len() == labels@.len(),
        forall|x: int, y: int|
            0 <= x < y < out@.len() ==> cat_le((#[trigger] out@[x])@, (#[trigger] out@[y])@),
        forall|i: int| 0 <= i < out@.len() ==> labels@.contains(#[trigger] out@[i]),
{
    broadcast use vstd::seq_lib::group_to_multiset_ensures;
    broadcast use vstd::multiset::group_multiset_axioms;

    let mut rest = labels;
    let mut out: Vec<CategoryInfo> = Vec::new();
    while rest.len() > 0
        invariant
            out@.to_multiset().add(rest@.to_multiset()) == labels@.to_multiset(),
            out@.len() + rest@.len() == labels@.len(),
            forall|x: int, y: int|
                0 <= x < y < out@.len() ==> cat_le((#[trigger] out@[x])@, (#[trigger] out@[y])@),
            forall|x: int, y: int|
                0 <= x < out@.len() && 0 <= y < rest@.len() ==> cat_le(
                    (#[trigger] out@[x])@,
                    (#[trigger] rest@[y])@,
                ),
            forall|y: int| 0 <= y < rest@.len() ==> labels@.contains(#[trigger] rest@[y]),
            forall|x: int| 0 <= x < out@.len() ==> labels@.contains(#[trigger] out@[x]),
        decreases rest@.len(),
    {
        proof {
            lemma_cat_le_props(rest@[0]@, rest@[0]@, rest@[0]@);
        }
        let mut mi: usize = 0;
        let mut j: usize = 1;
        while j < rest.len()
            invariant
                0 <= mi < j <= rest@.len(),
                rest@.len() > 0,
                forall|k: int| 0 <= k < j ==> cat_le(rest@[mi as int]@, (#[trigger] rest@[k])@),
            decreases rest@.len() - j,
        {
            let take_j = !cat_le_exec(&rest[mi], &rest[j]);
            proof {
                lemma_cat_le_props(rest@[mi as int]@, rest@[j as int]@, rest@[j as int]@);
                if take_j {
                    assert forall|k: int| 0 <= k < j + 1 implies cat_le(
                        rest@[j as int]@,
                        (#[trigger] rest@[k])@,
                    ) by {
                        lemma_cat_le_props(rest@[j as int]@, rest@[mi as int]@, rest@[k]@);
                        lemma_cat_le_props(rest@[j as int]@, rest@[j as int]@, rest@[j as int]@);
                    }
                }
            }
            if take_j {
                mi = j;
            }
            j = j + 1;
        }
        let ghost pre_rest = rest@;
        let ghost pre_out = out@;
        let x = rest.remove(mi);
        out.push(x);
        proof {
            pre_rest.to_multiset_ensures();
            pre_out.to_multiset_ensures();
            assert(pre_rest.to_multiset().count(x) > 0) by {
                assert(pre_rest.contains(x));
            }
            assert(out@.to_multiset().add(rest@.to_multiset()) =~= pre_out.to_multiset().add(
                pre_rest.to_multiset(),
            ));
            assert forall|p: int, q: int|
                0 <= p < q < out@.len() implies cat_le(
                (#[trigger] out@[p])@,
                (#[trigger] out@[q])@,
            ) by {
                if q == out@.len() - 1 {
                    assert(cat_le(pre_out[p]@, pre_rest[mi as int]@));
                }
            }
            assert forall|p: int, q: int|
                0 <= p < out@.len() && 0 <= q < rest@.len() implies cat_le(
                (#[trigger] out@[p])@,
                (#[trigger] rest@[q])@,
            ) by {
                let orig_q = if q < mi as int {
                    q
                } else {
                    q + 1
                };
                assert(rest@[q] == pre_rest[orig_q]);
                if p == out@.len() - 1 {
                    assert(cat_le(pre_rest[mi as int]@, pre_rest[orig_q]@));
                } else {
                    assert(cat_le(pre_out[p]@, pre_rest[orig_q]@));
                }
            }
            assert forall|q: int| 0 <= q < rest@.len() implies labels@.contains(
                #[trigger] rest@[q],
            ) by {
                let orig_q = if q < mi as int {
                    q
                } else {
                    q + 1
                };
                assert(rest@[q] == pre_rest[orig_q]);
            }
        }
    }
    proof {
        rest@.to_multiset_ensures();
        out@.to_multiset_ensures();
        labels@.to_multiset_ensures();
        assert(rest@.to_multiset() =~= Multiset::<CategoryInfo>::empty());
        assert(out@.to_multiset() =~= labels@.to_multiset());
    }
    out
}

} // verus!
