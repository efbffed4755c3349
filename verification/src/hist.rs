//! The quantile store behind each accumulator: an `hdrhistogram::Histogram`
//! kept behind trusted declarations, and verified quantile arithmetic over
//! the (value, count) pairs it hands out.
//!
//! The histogram quantizes each recorded value to a precision of three
//! significant digits; `hist_equiv` names the representative (highest
//! equivalent) value of a recorded value under that quantization.

use vstd::prelude::*;

use vstd::multiset::Multiset;

verus! {

broadcast use vstd::multiset::group_multiset_axioms;

/// The largest value the auto-resizing histogram can track; larger values
/// must not be recorded (the store would reject them).
pub const HIST_MAX_RECORDABLE: u64 = 4611686018427387903;

/// The quantile store: an `hdrhistogram::Histogram` of `u64` counts with
/// three significant digits of precision and auto-resizing bounds. Opaque
/// here; everything known about it is said over [`hist_contents`].
#[verifier::external_body]
pub struct DurationHistogram {
    inner: hdrhistogram::Histogram<u64>,
}

/// The multiset of values recorded into a histogram so far.
pub uninterp spec fn hist_contents(h: DurationHistogram) -> Multiset<u64>;

/// The representative a recorded value is quantized to: the highest value
/// the three-significant-digit histogram treats as equivalent to it.
pub uninterp spec fn hist_equiv(v: u64) -> u64;

/// What the histogram's recorded-value iterator hands back, relative to the
/// contents `m`: pairs of (representative value, count), in strictly
/// ascending value order, each pair counting the members of one
/// quantization class. The counts are exact as long as fewer than
/// `u64::MAX` values were recorded (beyond that the store saturates).
#[verifier::opaque]
pub open spec fn pairs_wf(s: Seq<(u64, u64)>, m: Multiset<u64>) -> bool {
    &&& forall|i: int, j: int|
        0 <= i < j < s.len() ==> #[trigger] s[i].0 < #[trigger] s[j].0
    &&& forall|i: int| 0 <= i < s.len() ==> #[trigger] s[i].1 >= 1
    &&& sum_counts(s) <= m.len()
    &&& m.len() <= u64::MAX ==> sum_counts(s) == m.len()
    &&& forall|i: int|
        #![trigger s[i]]
        0 <= i < s.len() ==> exists|x: u64|
            #![trigger hist_equiv(x)]
            m.count(x) > 0 && s[i].0 == hist_equiv(x)
    &&& forall|x: u64|
        #![trigger hist_equiv(x)]
        m.count(x) > 0 ==> exists|i: int| #![trigger s[i]] 0 <= i < s.len() && s[i].0 == hist_equiv(x)
    &&& m.len() <= u64::MAX ==> forall|i: int|
        #![trigger s[i]]
        0 <= i < s.len() ==> s[i].1 == m.filter(|x: u64| hist_equiv(x) == s[i].0).len()
}

/// Relies on `hdrhistogram::Histogram::new` with three significant digits:
/// a fresh auto-resizing histogram holds no values. Creation with a
/// significant-figure count of three cannot fail.
#[verifier::external_body]
pub(crate) fn new_histogram() -> (h: DurationHistogram)
    ensures
        hist_contents(h) == Multiset::<u64>::empty(),
{
    DurationHistogram { inner: hdrhistogram::Histogram::new(3).unwrap() }
}

/// Relies on `hdrhistogram::Histogram::record`: with auto-resize on, a
/// value no greater than `HIST_MAX_RECORDABLE` is always accepted, and one
/// more sample (quantized to its equivalence class) is stored.
#[verifier::external_body]
pub(crate) fn hist_record(h: &mut DurationHistogram, value: u64)
    requires
        value <= HIST_MAX_RECORDABLE,
    ensures
        hist_contents(*final(h)) == hist_contents(*old(h)).insert(value),
{
    let _ = h.inner.record(value);
}

/// Relies on `hdrhistogram::Histogram::reset`: afterwards the histogram
/// holds no values.
#[verifier::external_body]
pub(crate) fn hist_reset(h: &mut DurationHistogram)
    ensures
        hist_contents(*final(h)) == Multiset::<u64>::empty(),
{
    h.inner.reset();
}

/// Relies on `hdrhistogram::Histogram::iter_recorded`: one entry per
/// non-empty quantization class, ascending, carrying the class
/// representative and its count.
#[verifier::external_body]
pub(crate) fn hist_recorded_pairs(h: &DurationHistogram) -> (r: Vec<(u64, u64)>)
    ensures
        pairs_wf(r@, hist_contents(*h)),
        forall|x: u64|
            #![trigger hist_equiv(x)]
            hist_contents(*h).count(x) > 0 ==> exists|i: int|
                #![trigger r@[i]]
                0 <= i < r@.len() && r@[i].0 == hist_equiv(x),
{
    h.inner.iter_recorded().map(|iv| (iv.value_iterated_to(), iv.count_at_value())).collect()
}

/// The directly useful parts of [`pairs_wf`]: values strictly ascend,
/// counts are positive, and the counts sum to the contents' size (up to
/// saturation).
pub proof fn lemma_pairs_wf_parts(s: Seq<(u64, u64)>, m: Multiset<u64>)
    requires
        pairs_wf(s, m),
    ensures
        forall|i: int, j: int| 0 <= i < j < s.len() ==> #[trigger] s[i].0 < #[trigger] s[j].0,
        forall|i: int| 0 <= i < s.len() ==> #[trigger] s[i].1 >= 1,
        sum_counts(s) <= m.len(),
        m.len() <= u64::MAX ==> sum_counts(s) == m.len(),
{
    reveal(pairs_wf);
}

/// Total count across a pair sequence.
pub open spec fn sum_counts(s: Seq<(u64, u64)>) -> int
    decreases s.len(),
{
    if s.len() == 0 {
        0
    } else {
        sum_counts(s.drop_last()) + s.last().1
    }
}

/// The index of the first pair at which the cumulative count reaches
/// `target` (callers guarantee one exists).
pub open spec fn quantile_idx(s: Seq<(u64, u64)>, target: int) -> int
    decreases s.len(),
{
    if s.len() == 0 {
        0
    } else if s[0].1 >= target {
        0
    } else {
        1 + quantile_idx(s.subrange(1, s.len() as int), target - s[0].1)
    }
}

/// The cumulative-count target for the `q`-permille quantile: the number
/// of samples that must lie at or below the answer (at least one).
pub open spec fn quantile_target(q: int, total: int) -> int {
    let t = (q * total + 999) / 1000;
    if t < 1 {
        1
    } else {
        t
    }
}

/// The `q`-permille quantile of the distribution a pair sequence
/// describes: the smallest representative value such that at least
/// `ceil(q * total / 1000)` samples lie at or below it. Zero when there
/// are no samples; if the total count overflows a `u64` (which the
/// accumulator cannot reach), the largest representative.
pub open spec fn pairs_quantile(s: Seq<(u64, u64)>, q: int) -> u64 {
    let total = sum_counts(s);
    if total == 0 {
        0
    } else if total > u64::MAX {
        s.last().0
    } else {
        s[quantile_idx(s, quantile_target(q, total))].0
    }
}

/// Cumulative count of the first `k` pairs.
pub open spec fn prefix_count(s: Seq<(u64, u64)>, k: int) -> int {
    sum_counts(s.take(k))
}

/// `k` is the first index at which the cumulative count reaches `target`.
pub open spec fn is_first_reaching(s: Seq<(u64, u64)>, target: int, k: int) -> bool {
    &&& 0 <= k < s.len()
    &&& prefix_count(s, k + 1) >= target
    &&& forall|j: int| 1 <= j <= k ==> #[trigger] prefix_count(s, j) < target
}

proof fn lemma_sum_counts_take_succ(s: Seq<(u64, u64)>, k: int)
    requires
        0 <= k < s.len(),
    ensures
        sum_counts(s.take(k + 1)) == sum_counts(s.take(k)) + s[k].1,
{
    assert(s.take(k + 1).drop_last() =~= s.take(k));
    assert(s.take(k + 1).last() == s[k]);
}

/// A sum of counts is never negative.
pub proof fn lemma_sum_counts_nonneg(s: Seq<(u64, u64)>)
    ensures
        sum_counts(s) >= 0,
    decreases s.len(),
{
    if s.len() > 0 {
        lemma_sum_counts_nonneg(s.drop_last());
    }
}

proof fn lemma_prefix_count_mono(s: Seq<(u64, u64)>, a: int, b: int)
    requires
        0 <= a <= b <= s.len(),
    ensures
        prefix_count(s, a) <= prefix_count(s, b),
    decreases b - a,
{
    if a < b {
        lemma_prefix_count_mono(s, a, b - 1);
        lemma_sum_counts_take_succ(s, b - 1);
    }
}

/// The recursive first-reaching index is indeed the first index at which
/// the cumulative count reaches the target.
proof fn lemma_quantile_idx_first(s: Seq<(u64, u64)>, target: int)
    requires
        1 <= target <= sum_counts(s),
    ensures
        is_first_reaching(s, target, quantile_idx(s, target)),
    decreases s.len(),
{
    assert(s.take(s.len() as int) =~= s);
    if s.len() == 0 {
        // contradiction: sum_counts(s) == 0 < target
    } else if s[0].1 >= target {
        assert(s.take(1) =~= seq![s[0]]);
        assert(sum_counts(s.take(1).drop_last()) == 0) by {
            assert(s.take(1).drop_last() =~= Seq::<(u64, u64)>::empty());
        }
        assert(prefix_count(s, 1) == s[0].1);
    } else {
        let rest = s.subrange(1, s.len() as int);
        assert(sum_counts(s) == prefix_count(s, s.len() as int));
        // sum over s equals s[0].1 plus sum over rest
        lemma_sum_split_first(s);
        lemma_quantile_idx_first(rest, target - s[0].1);
        let k = quantile_idx(rest, target - s[0].1);
        assert(is_first_reaching(s, target, k + 1)) by {
            assert(prefix_count(s, k + 1 + 1) == s[0].1 + prefix_count(rest, k + 1)) by {
                lemma_prefix_shift(s, k + 1);
            }
            assert forall|j: int| 1 <= j <= k + 1 implies #[trigger] prefix_count(s, j) < target by {
                if j == 1 {
                    assert(s.take(1) =~= seq![s[0]]);
                    assert(sum_counts(s.take(1).drop_last()) == 0) by {
                        assert(s.take(1).drop_last() =~= Seq::<(u64, u64)>::empty());
                    }
                    assert(prefix_count(s, 1) == s[0].1);
                } else {
                    lemma_prefix_shift(s, j - 1);
                    assert(prefix_count(s, j) == s[0].1 + prefix_count(rest, j - 1));
                    assert(prefix_count(rest, j - 1) < target - s[0].1);
                }
            }
        }
    }
}

proof fn lemma_sum_split_first(s: Seq<(u64, u64)>)
    requires
        s.len() > 0,
    ensures
        sum_counts(s) == s[0].1 + sum_counts(s.subrange(1, s.len() as int)),
    decreases s.len(),
{
    let rest = s.subrange(1, s.len() as int);
    if s.len() == 1 {
        assert(rest =~= Seq::<(u64, u64)>::empty());
        assert(s.drop_last() =~= Seq::<(u64, u64)>::empty());
    } else {
        lemma_sum_split_first(s.drop_last());
        assert(s.drop_last().subrange(1, s.drop_last().len() as int) =~= rest.drop_last());
        assert(s.drop_last()[0] == s[0]);
        assert(rest.last() == s.last());
    }
}

/// Splitting the first pair off a prefix sum.
proof fn lemma_prefix_shift(s: Seq<(u64, u64)>, j: int)
    requires
        s.len() > 0,
        0 <= j <= s.len() - 1,
    ensures
        prefix_count(s, j + 1) == s[0].1 + prefix_count(s.subrange(1, s.len() as int), j),
{
    let rest = s.subrange(1, s.len() as int);
    assert(s.take(j + 1).subrange(1, j + 1) =~= rest.take(j));
    lemma_sum_split_first(s.take(j + 1));
}

/// The `q`-permille quantile, computed from the pairs the histogram hands
/// out. Exactly `pairs_quantile` of the pair sequence.
pub fn quantile_from_pairs(pairs: &Vec<(u64, u64)>, q: u64) -> (r: u64)
    requires
        q <= 1000,
        forall|i: int| 0 <= i < pairs@.len() ==> #[trigger] pairs@[i].1 >= 1,
    ensures
        r == pairs_quantile(pairs@, q as int),
{
    proof {
        lemma_sum_counts_nonneg(pairs@);
    }
    // total count; bail out to the largest representative as soon as it
    // exceeds what a u64 can hold, so the sum never overflows
    let mut total: u128 = 0;
    let mut i: usize = 0;
    while i < pairs.len()
        invariant
            0 <= i <= pairs@.len(),
            total == prefix_count(pairs@, i as int),
            total <= u64::MAX,
        decreases pairs@.len() - i,
    {
        proof {
            lemma_sum_counts_take_succ(pairs@, i as int);
        }
        total = total + pairs[i].1 as u128;
        if total > u64::MAX as u128 {
            proof {
                lemma_prefix_count_mono(pairs@, i as int + 1, pairs@.len() as int);
                assert(pairs@.take(pairs@.len() as int) =~= pairs@);
                assert(sum_counts(pairs@) > u64::MAX);
            }
            return pairs[pairs.len() - 1].0;
        }
        i = i + 1;
    }
    proof {
        assert(pairs@.take(pairs@.len() as int) =~= pairs@);
    }
    if total == 0 {
        return 0;
    }
    proof {
        assert(q as u128 * total <= 1000 * total) by (nonlinear_arith)
            requires
                q <= 1000,
                total >= 0,
        ;
    }
    let target: u128 = {
        let t = (q as u128 * total + 999) / 1000;
        if t < 1 {
            1
        } else {
            t
        }
    };
    proof {
        assert(target == quantile_target(q as int, sum_counts(pairs@)));
        lemma_quantile_target_le_total(q as int, sum_counts(pairs@));
        lemma_quantile_idx_first(pairs@, target as int);
    }
    let ghost k = quantile_idx(pairs@, quantile_target(q as int, sum_counts(pairs@)));
    let n = pairs.len();
    let mut cum: u128 = 0;
    let mut j: usize = 0;
    loop
        invariant
            n == pairs@.len(),
            0 <= j <= pairs@.len(),
            cum == prefix_count(pairs@, j as int),
            total == sum_counts(pairs@),
            1 <= total <= u64::MAX,
            target == quantile_target(q as int, sum_counts(pairs@)),
            k == quantile_idx(pairs@, target as int),
            is_first_reaching(pairs@, target as int, k),
            j <= k,
        decreases pairs@.len() - j,
    {
        proof {
            lemma_sum_counts_take_succ(pairs@, j as int);
            lemma_prefix_count_mono(pairs@, j as int + 1, pairs@.len() as int);
            assert(pairs@.take(pairs@.len() as int) =~= pairs@);
        }
        let c = pairs[j].1;
        if cum + c as u128 >= target {
            proof {
                assert(prefix_count(pairs@, j as int + 1) >= target);
                assert(j == k) by {
                    if (j as int) < k {
                        assert(prefix_count(pairs@, j as int + 1) < target);
                    }
                }
            }
            return pairs[j].0;
        }
        cum = cum + c as u128;
        j = j + 1;
        proof {
            if j as int == k + 1 {
                assert(prefix_count(pairs@, k + 1) >= target as int);
                assert(false);
            }
        }
    }
}

/// LAW: quantiles are monotone in the requested rank — for one pair
/// sequence, a lower permille never yields a larger value.
pub proof fn lemma_pairs_quantile_monotone(s: Seq<(u64, u64)>, q1: int, q2: int)
    requires
        0 <= q1 <= q2 <= 1000,
        forall|i: int, j: int| 0 <= i < j < s.len() ==> s[i].0 < s[j].0,
        forall|i: int| 0 <= i < s.len() ==> s[i].1 >= 1,
    ensures
        pairs_quantile(s, q1) <= pairs_quantile(s, q2),
{
    let total = sum_counts(s);
    lemma_sum_counts_nonneg(s);
    if total == 0 || total > u64::MAX {
    } else {
        let t1 = quantile_target(q1, total);
        let t2 = quantile_target(q2, total);
        assert(q1 * total <= q2 * total) by (nonlinear_arith)
            requires
                0 <= q1 <= q2,
                total >= 0,
        ;
        assert((q1 * total + 999) / 1000 <= (q2 * total + 999) / 1000) by (nonlinear_arith)
            requires
                q1 * total <= q2 * total,
        ;
        lemma_quantile_target_le_total(q1, total);
        lemma_quantile_target_le_total(q2, total);
        lemma_quantile_idx_first(s, t1);
        lemma_quantile_idx_first(s, t2);
        let k1 = quantile_idx(s, t1);
        let k2 = quantile_idx(s, t2);
        if k2 < k1 {
            assert(prefix_count(s, k2 + 1) >= t2);
            assert(prefix_count(s, k2 + 1) < t1);
        }
        if k1 < k2 {
            assert(s[k1].0 < s[k2].0);
        }
    }
}

/// The quantile target lies between one and the total count whenever the
/// permille is in range.
proof fn lemma_quantile_target_le_total(q: int, total: int)
    requires
        0 <= q <= 1000,
        total >= 1,
    ensures
        1 <= quantile_target(q, total) <= total,
{
    let t = (q * total + 999) / 1000;
    assert(q * total <= 1000 * total) by (nonlinear_arith)
        requires
            0 <= q <= 1000,
            total >= 0,
    ;
    assert(q * total >= 0) by (nonlinear_arith)
        requires
            q >= 0,
            total >= 0,
    ;
    assert(t <= (1000 * total + 999) / 1000) by (nonlinear_arith)
        requires
            q * total <= 1000 * total,
            t == (q * total + 999) / 1000,
    ;
    assert((1000 * total + 999) / 1000 == total) by (nonlinear_arith)
        requires
            total >= 1,
    ;
}

/// LAW: a quantile of a non-empty distribution is one of the recorded
/// representatives; of an empty one it is zero.
pub proof fn lemma_pairs_quantile_in_values(s: Seq<(u64, u64)>, q: int)
    requires
        0 <= q <= 1000,
        forall|i: int| 0 <= i < s.len() ==> s[i].1 >= 1,
    ensures
        sum_counts(s) == 0 ==> pairs_quantile(s, q) == 0,
        sum_counts(s) > 0 ==> exists|i: int|
            0 <= i < s.len() && pairs_quantile(s, q) == s[i].0,
{
    let total = sum_counts(s);
    lemma_sum_counts_nonneg(s);
    if total > 0 {
        assert(s.len() > 0);
        if total > u64::MAX {
            assert(pairs_quantile(s, q) == s[s.len() - 1].0);
        } else {
            let t = quantile_target(q, total);
            lemma_quantile_target_le_total(q, total);
            lemma_quantile_idx_first(s, t);
            let k = quantile_idx(s, t);
            assert(pairs_quantile(s, q) == s[k].0);
        }
    }
}

} // verus!
