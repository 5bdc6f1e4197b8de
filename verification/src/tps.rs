//! From a series of block records to the median throughput.
//!
//! Records without a timestamp are left out first. Each remaining record but the first
//! then gives one sample with the record before it, and the median is taken over the
//! samples in ascending order of throughput.

use crate::rate::{lemma_le_transitive, lemma_mean_respects_same, Rate};
use crate::record::BlockRecord;
use crate::sample::{lemma_rate_wf, TpsSample};
use vstd::prelude::*;

verus! {

/// The middle of a list of samples in ascending order.
#[derive(Clone, Copy, Debug, PartialEq, Eq, Structural)]
pub enum Median {
    /// The central sample of an odd number of samples.
    Middle(TpsSample),
    /// The two central samples of an even number of samples, lower first; the median is
    /// the mean of their throughputs.
    Between(TpsSample, TpsSample),
}

impl Median {
    /// The median throughput.
    pub open spec fn value(self) -> Rate {
        match self {
            Median::Middle(sample) => sample.rate(),
            Median::Between(lower, upper) => lower.rate().mean(upper.rate()),
        }
    }
}

/// What the aggregation of a series ends in.
#[derive(Clone, Copy, Debug, PartialEq, Eq, Structural)]
pub enum TpsOutcome {
    Median(Median),
    /// There was no sample to take a median of.
    InsufficientData,
}

impl TpsOutcome {
    /// Both are without data, or both hold the same median throughput.
    pub open spec fn same_value(self, other: TpsOutcome) -> bool {
        match (self, other) {
            (TpsOutcome::InsufficientData, TpsOutcome::InsufficientData) => true,
            (TpsOutcome::Median(a), TpsOutcome::Median(b)) => a.value().same(b.value()),
            _ => false,
        }
    }
}

/// The record carries a timestamp.
pub open spec fn has_timestamp(record: BlockRecord) -> bool {
    record.timestamp is Some
}

/// The records of `series` that carry a timestamp, in the order of `series`.
pub open spec fn usable(series: Seq<BlockRecord>) -> Seq<BlockRecord> {
    series.filter(|record: BlockRecord| has_timestamp(record))
}

/// The sample that a timestamped record makes with the timestamped record before it.
pub open spec fn sample_between(earlier: BlockRecord, later: BlockRecord) -> TpsSample {
    TpsSample {
        tx_count: later.tx_count,
        from_ms: earlier.timestamp.unwrap(),
        to_ms: later.timestamp.unwrap(),
    }
}

/// One sample for each pair of neighbours in `records`.
pub open spec fn intervals(records: Seq<BlockRecord>) -> Seq<TpsSample> {
    Seq::new(
        if records.len() == 0 {
            0
        } else {
            (records.len() - 1) as nat
        },
        |i: int| sample_between(records[i], records[i + 1]),
    )
}

/// The samples of a series: the intervals between its timestamped records.
pub open spec fn samples_of(series: Seq<BlockRecord>) -> Seq<TpsSample> {
    intervals(usable(series))
}

/// Throughput never decreases along `samples`.
pub open spec fn ascending(samples: Seq<TpsSample>) -> bool {
    forall|i: int, j: int|
        0 <= i <= j < samples.len() ==> (#[trigger] samples[i]).rate().le(
            (#[trigger] samples[j]).rate(),
        )
}

/// The middle of `sorted`, which is taken to be in ascending order.
pub open spec fn middle_of(sorted: Seq<TpsSample>) -> TpsOutcome {
    let n = sorted.len() as int;
    if n == 0 {
        TpsOutcome::InsufficientData
    } else if n % 2 == 1 {
        TpsOutcome::Median(Median::Middle(sorted[n / 2]))
    } else {
        TpsOutcome::Median(Median::Between(sorted[n / 2 - 1], sorted[n / 2]))
    }
}

/// `outcome` is the middle of some ascending arrangement of `samples`.
pub open spec fn is_median_of(outcome: TpsOutcome, samples: Seq<TpsSample>) -> bool {
    exists|sorted: Seq<TpsSample>|
        #![trigger ascending(sorted)]
        ascending(sorted) && sorted.to_multiset() == samples.to_multiset() && outcome
            == middle_of(sorted)
}

/// The records of `series` that carry a timestamp, in order.
pub fn usable_records(series: &Vec<BlockRecord>) -> (kept: Vec<BlockRecord>)
    ensures
        kept@ == usable(series@),
{
    let mut kept: Vec<BlockRecord> = Vec::new();
    let mut i: usize = 0;
    proof {
        lemma_usable_empty();
        assert(series@.take(0) =~= Seq::<BlockRecord>::empty());
    }
    while i < series.len()
        invariant
            i <= series.len(),
            kept@ == usable(series@.take(i as int)),
        decreases series.len() - i,
    {
        let record: BlockRecord = series[i];
        proof {
            lemma_usable_push(series@.take(i as int), record);
            assert(series@.take(i as int).push(record) =~= series@.take(i as int + 1));
        }
        if record.timestamp.is_some() {
            kept.push(record);
        }
        i = i + 1;
    }
    proof {
        assert(series@.take(i as int) =~= series@);
    }
    kept
}

/// One sample for each pair of neighbours in `records`, all of which carry a timestamp.
fn interval_samples(records: &Vec<BlockRecord>) -> (samples: Vec<TpsSample>)
    requires
        forall|i: int| 0 <= i < records.len() ==> has_timestamp(#[trigger] records[i]),
    ensures
        samples@ == intervals(records@),
{
    let mut samples: Vec<TpsSample> = Vec::new();
    if records.len() == 0 {
        proof {
            assert(samples@ =~= intervals(records@));
        }
        return samples;
    }
    let mut i: usize = 1;
    while i < records.len()
        invariant
            1 <= i <= records.len(),
            samples.len() == i - 1,
            forall|k: int| 0 <= k < records.len() ==> has_timestamp(#[trigger] records[k]),
            forall|k: int|
                0 <= k < i - 1 ==> #[trigger] samples[k] == sample_between(
                    records[k],
                    records[k + 1],
                ),
        decreases records.len() - i,
    {
        let earlier: BlockRecord = records[i - 1];
        let later: BlockRecord = records[i];
        assert(has_timestamp(records[i - 1]) && has_timestamp(records[i as int]));
        match (earlier.timestamp, later.timestamp) {
            (Some(from_ms), Some(to_ms)) => {
                samples.push(TpsSample { tx_count: later.tx_count, from_ms, to_ms });
            },
            _ => {},
        }
        i = i + 1;
    }
    proof {
        assert(samples@ =~= intervals(records@));
    }
    samples
}

/// The samples of a series.
pub fn tps_samples(series: &Vec<BlockRecord>) -> (samples: Vec<TpsSample>)
    ensures
        samples@ == samples_of(series@),
{
    let kept: Vec<BlockRecord> = usable_records(series);
    proof {
        lemma_usable_all_timestamped(series@);
    }
    interval_samples(&kept)
}

/// Puts `samples` in ascending order of throughput.
pub fn sort_samples(samples: &mut Vec<TpsSample>)
    ensures
        ascending(final(samples)@),
        final(samples)@.to_multiset() == old(samples)@.to_multiset(),
{
    let n: usize = samples.len();
    let mut i: usize = 1;
    while i < n
        invariant
            samples.len() == n,
            1 <= i,
            n >= 1 ==> i <= n,
            samples@.to_multiset() == old(samples)@.to_multiset(),
            forall|p: int, q: int|
                0 <= p <= q < i && q < n ==> (#[trigger] samples@[p]).rate().le(
                    (#[trigger] samples@[q]).rate(),
                ),
        decreases n - i,
    {
        let mut j: usize = i;
        while j > 0 && !samples[j - 1].at_most(samples[j])
            invariant
                samples.len() == n,
                j <= i < n,
                samples@.to_multiset() == old(samples)@.to_multiset(),
                forall|p: int, q: int|
                    0 <= p <= q <= i && q != j ==> (#[trigger] samples@[p]).rate().le(
                        (#[trigger] samples@[q]).rate(),
                    ),
            decreases j,
        {
            let lower: TpsSample = samples[j - 1];
            let upper: TpsSample = samples[j];
            let ghost before = samples@;
            samples.set(j - 1, upper);
            samples.set(j, lower);
            proof {
                lemma_swap_keeps_multiset(before, j - 1, j as int);
                assert(samples@ =~= before.update(j - 1, upper).update(j as int, lower));
            }
            j = j - 1;
        }
        proof {
            let s = samples@;
            assert forall|p: int, q: int| 0 <= p <= q < i + 1 && q < n implies (
            #[trigger] s[p]).rate().le((#[trigger] s[q]).rate()) by {
                if q == j && p < j {
                    if p < j - 1 {
                        lemma_rate_wf(s[p]);
                        lemma_rate_wf(s[j - 1]);
                        lemma_rate_wf(s[q]);
                        lemma_le_transitive(s[p].rate(), s[j - 1].rate(), s[q].rate());
                    }
                }
            }
        }
        i = i + 1;
    }
}

/// The median of `values`, which are put in ascending order on the way.
///
/// No sample at all gives [`TpsOutcome::InsufficientData`].
pub fn median(values: &mut Vec<TpsSample>) -> (outcome: TpsOutcome)
    ensures
        ascending(final(values)@),
        final(values)@.to_multiset() == old(values)@.to_multiset(),
        final(values)@.len() == old(values)@.len(),
        outcome == middle_of(final(values)@),
        is_median_of(outcome, old(values)@),
{
    sort_samples(values);
    proof {
        vstd::seq_lib::to_multiset_len(old(values)@);
        vstd::seq_lib::to_multiset_len(values@);
    }
    let n: usize = values.len();
    let mid: usize = n / 2;
    if n == 0 {
        TpsOutcome::InsufficientData
    } else if n % 2 == 0 {
        TpsOutcome::Median(Median::Between(values[mid - 1], values[mid]))
    } else {
        TpsOutcome::Median(Median::Middle(values[mid]))
    }
}

/// The median throughput of a series.
///
/// Fewer than two records with a timestamp give [`TpsOutcome::InsufficientData`].
pub fn compute_median_tps(series: &Vec<BlockRecord>) -> (outcome: TpsOutcome)
    ensures
        usable(series@).len() < 2 <==> outcome is InsufficientData,
        is_median_of(outcome, samples_of(series@)),
{
    let mut samples: Vec<TpsSample> = tps_samples(series);
    median(&mut samples)
}

/// Two ascending arrangements of the same samples agree in throughput, place by place.
pub proof fn lemma_ascending_agree(a: Seq<TpsSample>, b: Seq<TpsSample>)
    requires
        ascending(a),
        ascending(b),
        a.to_multiset() == b.to_multiset(),
    ensures
        a.len() == b.len(),
        forall|k: int| 0 <= k < a.len() ==> (#[trigger] a[k]).rate().same(b[k].rate()),
    decreases a.len(),
{
    vstd::seq_lib::to_multiset_len(a);
    vstd::seq_lib::to_multiset_len(b);
    if a.len() > 0 {
        let n = a.len() as int;
        let x = a[n - 1];
        let y = b[n - 1];
        vstd::seq_lib::to_multiset_contains(a, x);
        vstd::seq_lib::to_multiset_contains(b, x);
        vstd::seq_lib::to_multiset_contains(a, y);
        vstd::seq_lib::to_multiset_contains(b, y);
        assert(a.contains(x));
        assert(b.contains(y));
        let i = choose|i: int| 0 <= i < b.len() && b[i] == x;
        let j = choose|j: int| 0 <= j < a.len() && a[j] == y;
        assert(a[j].rate().le(a[n - 1].rate()));
        assert(b[i].rate().le(b[n - 1].rate()));
        assert(x.rate().same(y.rate()));
        let a_rest = a.remove(n - 1);
        let b_rest = b.remove(i);
        vstd::seq_lib::to_multiset_remove(a, n - 1);
        vstd::seq_lib::to_multiset_remove(b, i);
        assert(ascending(a_rest)) by {
            assert forall|p: int, q: int| 0 <= p <= q < a_rest.len() implies (
            #[trigger] a_rest[p]).rate().le((#[trigger] a_rest[q]).rate()) by {
                assert(a_rest[p] == a[p] && a_rest[q] == a[q]);
            }
        }
        assert(ascending(b_rest)) by {
            assert forall|p: int, q: int| 0 <= p <= q < b_rest.len() implies (
            #[trigger] b_rest[p]).rate().le((#[trigger] b_rest[q]).rate()) by {
                let from_p = if p < i { p } else { p + 1 };
                let from_q = if q < i { q } else { q + 1 };
                assert(b_rest[p] == b[from_p] && b_rest[q] == b[from_q]);
            }
        }
        lemma_ascending_agree(a_rest, b_rest);
        assert forall|k: int| 0 <= k < a.len() implies (#[trigger] a[k]).rate().same(
            b[k].rate(),
        ) by {
            if k == n - 1 {
            } else if k < i {
                assert(a_rest[k] == a[k] && b_rest[k] == b[k]);
            } else {
                assert(a_rest[k] == a[k] && b_rest[k] == b[k + 1]);
                lemma_rate_wf(a[k]);
                lemma_rate_wf(b[k]);
                lemma_rate_wf(b[k + 1]);
                lemma_rate_wf(x);
                lemma_rate_wf(y);
                // b[k + 1] <= y <= x == b[i] <= b[k] <= b[k + 1]
                assert(b[k + 1].rate().le(b[n - 1].rate()));
                assert(b[i].rate().le(b[k].rate()));
                assert(b[k].rate().le(b[k + 1].rate()));
                lemma_le_transitive(b[k + 1].rate(), y.rate(), x.rate());
                lemma_le_transitive(b[k + 1].rate(), x.rate(), b[k].rate());
                lemma_le_transitive(a[k].rate(), b[k + 1].rate(), b[k].rate());
                lemma_le_transitive(b[k].rate(), b[k + 1].rate(), a[k].rate());
            }
        }
    }
}

/// The median of a list of samples is one throughput: whichever ascending arrangement
/// it is read from, the value is the same.
pub proof fn lemma_median_unique(samples: Seq<TpsSample>, first: TpsOutcome, second: TpsOutcome)
    requires
        is_median_of(first, samples),
        is_median_of(second, samples),
    ensures
        first.same_value(second),
{
    let a = choose|sorted: Seq<TpsSample>|
        #![trigger ascending(sorted)]
        ascending(sorted) && sorted.to_multiset() == samples.to_multiset() && first == middle_of(
            sorted,
        );
    let b = choose|sorted: Seq<TpsSample>|
        #![trigger ascending(sorted)]
        ascending(sorted) && sorted.to_multiset() == samples.to_multiset() && second == middle_of(
            sorted,
        );
    lemma_ascending_agree(a, b);
    let n = a.len() as int;
    if n > 0 {
        if n % 2 == 0 {
            lemma_rate_wf(a[n / 2 - 1]);
            lemma_rate_wf(a[n / 2]);
            lemma_rate_wf(b[n / 2 - 1]);
            lemma_rate_wf(b[n / 2]);
            assert(a[n / 2 - 1].rate().same(b[n / 2 - 1].rate()));
            assert(a[n / 2].rate().same(b[n / 2].rate()));
            lemma_mean_respects_same(
                a[n / 2 - 1].rate(),
                a[n / 2].rate(),
                b[n / 2 - 1].rate(),
                b[n / 2].rate(),
            );
        } else {
            assert(a[n / 2].rate().same(b[n / 2].rate()));
        }
    }
}

/// The median of a single sample is that sample.
pub proof fn lemma_median_of_one(sample: TpsSample, outcome: TpsOutcome)
    requires
        is_median_of(outcome, seq![sample]),
    ensures
        outcome == TpsOutcome::Median(Median::Middle(sample)),
{
    let sorted = choose|sorted: Seq<TpsSample>|
        #![trigger ascending(sorted)]
        ascending(sorted) && sorted.to_multiset() == seq![sample].to_multiset() && outcome
            == middle_of(sorted);
    vstd::seq_lib::to_multiset_len(sorted);
    vstd::seq_lib::to_multiset_len(seq![sample]);
    vstd::seq_lib::to_multiset_contains(sorted, sorted[0]);
    vstd::seq_lib::to_multiset_contains(seq![sample], sorted[0]);
    assert(sorted.contains(sorted[0]));
}

/// No sample has no median.
pub proof fn lemma_median_of_none(outcome: TpsOutcome)
    requires
        is_median_of(outcome, Seq::<TpsSample>::empty()),
    ensures
        outcome == TpsOutcome::InsufficientData,
{
    let sorted = choose|sorted: Seq<TpsSample>|
        #![trigger ascending(sorted)]
        ascending(sorted) && sorted.to_multiset() == Seq::<TpsSample>::empty().to_multiset()
            && outcome == middle_of(sorted);
    vstd::seq_lib::to_multiset_len(sorted);
    vstd::seq_lib::to_multiset_len(Seq::<TpsSample>::empty());
}

/// A series has one sample fewer than it has records with a timestamp.
pub proof fn lemma_sample_count(series: Seq<BlockRecord>)
    ensures
        samples_of(series).len() == if usable(series).len() == 0 {
            0
        } else {
            usable(series).len() - 1
        },
{
}

/// Giving a timestamp to a record that had none adds one usable record.
pub proof fn lemma_filled_gap_is_usable(series: Seq<BlockRecord>, gap: int, filled: BlockRecord)
    requires
        0 <= gap < series.len(),
        !has_timestamp(series[gap]),
        has_timestamp(filled),
    ensures
        usable(series.update(gap, filled)).len() == usable(series).len() + 1,
    decreases series.len(),
{
    let front = series.drop_last();
    let last = series.last();
    assert(series =~= front.push(last));
    lemma_usable_push(front, last);
    if gap == series.len() - 1 {
        assert(series.update(gap, filled) =~= front.push(filled));
        lemma_usable_push(front, filled);
    } else {
        assert(series.update(gap, filled) =~= front.update(gap, filled).push(last));
        lemma_usable_push(front.update(gap, filled), last);
        lemma_filled_gap_is_usable(front, gap, filled);
    }
}

/// A record without a timestamp costs exactly one sample: beside at least one record
/// that has a timestamp, the series yields one sample fewer than it would if the
/// record had any timestamp at all.
pub proof fn lemma_gap_costs_one_sample(series: Seq<BlockRecord>, gap: int, timestamp: u64)
    requires
        0 <= gap < series.len(),
        series[gap].timestamp is None,
        usable(series).len() >= 1,
    ensures
        samples_of(series).len() + 1 == samples_of(
            series.update(gap, series[gap].with_timestamp(timestamp)),
        ).len(),
{
    lemma_filled_gap_is_usable(series, gap, series[gap].with_timestamp(timestamp));
}

/// No record, no usable record.
proof fn lemma_usable_empty()
    ensures
        usable(Seq::<BlockRecord>::empty()) == Seq::<BlockRecord>::empty(),
{
    reveal(Seq::filter);
}

/// A record appended to a series is appended to its usable records if it carries a
/// timestamp, and changes nothing otherwise.
proof fn lemma_usable_push(series: Seq<BlockRecord>, record: BlockRecord)
    ensures
        usable(series.push(record)) == if has_timestamp(record) {
            usable(series).push(record)
        } else {
            usable(series)
        },
{
    reveal(Seq::filter);
    assert(series.push(record).drop_last() =~= series);
}

/// Every usable record carries a timestamp.
proof fn lemma_usable_all_timestamped(series: Seq<BlockRecord>)
    ensures
        forall|i: int|
            0 <= i < usable(series).len() ==> has_timestamp(#[trigger] usable(series)[i]),
{
    let pred = |record: BlockRecord| has_timestamp(record);
    assert forall|i: int| 0 <= i < usable(series).len() implies has_timestamp(
        #[trigger] usable(series)[i],
    ) by {
        series.lemma_filter_pred(pred, i);
    }
}

/// Exchanging two entries of a sequence keeps what it holds.
proof fn lemma_swap_keeps_multiset(s: Seq<TpsSample>, i: int, j: int)
    requires
        0 <= i < s.len(),
        0 <= j < s.len(),
    ensures
        s.update(i, s[j]).update(j, s[i]).to_multiset() == s.to_multiset(),
{
    broadcast use vstd::multiset::group_multiset_axioms;

    let t = s.update(i, s[j]);
    vstd::seq_lib::to_multiset_update(s, i, s[j]);
    vstd::seq_lib::to_multiset_update(t, j, s[i]);
    vstd::seq_lib::to_multiset_contains(s, s[i]);
    vstd::seq_lib::to_multiset_contains(s, s[j]);
    assert(s.contains(s[i]));
    assert(s.contains(s[j]));
    assert(t.update(j, s[i]).to_multiset() =~= s.to_multiset());
}

} // verus!
