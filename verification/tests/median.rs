use block_tps::record::BlockRecord;
use block_tps::sample::TpsSample;
use block_tps::tps::{
    compute_median_tps, median, sort_samples, tps_samples, usable_records, Median, TpsOutcome,
};

/// A sample of `tps` transactions per second: `tps` transactions in one second.
fn per_second(tps: u64) -> TpsSample {
    TpsSample::new(tps, 5_000, 6_000)
}

fn as_float(sample: TpsSample) -> f64 {
    if sample.is_unbounded() {
        f64::INFINITY
    } else {
        sample.tx_count as f64 / (sample.elapsed_ms() as f64 / 1000.0)
    }
}

fn median_as_float(outcome: TpsOutcome) -> Option<f64> {
    match outcome {
        TpsOutcome::InsufficientData => None,
        TpsOutcome::Median(Median::Middle(sample)) => Some(as_float(sample)),
        TpsOutcome::Median(Median::Between(lower, upper)) => {
            Some((as_float(lower) + as_float(upper)) / 2.0)
        }
    }
}

fn record(height: u64, timestamp: Option<u64>, tx_count: u64) -> BlockRecord {
    BlockRecord::new(height, [height as u8; 32], timestamp, tx_count)
}

#[test]
fn median_of_three_samples_is_the_central_one() {
    let mut samples = vec![per_second(1), per_second(2), per_second(3)];
    let outcome = median(&mut samples);
    assert_eq!(outcome, TpsOutcome::Median(Median::Middle(per_second(2))));
    assert_eq!(median_as_float(outcome), Some(2.0));
}

#[test]
fn median_of_four_samples_is_the_mean_of_the_central_two() {
    let mut samples = vec![per_second(1), per_second(2), per_second(3), per_second(4)];
    let outcome = median(&mut samples);
    assert_eq!(
        outcome,
        TpsOutcome::Median(Median::Between(per_second(2), per_second(3)))
    );
    assert_eq!(median_as_float(outcome), Some(2.5));
}

#[test]
fn median_of_a_single_sample_is_that_sample() {
    let mut samples = vec![per_second(7)];
    let outcome = median(&mut samples);
    assert_eq!(outcome, TpsOutcome::Median(Median::Middle(per_second(7))));
    assert_eq!(median_as_float(outcome), Some(7.0));
}

#[test]
fn median_of_no_sample_is_insufficient_data() {
    let mut samples: Vec<TpsSample> = Vec::new();
    assert_eq!(median(&mut samples), TpsOutcome::InsufficientData);
    assert!(samples.is_empty());
}

#[test]
fn median_does_not_depend_on_the_order_of_the_samples() {
    let mut shuffled = vec![per_second(3), per_second(1), per_second(4), per_second(2)];
    let outcome = median(&mut shuffled);
    assert_eq!(
        outcome,
        TpsOutcome::Median(Median::Between(per_second(2), per_second(3)))
    );
    let mut odd = vec![per_second(9), per_second(1), per_second(5)];
    assert_eq!(
        median(&mut odd),
        TpsOutcome::Median(Median::Middle(per_second(5)))
    );
}

#[test]
fn median_leaves_the_samples_in_ascending_order() {
    let mut samples = vec![
        per_second(30),
        per_second(10),
        per_second(20),
        per_second(10),
        per_second(5),
    ];
    median(&mut samples);
    assert_eq!(
        samples,
        vec![
            per_second(5),
            per_second(10),
            per_second(10),
            per_second(20),
            per_second(30)
        ]
    );
}

#[test]
fn sort_orders_by_throughput_not_by_count() {
    // 100 transactions in 10 s is 10 per second; 30 in 1 s is 30 per second.
    let slow = TpsSample::new(100, 0, 10_000);
    let fast = TpsSample::new(30, 10_000, 11_000);
    let middle = TpsSample::new(40, 11_000, 13_000);
    let mut samples = vec![fast, slow, middle];
    sort_samples(&mut samples);
    assert_eq!(samples, vec![slow, middle, fast]);
    assert_eq!(as_float(slow), 10.0);
    assert_eq!(as_float(middle), 20.0);
    assert_eq!(as_float(fast), 30.0);
}

#[test]
fn sort_keeps_every_sample() {
    let mut samples = vec![
        TpsSample::new(3, 0, 7),
        TpsSample::new(3, 0, 7),
        TpsSample::new(0, 9, 9),
        TpsSample::new(8, 5, 2),
        TpsSample::new(1, 1, 2),
    ];
    let mut expected = samples.clone();
    sort_samples(&mut samples);
    assert_eq!(samples.len(), 5);
    for sample in samples.iter() {
        let at = expected.iter().position(|other| other == sample);
        assert!(at.is_some());
        expected.remove(at.unwrap());
    }
    assert!(expected.is_empty());
    for pair in samples.windows(2) {
        assert!(pair[0].at_most(pair[1]));
    }
}

#[test]
fn four_blocks_one_second_apart() {
    let series = vec![
        record(1, Some(1_000), 10),
        record(2, Some(2_000), 20),
        record(3, Some(3_000), 30),
        record(4, Some(4_000), 15),
    ];
    let samples = tps_samples(&series);
    assert_eq!(
        samples,
        vec![
            TpsSample::new(20, 1_000, 2_000),
            TpsSample::new(30, 2_000, 3_000),
            TpsSample::new(15, 3_000, 4_000),
        ]
    );
    let rates: Vec<f64> = samples.iter().map(|sample| as_float(*sample)).collect();
    assert_eq!(rates, vec![20.0, 30.0, 15.0]);
    let outcome = compute_median_tps(&series);
    assert_eq!(
        outcome,
        TpsOutcome::Median(Median::Middle(TpsSample::new(20, 1_000, 2_000)))
    );
    assert_eq!(median_as_float(outcome), Some(20.0));
}

#[test]
fn a_record_without_timestamp_is_bridged() {
    let t: u64 = 1_700_000_000_000;
    let series = vec![
        record(10, Some(t), 5),
        record(11, None, 7),
        record(12, Some(t + 2_000), 9),
        record(13, Some(t + 4_000), 11),
    ];
    assert_eq!(
        usable_records(&series),
        vec![series[0], series[2], series[3]]
    );
    let samples = tps_samples(&series);
    assert_eq!(
        samples,
        vec![
            TpsSample::new(9, t, t + 2_000),
            TpsSample::new(11, t + 2_000, t + 4_000),
        ]
    );
    assert_eq!(as_float(samples[0]), 4.5);
    assert_eq!(as_float(samples[1]), 5.5);
    assert_eq!(median_as_float(compute_median_tps(&series)), Some(5.0));
}

#[test]
fn a_record_without_timestamp_costs_one_sample() {
    let t: u64 = 1_700_000_000_000;
    let with_gap = vec![
        record(10, Some(t), 5),
        record(11, None, 7),
        record(12, Some(t + 2_000), 9),
        record(13, Some(t + 4_000), 11),
    ];
    let mut filled = with_gap.clone();
    filled[1].timestamp = Some(t + 1_000);
    assert_eq!(tps_samples(&filled).len(), 3);
    assert_eq!(tps_samples(&with_gap).len(), 2);
    assert_eq!(
        tps_samples(&filled),
        vec![
            TpsSample::new(7, t, t + 1_000),
            TpsSample::new(9, t + 1_000, t + 2_000),
            TpsSample::new(11, t + 2_000, t + 4_000),
        ]
    );
}

#[test]
fn fewer_than_two_timestamps_are_insufficient() {
    let empty: Vec<BlockRecord> = Vec::new();
    assert_eq!(compute_median_tps(&empty), TpsOutcome::InsufficientData);
    let one = vec![record(1, Some(1_000), 10)];
    assert_eq!(compute_median_tps(&one), TpsOutcome::InsufficientData);
    let one_usable = vec![
        record(1, None, 10),
        record(2, Some(2_000), 10),
        record(3, None, 10),
    ];
    assert_eq!(compute_median_tps(&one_usable), TpsOutcome::InsufficientData);
    let none_usable = vec![record(1, None, 10), record(2, None, 10)];
    assert_eq!(compute_median_tps(&none_usable), TpsOutcome::InsufficientData);
    assert!(tps_samples(&one_usable).is_empty());
}

#[test]
fn two_timestamps_are_enough() {
    let series = vec![record(1, Some(1_000), 4), record(2, Some(3_000), 6)];
    let outcome = compute_median_tps(&series);
    assert_eq!(
        outcome,
        TpsOutcome::Median(Median::Middle(TpsSample::new(6, 1_000, 3_000)))
    );
    assert_eq!(median_as_float(outcome), Some(3.0));
}

#[test]
fn blocks_sharing_a_timestamp_give_an_unbounded_sample() {
    let series = vec![record(1, Some(1_000), 3), record(2, Some(1_000), 5)];
    let samples = tps_samples(&series);
    assert_eq!(samples, vec![TpsSample::new(5, 1_000, 1_000)]);
    assert!(samples[0].is_unbounded());
    assert_eq!(samples[0].elapsed_ms(), 0);
    let outcome = compute_median_tps(&series);
    assert_eq!(
        outcome,
        TpsOutcome::Median(Median::Middle(TpsSample::new(5, 1_000, 1_000)))
    );
    assert_eq!(median_as_float(outcome), Some(f64::INFINITY));
}

#[test]
fn an_unbounded_sample_sorts_above_every_finite_one() {
    let unbounded = TpsSample::new(5, 1_000, 1_000);
    let empty_unbounded = TpsSample::new(0, 7, 7);
    let huge = TpsSample::new(u64::MAX, 0, 1);
    let finite = TpsSample::new(5, 1_000, 2_000);
    assert!(finite.at_most(unbounded));
    assert!(huge.at_most(unbounded));
    assert!(huge.at_most(empty_unbounded));
    assert!(!unbounded.at_most(finite));
    assert!(!empty_unbounded.at_most(huge));
    assert!(unbounded.at_most(empty_unbounded));
    assert!(empty_unbounded.at_most(unbounded));
    let mut samples = vec![unbounded, huge, finite];
    assert_eq!(
        median(&mut samples),
        TpsOutcome::Median(Median::Middle(huge))
    );
    assert_eq!(samples, vec![finite, huge, unbounded]);
}

#[test]
fn an_unbounded_central_sample_makes_the_median_unbounded() {
    let series = vec![
        record(1, Some(1_000), 1),
        record(2, Some(2_000), 4),
        record(3, Some(2_000), 5),
    ];
    let outcome = compute_median_tps(&series);
    assert_eq!(
        outcome,
        TpsOutcome::Median(Median::Between(
            TpsSample::new(4, 1_000, 2_000),
            TpsSample::new(5, 2_000, 2_000)
        ))
    );
    assert_eq!(median_as_float(outcome), Some(f64::INFINITY));
}

#[test]
fn comparison_is_exact_where_floats_would_round() {
    // 2^63 + 1 and 2^63 transactions over the same time differ by one part in 2^63.
    let more = TpsSample::new((1 << 63) + 1, 0, 3);
    let less = TpsSample::new(1 << 63, 0, 3);
    assert!(less.at_most(more));
    assert!(!more.at_most(less));
    // The largest values on both sides do not overflow.
    let a = TpsSample::new(u64::MAX, 0, u64::MAX);
    let b = TpsSample::new(u64::MAX - 1, 0, u64::MAX);
    assert!(b.at_most(a));
    assert!(!a.at_most(b));
    assert!(a.at_most(a));
}

#[test]
fn equal_throughputs_compare_both_ways() {
    let a = TpsSample::new(10, 0, 1_000);
    let b = TpsSample::new(20, 500, 2_500);
    assert!(a.at_most(b));
    assert!(b.at_most(a));
}

#[test]
fn a_clock_that_went_backwards_gives_a_negative_throughput() {
    let backwards = TpsSample::new(10, 2_000, 1_000);
    let more_backwards = TpsSample::new(30, 2_000, 1_000);
    let idle = TpsSample::new(0, 0, 1_000);
    let idle_backwards = TpsSample::new(0, 1_000, 0);
    let forwards = TpsSample::new(1, 0, 1_000);
    assert_eq!(backwards.elapsed_ms(), -1_000);
    assert_eq!(as_float(backwards), -10.0);
    assert!(backwards.at_most(forwards));
    assert!(!forwards.at_most(backwards));
    assert!(backwards.at_most(idle));
    assert!(!idle.at_most(backwards));
    assert!(more_backwards.at_most(backwards));
    assert!(!backwards.at_most(more_backwards));
    assert!(idle.at_most(idle_backwards));
    assert!(idle_backwards.at_most(idle));
    let mut samples = vec![forwards, backwards, idle, more_backwards];
    sort_samples(&mut samples);
    assert_eq!(samples, vec![more_backwards, backwards, idle, forwards]);
}

#[test]
fn elapsed_time_spans_the_whole_range() {
    assert_eq!(
        TpsSample::new(1, 0, u64::MAX).elapsed_ms(),
        u64::MAX as i128
    );
    assert_eq!(
        TpsSample::new(1, u64::MAX, 0).elapsed_ms(),
        -(u64::MAX as i128)
    );
    assert_eq!(TpsSample::new(1, 250, 1_000).elapsed_ms(), 750);
}

#[test]
fn usable_records_keep_their_order() {
    let series = vec![
        record(5, None, 1),
        record(6, Some(60), 2),
        record(7, None, 3),
        record(8, Some(80), 4),
        record(9, Some(90), 5),
        record(10, None, 6),
    ];
    assert_eq!(
        usable_records(&series),
        vec![series[1], series[3], series[4]]
    );
    let empty: Vec<BlockRecord> = Vec::new();
    assert!(usable_records(&empty).is_empty());
}

/// A fixed sequence of scattered numbers.
fn scattered(seed: u64, count: usize) -> Vec<u64> {
    let mut state = seed;
    let mut numbers = Vec::new();
    for _ in 0..count {
        state ^= state << 13;
        state ^= state >> 7;
        state ^= state << 17;
        numbers.push(state);
    }
    numbers
}

/// The median as the floating-point routine computes it: sort, then take the middle.
fn float_median(values: &mut [f64]) -> f64 {
    values.sort_by(|a, b| a.partial_cmp(b).unwrap());
    let mid = values.len() / 2;
    if values.len() % 2 == 0 {
        (values[mid - 1] + values[mid]) / 2.0
    } else {
        values[mid]
    }
}

#[test]
fn sort_of_scattered_samples_is_ascending_and_keeps_them() {
    let numbers = scattered(0x9e37_79b9_7f4a_7c15, 3 * 150);
    let mut samples: Vec<TpsSample> = numbers
        .chunks(3)
        .map(|chunk| TpsSample::new(chunk[0] % 1_000, chunk[1] % 50, chunk[2] % 50))
        .collect();
    let mut before = samples.clone();
    sort_samples(&mut samples);
    assert_eq!(samples.len(), 150);
    for pair in samples.windows(2) {
        assert!(pair[0].at_most(pair[1]));
    }
    let key = |sample: &TpsSample| (sample.tx_count, sample.from_ms, sample.to_ms);
    let mut after = samples.clone();
    before.sort_by_key(key);
    after.sort_by_key(key);
    assert_eq!(before, after);
}

#[test]
fn median_agrees_with_the_floating_point_median() {
    // Counts below 1000 over 250, 500, 1000 or 2000 ms: every throughput and every
    // mean of two is exact in floating point.
    let spans: [u64; 4] = [250, 500, 1_000, 2_000];
    for length in 1..40usize {
        let numbers = scattered(length as u64 + 1, 2 * length);
        let samples: Vec<TpsSample> = numbers
            .chunks(2)
            .map(|chunk| {
                let span = spans[(chunk[1] % 4) as usize];
                TpsSample::new(chunk[0] % 1_000, 10_000, 10_000 + span)
            })
            .collect();
        let mut floats: Vec<f64> = samples.iter().map(|sample| as_float(*sample)).collect();
        let expected = float_median(&mut floats);
        let mut sorted = samples.clone();
        assert_eq!(median_as_float(median(&mut sorted)), Some(expected));
    }
}

#[test]
fn series_median_agrees_with_the_floating_point_median() {
    let numbers = scattered(77, 60);
    let mut timestamp: u64 = 1_000_000;
    let mut series: Vec<BlockRecord> = Vec::new();
    for (index, chunk) in numbers.chunks(2).enumerate() {
        timestamp += 500 * (1 + chunk[0] % 4);
        let shown = if chunk[1] % 5 == 0 { None } else { Some(timestamp) };
        series.push(record(index as u64, shown, chunk[1] % 300));
    }
    let mut timestamps: Vec<u64> = Vec::new();
    let mut counts: Vec<u64> = Vec::new();
    for block in series.iter() {
        if let Some(millis) = block.timestamp {
            timestamps.push(millis);
            counts.push(block.tx_count);
        }
    }
    let mut tps_values: Vec<f64> = Vec::new();
    for i in 1..timestamps.len() {
        let time_diff = (timestamps[i] - timestamps[i - 1]) as f64 / 1000.0;
        tps_values.push(counts[i] as f64 / time_diff);
    }
    assert!(tps_values.len() > 10);
    let expected = float_median(&mut tps_values);
    assert_eq!(median_as_float(compute_median_tps(&series)), Some(expected));
}
