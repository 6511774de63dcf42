use desilence::assemble::assemble;
use desilence::interval::Interval;
use desilence::keep::get_keep_rate;
use desilence::pipeline::{positive_samples, rectify, remove_silence, DesilenceConfig};
use desilence::scan::find_silence_intervals;
use desilence::threshold::{percentile, sort_amplitudes};
use desilence::units::{ms_to_sample_count, sample_index_to_ms};
use desilence::DesilenceError;

fn iv(start: usize, stop: usize) -> Interval {
    Interval { start, stop }
}

#[test]
fn scenario_run_of_zeros_is_cut() {
    let samples: Vec<i64> = vec![1, 1, 1, 0, 0, 0, 0, 0, 1, 1, 1];
    let silence = find_silence_intervals(&samples, 0, 3, 0);
    assert_eq!(silence, vec![iv(3, 8)]);
    let keeps = get_keep_rate(&silence, samples.len());
    assert_eq!(keeps, vec![iv(0, 3), iv(8, 11)]);
    let out = assemble(&samples, &keeps);
    assert_eq!(out, vec![1, 1, 1, 1, 1, 1]);
}

#[test]
fn scenario_all_zero_input_is_rejected() {
    let samples: Vec<i64> = vec![0; 10];
    let cfg = DesilenceConfig {
        percentile: 85,
        min_silence_ms: 400,
        margin_ms: 150,
        sample_rate: 44100,
    };
    assert_eq!(remove_silence(&samples, &cfg), Err(DesilenceError::EmptyInputSignal));
}

#[test]
fn scenario_all_loud_is_kept_whole() {
    let samples: Vec<i64> = vec![5, 6, 7, 8, 9];
    let silence = find_silence_intervals(&samples, 4, 2, 0);
    assert_eq!(silence, Vec::<Interval>::new());
    let keeps = get_keep_rate(&silence, samples.len());
    assert_eq!(keeps, vec![iv(0, 5)]);
    let out = assemble(&samples, &keeps);
    assert_eq!(out, samples);
}

#[test]
fn scenario_time_conversion_round_trip() {
    let count = ms_to_sample_count(1000, 44100);
    assert_eq!(count, 88200);
    let back = sample_index_to_ms(count, 44100);
    assert_eq!(back, 1000);
}

#[test]
fn conversion_truncates_toward_zero() {
    // 1 ms at 499 samples/s spans 0.998 sample units
    assert_eq!(ms_to_sample_count(1, 499), 0);
    // one sample unit at 44100 samples/s lasts under a millisecond
    assert_eq!(sample_index_to_ms(1, 44100), 0);
}

#[test]
fn sorting_orders_and_keeps_duplicates() {
    let sorted = sort_amplitudes(&vec![3, 1, 2, 1]);
    assert_eq!(sorted, vec![1, 1, 2, 3]);
}

#[test]
fn percentile_picks_the_indexed_element() {
    // sorted: [1, 3, 5, 7, 10]; index 50 * 6 / 100 = 3
    assert_eq!(percentile(&vec![10, 1, 7, 3, 5], 50), 7);
    // index 0
    assert_eq!(percentile(&vec![10, 1, 7, 3, 5], 0), 1);
    // raw index 6 runs past the end and is clamped to the last element
    assert_eq!(percentile(&vec![10, 1, 7, 3, 5], 100), 10);
}

#[test]
fn percentile_of_equal_values_is_that_value() {
    assert_eq!(percentile(&vec![5, 5, 5], 50), 5);
}

#[test]
fn percentile_is_monotone_in_q() {
    let arr: Vec<i64> = vec![4, 8, 15, 16, 23, 42];
    let mut qs: Vec<u32> = vec![0, 10, 25, 50, 75, 90, 100];
    let mut prev = percentile(&arr, 0);
    qs.remove(0);
    for q in qs {
        let cur = percentile(&arr, q);
        assert!(prev <= cur);
        prev = cur;
    }
}

#[test]
fn keep_and_silence_tile_the_stream() {
    let samples: Vec<i64> = vec![1, 1, 1, 0, 0, 0, 0, 0, 1, 1, 1];
    let silence = find_silence_intervals(&samples, 0, 3, 0);
    let keeps = get_keep_rate(&silence, samples.len());
    for x in 0..samples.len() {
        let in_silence = silence.iter().any(|r| r.start <= x && x < r.stop);
        let in_keep = keeps.iter().any(|r| r.start <= x && x < r.stop);
        assert!(in_silence != in_keep);
    }
    let silence_len: usize = silence.iter().map(|r| r.stop - r.start).sum();
    let keep_len: usize = keeps.iter().map(|r| r.stop - r.start).sum();
    assert_eq!(silence_len + keep_len, samples.len());
}

#[test]
fn no_qualifying_run_leaves_input_unchanged() {
    let samples: Vec<i64> = vec![10, 20, 30, 40];
    let cfg = DesilenceConfig {
        percentile: 50,
        min_silence_ms: 1_000_000,
        margin_ms: 0,
        sample_rate: 1000,
    };
    // the minimum cut converts to two billion sample units: no run qualifies
    assert_eq!(remove_silence(&samples, &cfg), Ok(samples));
}

#[test]
fn wider_margin_never_shortens_output() {
    let samples: Vec<i64> = vec![1, 1, 1, 0, 0, 0, 0, 0, 1, 1, 1];
    let narrow = {
        let silence = find_silence_intervals(&samples, 0, 3, 0);
        assemble(&samples, &get_keep_rate(&silence, samples.len()))
    };
    let wide = {
        let silence = find_silence_intervals(&samples, 0, 3, 1);
        assert_eq!(silence, vec![iv(4, 7)]);
        assemble(&samples, &get_keep_rate(&silence, samples.len()))
    };
    assert!(wide.len() >= narrow.len());
    assert_eq!(wide, vec![1, 1, 1, 0, 0, 1, 1, 1]);
}

#[test]
fn margins_that_swallow_a_run_drop_it() {
    let samples: Vec<i64> = vec![5, 0, 0, 0, 5];
    let silence = find_silence_intervals(&samples, 0, 1, 2);
    assert_eq!(silence, Vec::<Interval>::new());
}

#[test]
fn leading_silence_leaves_no_empty_keep() {
    let samples: Vec<i64> = vec![0, 0, 0, 1];
    let silence = find_silence_intervals(&samples, 0, 2, 0);
    assert_eq!(silence, vec![iv(0, 3)]);
    let keeps = get_keep_rate(&silence, samples.len());
    assert_eq!(keeps, vec![iv(3, 4)]);
    assert_eq!(assemble(&samples, &keeps), vec![1]);
}

#[test]
fn trailing_silence_leaves_no_empty_keep() {
    let samples: Vec<i64> = vec![1, 0, 0];
    let silence = find_silence_intervals(&samples, 0, 2, 0);
    assert_eq!(silence, vec![iv(1, 3)]);
    let keeps = get_keep_rate(&silence, samples.len());
    assert_eq!(keeps, vec![iv(0, 1)]);
    assert_eq!(assemble(&samples, &keeps), vec![1]);
}

#[test]
fn two_runs_give_three_keeps() {
    let samples: Vec<i64> = vec![9, 0, 0, 9, 9, 0, 0, 9];
    let silence = find_silence_intervals(&samples, 0, 2, 0);
    assert_eq!(silence, vec![iv(1, 3), iv(5, 7)]);
    let keeps = get_keep_rate(&silence, samples.len());
    assert_eq!(keeps, vec![iv(0, 1), iv(3, 5), iv(7, 8)]);
    assert_eq!(assemble(&samples, &keeps), vec![9, 9, 9, 9]);
}

#[test]
fn rectify_clamps_negatives_only() {
    assert_eq!(rectify(&vec![-3, 2, 0, -1, 7]), vec![0, 2, 0, 0, 7]);
}

#[test]
fn positive_samples_keeps_order_and_duplicates() {
    assert_eq!(positive_samples(&vec![-3, 2, 0, 2, 7]), vec![2, 2, 7]);
}

#[test]
fn percentile_above_hundred_is_rejected() {
    let cfg = DesilenceConfig {
        percentile: 101,
        min_silence_ms: 400,
        margin_ms: 150,
        sample_rate: 44100,
    };
    assert_eq!(
        remove_silence(&vec![1, 2, 3], &cfg),
        Err(DesilenceError::InvalidConfiguration)
    );
}

#[test]
fn zero_durations_and_rates_are_rejected() {
    let zero_duration = DesilenceConfig {
        percentile: 85,
        min_silence_ms: 0,
        margin_ms: 150,
        sample_rate: 44100,
    };
    assert_eq!(
        remove_silence(&vec![1, 2, 3], &zero_duration),
        Err(DesilenceError::InvalidConfiguration)
    );
    let zero_rate = DesilenceConfig {
        percentile: 85,
        min_silence_ms: 400,
        margin_ms: 150,
        sample_rate: 0,
    };
    assert_eq!(
        remove_silence(&vec![1, 2, 3], &zero_rate),
        Err(DesilenceError::InvalidConfiguration)
    );
}

#[test]
fn empty_and_negative_streams_are_rejected() {
    let cfg = DesilenceConfig {
        percentile: 85,
        min_silence_ms: 400,
        margin_ms: 150,
        sample_rate: 44100,
    };
    assert_eq!(
        remove_silence(&Vec::new(), &cfg),
        Err(DesilenceError::EmptyInputSignal)
    );
    assert_eq!(
        remove_silence(&vec![-1, -2, -3], &cfg),
        Err(DesilenceError::EmptyInputSignal)
    );
}

#[test]
fn full_run_cuts_the_quiet_passage() {
    // positives sorted: [1, 1, 1, 1, 1, 100, 100, 100, 100, 100, 100];
    // the 40th percentile picks index 40 * 12 / 100 = 4, amplitude 1, so the
    // five samples at or below 1 form the only qualifying run
    let samples: Vec<i64> = vec![100, 100, 100, 1, 1, 1, 1, 1, 100, 100, 100];
    let cfg = DesilenceConfig {
        percentile: 40,
        min_silence_ms: 3,
        margin_ms: 0,
        sample_rate: 500,
    };
    assert_eq!(
        remove_silence(&samples, &cfg),
        Ok(vec![100, 100, 100, 100, 100, 100])
    );
}
