use ecg_ingest::binary64::Binary64;
use ecg_ingest::process::{process_batch, validate_batch, Advisory, DriftReading, Sample, SampleBatch};
use ecg_ingest::state::AppState;

fn num(x: f64) -> Binary64 {
    Binary64::from_bits(x.to_bits())
}

fn sample(seq: u64, t_s: f64, mv: f64) -> Sample {
    Sample { seq, t_s: num(t_s), mv: num(mv) }
}

fn batch(session_id: &str, fs_hz: f64, samples: Vec<Sample>) -> SampleBatch {
    SampleBatch { session_id: session_id.to_string(), fs_hz: num(fs_hz), samples }
}

/// `n` well-formed samples, `step` seconds apart, numbered from `first_seq`.
fn ramp(first_seq: u64, n: usize, step: f64) -> Vec<Sample> {
    (0..n).map(|i| sample(first_seq + i as u64, i as f64 * step, 0.25)).collect()
}

/// What a caller measures on a batch before handing it over.
fn measure(b: &SampleBatch) -> Option<DriftReading> {
    if b.samples.len() < 2 {
        return None;
    }
    let first = f64::from_bits(b.samples[0].t_s.to_bits());
    let last = f64::from_bits(b.samples[b.samples.len() - 1].t_s.to_bits());
    let fs = f64::from_bits(b.fs_hz.to_bits());
    let dt = last - first;
    let observed = (b.samples.len() as f64 - 1.0) / dt;
    let drift = ((observed - fs).abs() / fs) * 100.0;
    Some(DriftReading { dt: num(dt), drift_pct: num(drift), drift_text: format!("{:.1}", drift) })
}

fn run(state: &mut AppState, b: SampleBatch) -> (u64, u64, u64, String) {
    let reading = measure(&b);
    process_batch(state, b, 2000, reading)
}

#[test]
fn empty_batch_is_answered_without_touching_the_registry() {
    let mut state = AppState::new();
    let r = run(&mut state, batch("s1", 250.0, vec![]));
    assert_eq!(r, (0, 0, 0, "empty batch".to_string()));
    assert_eq!(state.sessions.len(), 0);
    assert!(!state.sessions.contains_key("s1"));
}

#[test]
fn empty_batch_reports_the_sessions_current_sequence_number() {
    let mut state = AppState::new();
    state.advance("s1", 77, 5, 0);
    let r = run(&mut state, batch("s1", 250.0, vec![]));
    assert_eq!(r, (0, 0, 77, "empty batch".to_string()));
    assert_eq!(state.sessions.get("s1").unwrap().received, 5);
}

#[test]
fn well_formed_batch_is_accepted_whole() {
    let mut state = AppState::new();
    let r = run(&mut state, batch("s1", 250.0, ramp(1, 251, 0.004)));
    assert_eq!(r, (251, 0, 251, String::new()));
    let s = state.sessions.get("s1").unwrap();
    assert_eq!((s.last_seq, s.received, s.dropped), (251, 251, 0));
}

#[test]
fn every_sample_is_either_received_or_dropped() {
    let samples = vec![
        sample(1, 0.000, 0.1),
        sample(2, 0.004, f64::NAN),
        sample(2, 0.008, 0.1),
        sample(1, 0.012, 0.1),
        sample(5, 0.002, 0.1),
        sample(6, f64::INFINITY, 0.1),
        sample(7, 0.016, 0.1),
        sample(8, 0.016, 0.1),
        sample(9, 0.020, f64::NEG_INFINITY),
    ];
    let n = samples.len() as u64;
    let mut state = AppState::new();
    let r = run(&mut state, batch("s1", 250.0, samples));
    assert_eq!(r.0 + r.1, n);
    assert_eq!((r.0, r.1), (3, 6));
}

#[test]
fn repeated_sequence_number_is_dropped() {
    let samples = vec![
        sample(1, 0.000, 0.1),
        sample(2, 0.004, 0.1),
        sample(2, 0.008, 0.1),
        sample(3, 0.012, 0.1),
    ];
    let mut state = AppState::new();
    let r = run(&mut state, batch("s1", 250.0, samples));
    assert_eq!(r, (3, 1, 3, "non-monotonic seq at index 2".to_string()));
}

#[test]
fn nan_value_is_dropped_and_does_not_become_the_predecessor() {
    // Sequence number 3 follows the rejected 9: it is judged against 2.
    let samples = vec![
        sample(1, 0.000, 0.1),
        sample(2, 0.004, 0.1),
        sample(9, 0.500, f64::NAN),
        sample(3, 0.008, 0.1),
        sample(4, 0.012, 0.1),
    ];
    let mut state = AppState::new();
    let r = process_batch(&mut state, batch("s1", 250.0, samples), 2000, None);
    assert_eq!((r.0, r.1), (4, 1));
    assert_eq!(r.3, "non-finite at index 2");
}

#[test]
fn nan_timestamp_is_dropped() {
    let samples = vec![sample(1, f64::NAN, 0.1), sample(2, 0.004, 0.1)];
    let mut state = AppState::new();
    let r = process_batch(&mut state, batch("s1", 250.0, samples), 2000, None);
    assert_eq!(r, (1, 1, 2, "non-finite at index 0".to_string()));
}

#[test]
fn infinite_readings_are_dropped() {
    let samples = vec![
        sample(1, 0.0, 0.1),
        sample(2, f64::INFINITY, 0.1),
        sample(3, 0.004, f64::NEG_INFINITY),
        sample(4, 0.008, 0.1),
    ];
    let mut state = AppState::new();
    let r = process_batch(&mut state, batch("s1", 250.0, samples), 2000, None);
    assert_eq!(r, (2, 2, 4, "non-finite at index 2".to_string()));
}

#[test]
fn first_sample_is_accepted_when_finite() {
    let samples = vec![sample(0, -3.5, -0.1)];
    let mut state = AppState::new();
    let r = process_batch(&mut state, batch("s1", 250.0, samples), 2000, None);
    assert_eq!(r, (1, 0, 0, String::new()));
}

#[test]
fn timestamp_that_does_not_rise_is_dropped() {
    let samples = vec![
        sample(1, 0.000, 0.1),
        sample(2, 0.004, 0.1),
        sample(3, 0.004, 0.1),
        sample(4, 0.003, 0.1),
        sample(5, 0.008, 0.1),
    ];
    let mut state = AppState::new();
    let r = process_batch(&mut state, batch("s1", 250.0, samples), 2000, None);
    assert_eq!(r, (3, 2, 5, "non-monotonic t_s at index 3".to_string()));
}

#[test]
fn negative_timestamps_are_ordered_as_numbers() {
    let samples = vec![
        sample(1, -0.008, 0.1),
        sample(2, -0.004, 0.1),
        sample(3, -0.0, 0.1),
        sample(4, 0.0, 0.1),
        sample(5, 0.004, 0.1),
        sample(6, -0.001, 0.1),
    ];
    let mut state = AppState::new();
    let r = process_batch(&mut state, batch("s1", 250.0, samples), 2000, None);
    // 0.0 does not rise above -0.0, and -0.001 lies below 0.004.
    assert_eq!(r, (4, 2, 6, "non-monotonic t_s at index 5".to_string()));
}

#[test]
fn sequence_check_comes_before_timestamp_check() {
    let samples = vec![sample(5, 1.0, 0.1), sample(5, 0.5, 0.1)];
    let mut state = AppState::new();
    let r = process_batch(&mut state, batch("s1", 250.0, samples), 2000, None);
    assert_eq!(r, (1, 1, 5, "non-monotonic seq at index 1".to_string()));
}

#[test]
fn finiteness_check_comes_before_sequence_check() {
    let samples = vec![sample(5, 1.0, 0.1), sample(5, 2.0, f64::NAN)];
    let mut state = AppState::new();
    let r = process_batch(&mut state, batch("s1", 250.0, samples), 2000, None);
    assert_eq!(r, (1, 1, 5, "non-finite at index 1".to_string()));
}

#[test]
fn latest_rejection_is_the_one_reported() {
    let samples = vec![
        sample(1, 0.000, f64::NAN),
        sample(2, 0.004, 0.1),
        sample(2, 0.008, 0.1),
        sample(3, 0.012, 0.1),
    ];
    let mut state = AppState::new();
    let r = process_batch(&mut state, batch("s1", 250.0, samples), 2000, None);
    assert_eq!(r, (2, 2, 3, "non-monotonic seq at index 2".to_string()));
}

#[test]
fn rejection_index_with_several_digits() {
    let mut samples = ramp(1, 1234, 0.004);
    samples.push(sample(1, 100.0, 0.1));
    let mut state = AppState::new();
    let r = process_batch(&mut state, batch("s1", 250.0, samples), 2000, None);
    assert_eq!(r, (1234, 1, 1234, "non-monotonic seq at index 1234".to_string()));
}

#[test]
fn candidate_is_taken_from_the_raw_batch() {
    // The sample with sequence number 40 is rejected, yet 40 is what the
    // batch offers to the session.
    let samples = vec![sample(1, 0.0, 0.1), sample(40, 0.004, f64::NAN), sample(2, 0.008, 0.1)];
    let mut state = AppState::new();
    let r = process_batch(&mut state, batch("s1", 250.0, samples), 2000, None);
    assert_eq!(r, (2, 1, 40, "non-finite at index 1".to_string()));
    assert_eq!(state.get_last_seq("s1"), 40);
}

#[test]
fn batch_without_sequence_numbers_only_reads_the_registry() {
    let samples = vec![sample(0, 0.0, 0.1), sample(0, 0.004, 0.1)];
    let mut state = AppState::new();
    let r = process_batch(&mut state, batch("s1", 250.0, samples), 2000, None);
    assert_eq!(r, (1, 1, 0, "non-monotonic seq at index 1".to_string()));
    assert_eq!(state.sessions.len(), 0);

    state.advance("s1", 12, 3, 4);
    let samples = vec![sample(0, 0.0, 0.1)];
    let r = process_batch(&mut state, batch("s1", 250.0, samples), 2000, None);
    assert_eq!(r, (1, 0, 12, String::new()));
    let s = state.sessions.get("s1").unwrap();
    assert_eq!((s.last_seq, s.received, s.dropped), (12, 3, 4));
}

#[test]
fn counts_are_recorded_with_the_session() {
    let samples = vec![sample(1, 0.0, 0.1), sample(1, 0.004, 0.1), sample(2, 0.008, 0.1)];
    let mut state = AppState::new();
    process_batch(&mut state, batch("s1", 250.0, samples), 2000, None);
    process_batch(&mut state, batch("s1", 250.0, ramp(10, 5, 0.004)), 2000, None);
    let s = state.sessions.get("s1").unwrap();
    assert_eq!((s.last_seq, s.received, s.dropped), (14, 7, 1));
}

#[test]
fn later_batch_with_lower_sequence_numbers_keeps_last_seq() {
    let mut state = AppState::new();
    let r = run(&mut state, batch("s1", 250.0, ramp(51, 50, 0.004)));
    assert_eq!(r.2, 100);
    let r = run(&mut state, batch("s1", 250.0, ramp(1, 50, 0.004)));
    assert_eq!((r.0, r.1, r.2), (50, 0, 100));
    let s = state.sessions.get("s1").unwrap();
    assert_eq!((s.last_seq, s.received, s.dropped), (100, 100, 0));
}

#[test]
fn batches_are_validated_on_their_own() {
    // The second batch starts below the first one's last sample and is
    // still accepted whole.
    let mut state = AppState::new();
    run(&mut state, batch("s1", 250.0, ramp(100, 10, 0.004)));
    let r = run(&mut state, batch("s1", 250.0, ramp(1, 10, 0.004)));
    assert_eq!((r.0, r.1), (10, 0));
}

#[test]
fn drift_of_twenty_percent_is_reported() {
    let b = batch("s1", 250.0, ramp(1, 101, 0.005));
    let reading = measure(&b).unwrap();
    assert_eq!(f64::from_bits(reading.dt.to_bits()), 0.5);
    assert_eq!(reading.drift_text, "20.0");
    let mut state = AppState::new();
    let r = process_batch(&mut state, b, 2000, Some(reading));
    assert_eq!(r, (101, 0, 101, "fs drift 20.0%".to_string()));
}

#[test]
fn drift_within_two_percent_is_not_reported() {
    let b = batch("s1", 250.0, ramp(1, 251, 0.004));
    let mut state = AppState::new();
    let r = run(&mut state, b);
    assert_eq!(r.3, "");
    let reading = DriftReading { dt: num(1.0), drift_pct: num(2.0), drift_text: "2.0".to_string() };
    let out = validate_batch(&batch("s1", 250.0, ramp(1, 251, 0.004)), 2000, Some(reading));
    assert_eq!(out.warning, "");
}

#[test]
fn drift_just_above_two_percent_is_reported() {
    let above = f64::from_bits(2.0f64.to_bits() + 1);
    let reading =
        DriftReading { dt: num(1.0), drift_pct: num(above), drift_text: "2.0".to_string() };
    let out = validate_batch(&batch("s1", 250.0, ramp(1, 3, 0.004)), 2000, Some(reading));
    assert_eq!(out.warning, "fs drift 2.0%");
}

#[test]
fn drift_is_not_reported_without_a_positive_time_span() {
    for dt in [0.0, -0.0, -1.0, f64::NAN, f64::NEG_INFINITY] {
        let reading =
            DriftReading { dt: num(dt), drift_pct: num(50.0), drift_text: "50.0".to_string() };
        let out = validate_batch(&batch("s1", 250.0, ramp(1, 3, 0.004)), 2000, Some(reading));
        assert_eq!(out.warning, "");
    }
}

#[test]
fn drift_that_is_no_number_is_not_reported() {
    let reading =
        DriftReading { dt: num(1.0), drift_pct: num(f64::NAN), drift_text: "NaN".to_string() };
    let out = validate_batch(&batch("s1", 250.0, ramp(1, 3, 0.004)), 2000, Some(reading));
    assert_eq!(out.warning, "");
}

#[test]
fn infinite_drift_is_reported() {
    let reading = DriftReading {
        dt: num(1.0),
        drift_pct: num(f64::INFINITY),
        drift_text: "inf".to_string(),
    };
    let out = validate_batch(&batch("s1", 0.0, ramp(1, 3, 0.004)), 2000, Some(reading));
    assert_eq!(out.warning, "fs drift inf%");
}

#[test]
fn drift_is_not_looked_at_for_a_single_sample() {
    let reading =
        DriftReading { dt: num(1.0), drift_pct: num(50.0), drift_text: "50.0".to_string() };
    let out = validate_batch(&batch("s1", 250.0, ramp(1, 1, 0.004)), 2000, Some(reading));
    assert_eq!(out.warning, "");
}

#[test]
fn drift_does_not_replace_an_earlier_advisory() {
    let mut samples = ramp(1, 101, 0.005);
    samples[50].mv = num(f64::NAN);
    let b = batch("s1", 250.0, samples);
    let reading = measure(&b);
    let mut state = AppState::new();
    let r = process_batch(&mut state, b, 2000, reading);
    assert_eq!(r, (100, 1, 101, "non-finite at index 50".to_string()));

    let b = batch("s1", 250.0, ramp(1, 101, 0.005));
    let reading = measure(&b);
    let r = process_batch(&mut state, b, 100, reading);
    assert_eq!(r.3, "batch too large: 101");
}

#[test]
fn oversized_batch_is_processed_and_remarked_upon() {
    let mut state = AppState::new();
    let r = run(&mut state, batch("s1", 250.0, ramp(1, 2500, 0.004)));
    assert_eq!(r, (2500, 0, 2500, "batch too large: 2500".to_string()));
}

#[test]
fn batch_of_exactly_the_limit_is_not_too_large() {
    let mut state = AppState::new();
    let r = run(&mut state, batch("s1", 250.0, ramp(1, 2000, 0.004)));
    assert_eq!(r, (2000, 0, 2000, String::new()));
    let r = run(&mut state, batch("s1", 250.0, ramp(1, 2001, 0.004)));
    assert_eq!(r.3, "batch too large: 2001");
}

#[test]
fn limit_is_the_configured_one() {
    let mut state = AppState::new();
    let r = process_batch(&mut state, batch("s1", 250.0, ramp(1, 4, 0.004)), 3, None);
    assert_eq!(r, (4, 0, 4, "batch too large: 4".to_string()));
    let r = process_batch(&mut state, batch("s1", 250.0, ramp(5, 4, 0.004)), 4, None);
    assert_eq!(r, (4, 0, 8, String::new()));
}

#[test]
fn rejection_replaces_the_too_large_advisory() {
    let mut samples = ramp(1, 2500, 0.004);
    samples[7].t_s = num(f64::INFINITY);
    let mut state = AppState::new();
    let r = process_batch(&mut state, batch("s1", 250.0, samples), 2000, None);
    assert_eq!(r, (2499, 1, 2500, "non-finite at index 7".to_string()));
}

#[test]
fn validation_alone_reports_the_candidate() {
    let out = validate_batch(&batch("s1", 250.0, ramp(3, 4, 0.004)), 2000, None);
    assert_eq!((out.received, out.dropped, out.candidate), (4, 0, Some(6)));
    let out = validate_batch(&batch("s1", 250.0, vec![sample(0, 0.0, 0.0)]), 2000, None);
    assert_eq!((out.received, out.dropped, out.candidate), (1, 0, None));
    let out = validate_batch(&batch("s1", 250.0, vec![]), 2000, None);
    assert_eq!((out.received, out.dropped, out.candidate), (0, 0, None));
    assert_eq!(out.warning, "empty batch");
}

#[test]
fn advisory_texts() {
    assert_eq!(Advisory::Clear.message(), "");
    assert_eq!(Advisory::EmptyBatch.message(), "empty batch");
    assert_eq!(Advisory::TooLarge(2001).message(), "batch too large: 2001");
    assert_eq!(Advisory::NonFinite(0).message(), "non-finite at index 0");
    assert_eq!(Advisory::SeqNotIncreasing(10).message(), "non-monotonic seq at index 10");
    assert_eq!(Advisory::TimeNotIncreasing(99).message(), "non-monotonic t_s at index 99");
    assert_eq!(Advisory::Drift("3.5".to_string()).message(), "fs drift 3.5%");
}
