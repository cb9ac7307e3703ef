use streamdl::throttle::ProgressThrottle;

#[test]
fn emission_pattern_over_a_call_sequence() {
    // The transfer started a full interval before the first chunk, so the
    // first call emits; calls at t0, t0 + 0.5 s, t0 + 1.0 s, t0 + 2.5 s
    // emit exactly at t0, t0 + 1.0 s and t0 + 2.5 s.
    let t0 = 5000u64;
    let mut throttle = ProgressThrottle::new(t0 - 1000);
    assert!(throttle.should_emit(t0));
    assert!(!throttle.should_emit(t0 + 500));
    assert!(throttle.should_emit(t0 + 1000));
    assert!(throttle.should_emit(t0 + 2500));
}

#[test]
fn no_emission_within_the_first_interval() {
    // With the baseline at the first call's own instant, nothing has
    // elapsed, so nothing is emitted until a full interval has passed.
    let mut throttle = ProgressThrottle::new(2000);
    assert!(!throttle.should_emit(2000));
    assert!(!throttle.should_emit(2999));
    assert!(throttle.should_emit(3000));
}

#[test]
fn a_long_stall_is_caught_up_immediately() {
    let mut throttle = ProgressThrottle::new(0);
    assert!(throttle.should_emit(60_000));
    // ... and the baseline moved to the emission instant.
    assert!(!throttle.should_emit(60_500));
}

#[test]
fn a_dense_burst_emits_at_most_once() {
    let mut throttle = ProgressThrottle::new(0);
    let mut emitted = 0;
    for now in 1000..1999u64 {
        if throttle.should_emit(now) {
            emitted += 1;
        }
    }
    assert_eq!(emitted, 1);
}
