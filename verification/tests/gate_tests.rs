use speakturbo::gate::{startup_gate_released, MIN_BUFFER_MS, MIN_BUFFER_SAMPLES};
use speakturbo::source::SAMPLE_RATE;

#[test]
fn releases_at_threshold() {
    assert!(startup_gate_released(MIN_BUFFER_SAMPLES, false));
    assert!(startup_gate_released(MIN_BUFFER_SAMPLES + 1, false));
    assert!(startup_gate_released(usize::MAX, false));
}

#[test]
fn holds_below_threshold_while_producer_runs() {
    assert!(!startup_gate_released(0, false));
    assert!(!startup_gate_released(10, false));
    assert!(!startup_gate_released(MIN_BUFFER_SAMPLES - 1, false));
}

#[test]
fn short_finished_stream_releases_the_gate() {
    // A 10-sample stream that has already finished must not block.
    assert!(startup_gate_released(10, true));
    assert!(startup_gate_released(0, true));
}

#[test]
fn threshold_matches_target_duration() {
    assert_eq!(MIN_BUFFER_SAMPLES, 3600);
    assert_eq!(
        MIN_BUFFER_SAMPLES,
        (SAMPLE_RATE * MIN_BUFFER_MS / 1000) as usize
    );
}
