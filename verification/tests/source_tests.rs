use speakturbo::buffer::LockFreeBuffer;
use speakturbo::source::{apply_fade, PlaybackStep, StreamSource, FADE_IN_SAMPLES, SAMPLE_RATE};

/// Nearest integer to `s * c / FADE_IN_SAMPLES`, ties rounded up, computed
/// independently of the library.
fn expected_faded(s: i64, c: i64) -> i16 {
    let w = FADE_IN_SAMPLES as i64;
    let num = s * c + w / 2;
    // Euclidean-style flooring division.
    let q = if num >= 0 { num / w } else { -((-num + w - 1) / w) };
    q as i16
}

#[test]
fn fade_formula_exact_values() {
    assert_eq!(apply_fade(1000, 120), 500);
    assert_eq!(apply_fade(-1000, 120), -500);
    assert_eq!(apply_fade(32767, 0), 0);
    assert_eq!(apply_fade(-32768, 0), 0);
    assert_eq!(apply_fade(1, 120), 1); // 0.5 rounds up
    assert_eq!(apply_fade(-1, 120), 0); // -0.5 rounds up
    assert_eq!(apply_fade(239, 239), 238); // 237.995... rounds to 238
}

#[test]
fn fade_is_identity_from_window_end_on() {
    assert_eq!(apply_fade(12345, FADE_IN_SAMPLES), 12345);
    assert_eq!(apply_fade(-12345, FADE_IN_SAMPLES + 1), -12345);
    assert_eq!(apply_fade(i16::MIN, usize::MAX), i16::MIN);
}

#[test]
fn fade_matches_formula_across_window() {
    for s in [i16::MIN, -12345, -1, 0, 1, 777, i16::MAX] {
        for c in 0..FADE_IN_SAMPLES {
            assert_eq!(apply_fade(s, c), expected_faded(s as i64, c as i64));
        }
    }
}

#[test]
fn descriptors_are_fixed() {
    let source = StreamSource::new();
    assert_eq!(source.channels(), 1);
    assert_eq!(source.sample_rate(), SAMPLE_RATE);
    assert_eq!(source.current_frame_len(), None);
}

#[test]
fn scenario_long_stream_fades_then_passes_through() {
    // Push more than the startup threshold, finish, and drain everything.
    let mut buf = LockFreeBuffer::new();
    for _ in 0..5000 {
        buf.push(10000);
    }
    buf.set_done();
    let mut source = StreamSource::new();
    let mut emitted: Vec<i16> = Vec::new();
    loop {
        match source.next(&mut buf) {
            PlaybackStep::Sample(s) => emitted.push(s),
            PlaybackStep::Finished => break,
            PlaybackStep::Pending => panic!("pending after the producer finished"),
        }
    }
    assert_eq!(emitted.len(), 5000);
    for (c, &s) in emitted.iter().enumerate() {
        if c < FADE_IN_SAMPLES {
            assert_eq!(s, expected_faded(10000, c as i64));
        } else {
            assert_eq!(s, 10000);
        }
    }
}

#[test]
fn scenario_empty_stream_ends_immediately() {
    let mut buf = LockFreeBuffer::new();
    buf.set_done();
    let mut source = StreamSource::new();
    assert_eq!(source.next(&mut buf), PlaybackStep::Finished);
    assert_eq!(source.next(&mut buf), PlaybackStep::Finished);
}

#[test]
fn pending_while_producer_still_running() {
    let mut buf = LockFreeBuffer::new();
    let mut source = StreamSource::new();
    assert_eq!(source.next(&mut buf), PlaybackStep::Pending);
    assert_eq!(source.samples_emitted, 0);
    buf.push(4242);
    assert_eq!(source.next(&mut buf), PlaybackStep::Sample(expected_faded(4242, 0)));
    assert_eq!(source.samples_emitted, 1);
}

#[test]
fn scenario_slow_producer_keeps_order() {
    // Get the cursor past the fade-in window so samples pass through
    // unchanged, then interleave single pushes with pops.
    let mut buf = LockFreeBuffer::new();
    let mut source = StreamSource::new();
    for _ in 0..FADE_IN_SAMPLES {
        buf.push(0);
        assert!(matches!(source.next(&mut buf), PlaybackStep::Sample(0)));
    }
    let produced: Vec<i16> = (0..1000).map(|i| (i as i16) - 500).collect();
    let mut emitted: Vec<i16> = Vec::new();
    let mut backlog: usize = 0;
    for (i, &s) in produced.iter().enumerate() {
        if backlog == 0 {
            // The consumer finds the buffer empty: it must report
            // Pending, not skip or invent a sample.
            assert_eq!(source.next(&mut buf), PlaybackStep::Pending);
        }
        buf.push(s);
        backlog += 1;
        if i % 3 == 0 {
            // Sometimes the producer runs ahead by one.
            continue;
        }
        match source.next(&mut buf) {
            PlaybackStep::Sample(got) => {
                emitted.push(got);
                backlog -= 1;
            }
            other => panic!("expected a sample, got {:?}", other),
        }
    }
    buf.set_done();
    loop {
        match source.next(&mut buf) {
            PlaybackStep::Sample(got) => emitted.push(got),
            PlaybackStep::Finished => break,
            PlaybackStep::Pending => panic!("pending after the producer finished"),
        }
    }
    assert_eq!(emitted, produced);
}
