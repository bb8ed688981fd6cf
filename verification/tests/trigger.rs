use scope_core::ring_buffer::RingBuffer;
use scope_core::sample::SampleKey;
use scope_core::trigger::{TriggerEdge, TriggerEngine, TriggerMode, TriggerState};

fn key(x: f32) -> SampleKey {
    SampleKey::from_bits(x.to_bits())
}

#[test]
fn rising_edge_trigger() {
    let mut trig = TriggerEngine::new();
    trig.level = key(0.5);
    trig.edge = TriggerEdge::Rising;

    assert!(trig.check(key(-1.0), 1).is_none());
    assert!(trig.check(key(0.0), 2).is_none());
    assert!(trig.check(key(0.3), 3).is_none());
    let result = trig.check(key(0.6), 4);
    assert!(result.is_some());
    assert_eq!(result.unwrap(), 3);
}

#[test]
fn falling_edge_trigger() {
    let mut trig = TriggerEngine::new();
    trig.level = key(0.5);
    trig.edge = TriggerEdge::Falling;

    assert!(trig.check(key(1.0), 1).is_none());
    assert!(trig.check(key(0.8), 2).is_none());
    let result = trig.check(key(0.3), 3);
    assert!(result.is_some());
}

#[test]
fn single_mode_stops() {
    let mut trig = TriggerEngine::new();
    trig.mode = TriggerMode::Single;
    trig.level = key(0.5);
    trig.edge = TriggerEdge::Rising;

    trig.check(key(0.0), 1);
    trig.check(key(1.0), 2); // triggers
    assert_eq!(trig.state, TriggerState::Stopped);
    assert!(trig.check(key(0.0), 3).is_none());
    assert!(trig.check(key(1.0), 4).is_none()); // stays stopped
}

#[test]
fn auto_timeout_fires() {
    let mut trig = TriggerEngine::new();
    trig.level = key(100.0); // will never cross
    trig.set_auto_timeout(5);

    for i in 0..4 {
        assert!(trig.check(key(0.0), i + 1).is_none());
    }
    let result = trig.check(key(0.0), 5);
    assert!(result.is_some());
}

#[test]
fn holdoff_suppresses() {
    let mut trig = TriggerEngine::new();
    trig.level = key(0.5);
    trig.holdoff_samples = 10;
    trig.set_auto_timeout(100000);

    trig.check(key(0.0), 1);
    trig.check(key(1.0), 2); // would trigger but holdoff hasn't expired
    // holdoff starts at 0, so the first trigger at sample 2 fires because
    // samples_since_trigger starts > holdoff (both 0)
    // Let's verify holdoff after a trigger:
    trig.samples_since_trigger = 0; // simulate post-trigger
    trig.prev_sample = Some(key(0.0));
    for i in 0..9 {
        assert!(trig.check(key(if i % 2 == 0 { 1.0 } else { 0.0 }), 10 + i).is_none());
    }
}

#[test]
fn holdoff_expires_after_holdoff_samples() {
    let mut trig = TriggerEngine::new();
    trig.mode = TriggerMode::Normal;
    trig.level = key(0.5);
    trig.holdoff_samples = 3;
    trig.prev_sample = Some(key(0.0));
    // Checks 1, 2, 3 are within the holdoff; the 4th crossing fires.
    assert_eq!(trig.check(key(1.0), 10), None);
    assert_eq!(trig.check(key(0.0), 11), None);
    assert_eq!(trig.check(key(1.0), 12), None);
    assert_eq!(trig.check(key(0.0), 13), None);
    assert_eq!(trig.check(key(1.0), 14), Some(13));
    assert_eq!(trig.samples_since_trigger, 0);
    assert_eq!(trig.last_trigger_index(), Some(13));
}

#[test]
fn returned_index_is_newest_sample_and_recorded() {
    let mut trig = TriggerEngine::new();
    trig.prev_sample = Some(key(-1.0));
    assert_eq!(trig.check(key(2.0), 0), Some(0)); // saturating at an empty buffer
    assert_eq!(trig.last_trigger_index(), Some(0));
    trig.arm();
    assert_eq!(trig.state, TriggerState::Waiting);
    assert_eq!(trig.last_trigger_index(), None);
    assert_eq!(trig.check(key(-2.0), 7), None);
    assert_eq!(trig.check(key(0.0), 8), Some(7)); // level 0.0 is reached
}

#[test]
fn nan_never_crosses() {
    let mut trig = TriggerEngine::new();
    trig.mode = TriggerMode::Normal;
    trig.check(key(-1.0), 1);
    assert_eq!(trig.check(key(f32::NAN), 2), None);
    assert_eq!(trig.check(key(1.0), 3), None); // previous sample was NaN
    assert_eq!(trig.check(key(-1.0), 4), None);
    assert_eq!(trig.check(key(1.0), 5), Some(4));
}

#[test]
fn signed_zeros_compare_equal() {
    let mut trig = TriggerEngine::new();
    trig.mode = TriggerMode::Normal;
    trig.check(key(-0.0), 1);
    // -0.0 < 0.0 is false, so no rising edge through level 0.0.
    assert_eq!(trig.check(key(1.0), 2), None);
    assert_eq!(key(-0.0), key(0.0));
    assert_eq!(key(f32::NAN), SampleKey::Unordered);
}

#[test]
fn force_trigger_in_single_mode_stops() {
    let mut trig = TriggerEngine::new();
    trig.mode = TriggerMode::Single;
    trig.force_trigger(5);
    assert_eq!(trig.last_trigger_index(), Some(4));
    assert_eq!(trig.state, TriggerState::Stopped);
    assert_eq!(trig.check(key(-1.0), 6), None);
    assert_eq!(trig.check(key(1.0), 7), None);
    trig.arm();
    assert_eq!(trig.check(key(-1.0), 8), None);
    assert_eq!(trig.check(key(1.0), 9), Some(8));
    assert_eq!(trig.state, TriggerState::Stopped);
}

#[test]
fn find_trigger_takes_newest_crossing() {
    let mut trig = TriggerEngine::new();
    trig.level = key(0.5);
    let mut buf = RingBuffer::new(16);
    for &x in [0.0f32, 1.0, 0.0, 1.0, 1.0, 0.0].iter() {
        buf.push(key(x));
    }
    assert_eq!(trig.find_trigger_in_buffer(&buf), Some(3));
    trig.edge = TriggerEdge::Falling;
    assert_eq!(trig.find_trigger_in_buffer(&buf), Some(5));
    // Only the last 2 samples are searched: index 5 is still in reach.
    trig.set_auto_timeout(2);
    assert_eq!(trig.find_trigger_in_buffer(&buf), Some(5));
    trig.edge = TriggerEdge::Rising;
    assert_eq!(trig.find_trigger_in_buffer(&buf), None);
    let mut short = RingBuffer::new(4);
    short.push(key(1.0));
    assert_eq!(trig.find_trigger_in_buffer(&short), None);
}

#[test]
fn default_is_new() {
    let a = TriggerEngine::default();
    assert_eq!(a.mode, TriggerMode::Auto);
    assert_eq!(a.edge, TriggerEdge::Rising);
    assert_eq!(a.state, TriggerState::Running);
    assert_eq!(a.auto_timeout_samples, 5000);
    assert_eq!(a.level, key(0.0));
}
