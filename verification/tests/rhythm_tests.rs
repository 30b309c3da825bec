//! Tests of the cyclic beat clock.  All durations are microseconds; at
//! 120 beats per minute one beat lasts 500 000 us.

use rhythm_chase::rhythm::beat_length;
use rhythm_chase::rhythm::Rhythm;

#[test]
fn test_rhythm() {
    let mut r = Rhythm::new(2, 120, vec![1]);
    assert_eq!(r.on(), false);
    r.update(150_000);
    assert_eq!(r.on(), false);
    assert_eq!(r.position(), 150_000);
    let beat = r.duration() as i64;
    r.update(beat);
    assert!(r.on());
    assert_eq!(r.position(), 650_000);
    r.update(beat);
    assert_eq!(r.on(), false);
    assert_eq!(r.position(), 150_000);
}

#[test]
fn rhythm_window() {
    let mut tr = Rhythm::new(2, 120, vec![0]);
    assert_eq!(tr.duration(), 500_000);
    assert!(tr.in_window(1));
    tr.update(40_000);
    assert!(tr.in_window(50_000));
    tr.update(500_000);
    assert_eq!(tr.position(), 540_000);
    assert!(!tr.in_window(50_000));
    tr.update(420_000);
    assert_eq!(tr.position(), 960_000);
    assert!(tr.in_window(50_000));

    let mut tr = Rhythm::new(4, 120, vec![0, 2]);
    tr.update(40_000);
    assert!(tr.in_window(50_000));
    tr.update(500_000);
    assert!(!tr.in_window(50_000));
    tr.update(500_000);
    assert!(tr.in_window(50_000));
    tr.update(500_000);
    assert!(!tr.in_window(50_000));
}

#[test]
fn beat_length_is_exact() {
    assert_eq!(beat_length(120), 500_000);
    assert_eq!(beat_length(60), 1_000_000);
    assert_eq!(beat_length(1), 60_000_000);
}

#[test]
fn advance_then_rewind_restores_position() {
    let mut r = Rhythm::new(3, 120, vec![0, 2]);
    r.update(123_456);
    let before = r.position();
    r.update(777_001);
    r.update(-777_001);
    assert_eq!(r.position(), before);
    r.update(3_600_000_000);
    r.update(-3_600_000_000);
    assert_eq!(r.position(), before);
}

#[test]
fn negative_advance_wraps_backwards() {
    let mut r = Rhythm::new(2, 120, vec![0]);
    r.update(-100_000);
    assert_eq!(r.position(), 900_000);
    r.update(-1_000_000);
    assert_eq!(r.position(), 900_000);
}

#[test]
fn multiple_wraps_in_one_advance() {
    let mut r = Rhythm::new(2, 120, vec![0]);
    r.update(2_000_000 * 5 + 250_000);
    assert_eq!(r.position(), 250_000);
}

#[test]
fn reset_zeroes_the_clock() {
    let mut r = Rhythm::new(2, 120, vec![0]);
    r.update(733_000);
    r.reset();
    assert_eq!(r.position(), 0);
    assert!(r.on());
}

#[test]
fn set_tempo_rebinds_duration() {
    let mut r = Rhythm::new(2, 120, vec![0]);
    assert_eq!(r.duration(), 500_000);
    r.set_tempo(60);
    assert_eq!(r.duration(), 1_000_000);
    assert_eq!(r.position(), 0);
}

#[test]
fn empty_pattern_is_never_on() {
    let mut r = Rhythm::new(2, 120, vec![]);
    assert!(!r.on());
    assert!(!r.in_window(499_999));
    assert!(!r.on_beat(499_999));
    r.update(500_000);
    assert!(!r.on());
}

#[test]
fn clone_preserves_state() {
    let mut r = Rhythm::new(4, 90, vec![1, 3]);
    r.update(321_000);
    let c = r.clone();
    assert!(r.same_state(&c));
    let mut c2 = c.clone();
    c2.update(1);
    assert!(!r.same_state(&c2));
}
