//! Tests of the key edge-detector.

use rhythm_chase::keypress::KeyPressDetector;

#[test]
fn fresh_presses_are_detected_once() {
    let mut d = KeyPressDetector::new(2, 16_000);
    assert_eq!(d.keys.len(), 2);
    assert!(!d.keys[0].is_down);
    d.update(&vec![true, false]);
    assert!(d.keys[0].just_pressed);
    assert!(d.keys[0].is_down);
    assert!(!d.keys[1].just_pressed);
    // Holding the key is no longer a fresh press.
    d.update(&vec![true, true]);
    assert!(!d.keys[0].just_pressed);
    assert!(d.keys[0].is_down);
    assert!(d.keys[1].just_pressed);
    // Releasing clears both flags.
    d.update(&vec![false, true]);
    assert!(!d.keys[0].just_pressed);
    assert!(!d.keys[0].is_down);
    assert!(!d.keys[1].just_pressed);
}
