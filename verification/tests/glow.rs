use piano_waterfall::glow::{scene_glow, GlowKeys, GlowStep};

#[test]
fn press_hold_release() {
    let mut keys = GlowKeys::new(3);
    assert_eq!(keys.len(), 3);
    // A new press restarts the glow.
    assert_eq!(keys.push(1, false), Some(GlowStep::Restart));
    assert_eq!(keys.prepare(), vec![true, false, true]);
    // Held through the next frame: the glow holds.
    assert_eq!(keys.push(1, false), Some(GlowStep::Hold));
    // Struck again: the glow restarts.
    assert_eq!(keys.push(1, true), Some(GlowStep::Restart));
    assert_eq!(keys.prepare(), vec![true, false, true]);
    // Left alone for a frame: released, then a push restarts.
    assert_eq!(keys.prepare(), vec![true, true, true]);
    assert_eq!(keys.push(1, false), Some(GlowStep::Restart));
}

#[test]
fn keys_off_the_keyboard_are_ignored() {
    let mut keys = GlowKeys::new(2);
    assert_eq!(keys.push(2, true), None);
    assert_eq!(keys.prepare(), vec![true, true]);
    let mut empty = GlowKeys::new(0);
    assert_eq!(empty.push(0, false), None);
    assert!(empty.prepare().is_empty());
}

#[test]
fn glow_exists_only_when_the_setting_is_on() {
    assert!(scene_glow(false, 88).is_none());
    let mut keys = scene_glow(true, 88).unwrap();
    assert_eq!(keys.len(), 88);
    assert_eq!(keys.push(40, false), Some(GlowStep::Restart));
    assert_eq!(keys.prepare().iter().filter(|released| **released).count(), 87);
}
