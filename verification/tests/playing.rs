use piano_waterfall::playing::{
    glow_color, glow_pushes, key_note, pressed_notes, retriggered_notes, scaled_delta,
    settings_change, should_finish, should_restart_loop, window_reaction, GlowPush,
    KeyGlowInput, NoteEvent, SettingsChange, SettingsInput, WindowInput, WindowReaction,
};

#[test]
fn glow_colors() {
    assert_eq!(glow_color(true, Some(3u8), true), Some(3));
    assert_eq!(glow_color(true, None::<u8>, false), None);
    assert_eq!(glow_color(false, Some(3u8), false), Some(3));
    assert_eq!(glow_color(false, Some(3u8), true), None);
    assert_eq!(glow_color(false, None::<u8>, false), None);
}

#[test]
fn key_notes_wrap_to_a_byte() {
    assert_eq!(key_note(0, 21), 21);
    assert_eq!(key_note(87, 21), 108);
    assert_eq!(key_note(250, 10), 4);
}

#[test]
fn struck_notes() {
    let events = vec![
        NoteEvent::NoteOn { key: 60, vel: 100 },
        NoteEvent::NoteOn { key: 62, vel: 0 },
        NoteEvent::Other,
        NoteEvent::NoteOn { key: 64, vel: 1 },
        NoteEvent::NoteOn { key: 60, vel: 20 },
    ];
    let set = retriggered_notes(&events);
    assert!(set.contains(&60));
    assert!(!set.contains(&62));
    assert!(set.contains(&64));
    assert!(!set.contains(&0));
    assert!(!set.contains(&255));
    assert_eq!(set.len(), 2);
    let none = retriggered_notes(&vec![]);
    assert!(none.is_empty());
    assert!(!none.contains(&60));
}

#[test]
fn glows_of_a_frame() {
    let key_ids = vec![0usize, 1, 2, 3];
    let states = vec![
        KeyGlowInput { user_pressed: false, file_color: Some('r'), human_waiting: false },
        KeyGlowInput { user_pressed: false, file_color: Some('g'), human_waiting: true },
        KeyGlowInput { user_pressed: true, file_color: Some('b'), human_waiting: true },
    ];
    let struck = retriggered_notes(&vec![NoteEvent::NoteOn { key: 62, vel: 90 }]);
    let pushes = glow_pushes(&key_ids, &states, 60, &struck);
    assert_eq!(
        pushes,
        vec![
            GlowPush { key: 0, color: 'r', retrigger: false },
            GlowPush { key: 2, color: 'b', retrigger: true },
        ]
    );
}

#[test]
fn loop_and_finish() {
    assert!(should_restart_loop(true, 11, 10));
    assert!(!should_restart_loop(true, 10, 10));
    assert!(!should_restart_loop(false, 11, 10));
    assert!(should_finish(true, false, false));
    assert!(!should_finish(true, true, false));
    assert!(!should_finish(true, false, true));
    assert!(!should_finish(false, false, false));
}

#[test]
fn frame_time_scaled_by_speed() {
    assert_eq!(scaled_delta(16_666_667, 10), 16_666_660);
    assert_eq!(scaled_delta(16_666_667, 15), 24_999_990);
    assert_eq!(scaled_delta(9, 10), 0);
    assert_eq!(scaled_delta(1_000_000_000, 0), 0);
    let d = std::time::Duration::from_nanos(16_666_667);
    assert_eq!(((d / 10) * 15).as_nanos(), scaled_delta(16_666_667, 15));
}

fn input() -> WindowInput {
    WindowInput {
        back_mouse_pressed: false,
        escape_released: false,
        space_released: false,
        resized: false,
        scale_factor_changed: false,
        rewinding: false,
    }
}

#[test]
fn window_reactions() {
    let none = WindowReaction { reset_keys: false, finish: false, toggle_pause: false, resize: false };
    assert_eq!(window_reaction(input()), none);
    assert_eq!(window_reaction(WindowInput { escape_released: true, ..input() }), WindowReaction { finish: true, ..none });
    assert_eq!(window_reaction(WindowInput { back_mouse_pressed: true, ..input() }), WindowReaction { finish: true, ..none });
    assert_eq!(window_reaction(WindowInput { space_released: true, ..input() }), WindowReaction { toggle_pause: true, ..none });
    assert_eq!(window_reaction(WindowInput { scale_factor_changed: true, ..input() }), WindowReaction { resize: true, ..none });
    assert_eq!(window_reaction(WindowInput { rewinding: true, ..input() }), WindowReaction { reset_keys: true, ..none });
}

fn keys<'a>(up: bool, down: bool, page_up: bool, page_down: bool, ch: Option<&'a str>, shift: bool) -> SettingsInput<'a> {
    SettingsInput {
        arrow_up_released: up,
        arrow_down_released: down,
        page_up_released: page_up,
        page_down_released: page_down,
        character_released: ch,
        shift,
    }
}

#[test]
fn shortcuts() {
    assert_eq!(settings_change(&keys(true, false, false, false, None, false)), SettingsChange::Speed(100));
    assert_eq!(settings_change(&keys(false, true, false, false, None, true)), SettingsChange::Speed(-500));
    assert_eq!(settings_change(&keys(true, true, true, false, Some("-"), false)), SettingsChange::Speed(100));
    assert_eq!(settings_change(&keys(false, false, true, false, None, false)), SettingsChange::AnimationSpeed(100000));
    assert_eq!(settings_change(&keys(false, false, false, true, Some("+"), true)), SettingsChange::AnimationSpeed(-500000));
    assert_eq!(settings_change(&keys(false, false, false, false, Some("-"), false)), SettingsChange::AnimationOffset(-10));
    assert_eq!(settings_change(&keys(false, false, false, false, Some("_"), true)), SettingsChange::AnimationOffset(-100));
    assert_eq!(settings_change(&keys(false, false, false, false, Some("+"), false)), SettingsChange::AnimationOffset(10));
    assert_eq!(settings_change(&keys(false, false, false, false, Some("="), true)), SettingsChange::AnimationOffset(100));
    assert_eq!(settings_change(&keys(false, false, false, false, Some("a"), false)), SettingsChange::Unchanged);
    assert_eq!(settings_change(&keys(false, false, false, false, Some("--"), false)), SettingsChange::Unchanged);
    assert_eq!(settings_change(&keys(false, false, false, false, None, true)), SettingsChange::Unchanged);
}

#[test]
fn opposite_shortcuts_undo_each_other() {
    for shift in [false, true] {
        let pairs = [
            (keys(true, false, false, false, None, shift), keys(false, true, false, false, None, shift)),
            (keys(false, false, true, false, None, shift), keys(false, false, false, true, None, shift)),
            (keys(false, false, false, false, Some("+"), shift), keys(false, false, false, false, Some("-"), shift)),
        ];
        for (a, b) in pairs {
            let sum = match (settings_change(&a), settings_change(&b)) {
                (SettingsChange::Speed(x), SettingsChange::Speed(y)) => x + y,
                (SettingsChange::AnimationSpeed(x), SettingsChange::AnimationSpeed(y)) => x + y,
                (SettingsChange::AnimationOffset(x), SettingsChange::AnimationOffset(y)) => x + y,
                _ => panic!("mismatched changes"),
            };
            assert_eq!(sum, 0);
        }
    }
}

#[test]
fn held_notes_for_the_chord_name() {
    assert_eq!(pressed_notes(&vec![true, false, false, false, true, false, false, true], 60), vec![60, 64, 67]);
    assert_eq!(pressed_notes(&vec![false; 88], 21), Vec::<u8>::new());
}

use piano_waterfall::playing::{frame_step, FrameStep};

#[test]
fn frame_steps() {
    assert_eq!(
        frame_step(true, 11, 10, true, 16_666_667, 10),
        FrameStep { restart_loop: true, advance_nanos: Some(16_666_660) }
    );
    assert_eq!(
        frame_step(false, 11, 10, false, 16_666_667, 10),
        FrameStep { restart_loop: false, advance_nanos: None }
    );
    assert_eq!(
        frame_step(true, 5, 10, false, u128::MAX, u32::MAX),
        FrameStep { restart_loop: false, advance_nanos: None }
    );
}
