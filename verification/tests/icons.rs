use piano_waterfall::icons::{
    balloon_icon, caret_down, cone_icon, eye_icon, eye_slash_icon, film_icon, folder_icon,
    gear_fill_icon, gear_icon, instrument_icon, left_arrow_icon, minus_icon, note_list_icon,
    pause_icon, play_icon, plus_icon, record_icon, record_stop_icon, repeat_icon, save_icon,
    trash_fill_icon, trash_icon, InstrumentIcon,
};

#[test]
fn icon_glyphs() {
    assert_eq!(cone_icon(), "\u{F2D2}");
    assert_eq!(gear_icon(), "\u{F3E5}");
    assert_eq!(gear_fill_icon(), "\u{F3E2}");
    assert_eq!(repeat_icon(), "\u{f130}");
    assert_eq!(play_icon(), "\u{f4f4}");
    assert_eq!(pause_icon(), "\u{f4c3}");
    assert_eq!(left_arrow_icon(), "\u{f12f}");
    assert_eq!(minus_icon(), "\u{F2EA}");
    assert_eq!(folder_icon(), "\u{F330}");
    assert_eq!(plus_icon(), "\u{F4FE}");
    assert_eq!(balloon_icon(), "\u{f709}");
    assert_eq!(note_list_icon(), "\u{f49f}");
    assert_eq!(caret_down(), "\u{f229}");
    assert_eq!(record_icon(), "\u{f519}");
    assert_eq!(record_stop_icon(), "\u{f591}");
    assert_eq!(trash_icon(), "\u{F5DE}");
    assert_eq!(trash_fill_icon(), "\u{F5DD}");
    assert_eq!(save_icon(), "\u{f7D9}");
    assert_eq!(film_icon(), "\u{F3C3}");
    assert_eq!(eye_icon(), "\u{F341}");
    assert_eq!(eye_slash_icon(), "\u{F340}");
}

#[test]
fn percussion_wins_over_everything() {
    assert_eq!(instrument_icon(0, true, " / Left Hand"), InstrumentIcon::Percussions);
    assert_eq!(instrument_icon(30, true, ""), InstrumentIcon::Percussions);
}

#[test]
fn hand_decides_before_program() {
    assert_eq!(instrument_icon(0, false, " / Left Hand"), InstrumentIcon::PianoLeft);
    assert_eq!(instrument_icon(0, false, " / Right Hand"), InstrumentIcon::PianoRight);
    assert_eq!(instrument_icon(40, false, "Left"), InstrumentIcon::PianoLeft);
    // "Left" is looked for first, case matters.
    assert_eq!(instrument_icon(40, false, "left"), InstrumentIcon::Violins);
    assert_eq!(instrument_icon(40, false, "LeftRight"), InstrumentIcon::PianoLeft);
}

#[test]
fn program_families() {
    let cases: [(usize, InstrumentIcon); 20] = [
        (0, InstrumentIcon::PianoRight),
        (7, InstrumentIcon::PianoRight),
        (8, InstrumentIcon::Bells),
        (15, InstrumentIcon::Bells),
        (16, InstrumentIcon::Uncategorized),
        (24, InstrumentIcon::Guitars),
        (31, InstrumentIcon::Guitars),
        (32, InstrumentIcon::Uncategorized),
        (40, InstrumentIcon::Violins),
        (47, InstrumentIcon::Violins),
        (52, InstrumentIcon::Choirs),
        (55, InstrumentIcon::Choirs),
        (56, InstrumentIcon::Brasses),
        (63, InstrumentIcon::Brasses),
        (64, InstrumentIcon::Uncategorized),
        (72, InstrumentIcon::Flutes),
        (79, InstrumentIcon::Flutes),
        (80, InstrumentIcon::Uncategorized),
        (127, InstrumentIcon::Uncategorized),
        (usize::MAX, InstrumentIcon::Uncategorized),
    ];
    for (program, icon) in cases {
        assert_eq!(instrument_icon(program, false, ""), icon, "program {}", program);
    }
}
