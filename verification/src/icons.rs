//! Glyphs of the icon font used by the menus, and the picture shown beside each track.
use vstd::prelude::*;

use crate::text::{contains_chars, str_contains};

verus! {

/// The traffic cone glyph of the icon font.
pub fn cone_icon() -> (icon: &'static str)
    ensures
        icon@ == seq!['\u{F2D2}'],
{
    proof {
        reveal_strlit("\u{F2D2}");
    }
    "\u{F2D2}"
}

/// The gear outline glyph of the icon font.
pub fn gear_icon() -> (icon: &'static str)
    ensures
        icon@ == seq!['\u{F3E5}'],
{
    proof {
        reveal_strlit("\u{F3E5}");
    }
    "\u{F3E5}"
}

/// The filled gear glyph of the icon font.
pub fn gear_fill_icon() -> (icon: &'static str)
    ensures
        icon@ == seq!['\u{F3E2}'],
{
    proof {
        reveal_strlit("\u{F3E2}");
    }
    "\u{F3E2}"
}

/// The repeat arrows glyph of the icon font.
pub fn repeat_icon() -> (icon: &'static str)
    ensures
        icon@ == seq!['\u{f130}'],
{
    proof {
        reveal_strlit("\u{f130}");
    }
    "\u{f130}"
}

/// The play triangle glyph of the icon font.
pub fn play_icon() -> (icon: &'static str)
    ensures
        icon@ == seq!['\u{f4f4}'],
{
    proof {
        reveal_strlit("\u{f4f4}");
    }
    "\u{f4f4}"
}

/// The pause bars glyph of the icon font.
pub fn pause_icon() -> (icon: &'static str)
    ensures
        icon@ == seq!['\u{f4c3}'],
{
    proof {
        reveal_strlit("\u{f4c3}");
    }
    "\u{f4c3}"
}

/// The left arrow glyph of the icon font.
pub fn left_arrow_icon() -> (icon: &'static str)
    ensures
        icon@ == seq!['\u{f12f}'],
{
    proof {
        reveal_strlit("\u{f12f}");
    }
    "\u{f12f}"
}

/// The minus sign glyph of the icon font.
pub fn minus_icon() -> (icon: &'static str)
    ensures
        icon@ == seq!['\u{F2EA}'],
{
    proof {
        reveal_strlit("\u{F2EA}");
    }
    "\u{F2EA}"
}

/// The folder glyph of the icon font.
pub fn folder_icon() -> (icon: &'static str)
    ensures
        icon@ == seq!['\u{F330}'],
{
    proof {
        reveal_strlit("\u{F330}");
    }
    "\u{F330}"
}

/// The plus sign glyph of the icon font.
pub fn plus_icon() -> (icon: &'static str)
    ensures
        icon@ == seq!['\u{F4FE}'],
{
    proof {
        reveal_strlit("\u{F4FE}");
    }
    "\u{F4FE}"
}

/// The balloon glyph of the icon font.
pub fn balloon_icon() -> (icon: &'static str)
    ensures
        icon@ == seq!['\u{f709}'],
{
    proof {
        reveal_strlit("\u{f709}");
    }
    "\u{f709}"
}

/// The note list glyph of the icon font.
pub fn note_list_icon() -> (icon: &'static str)
    ensures
        icon@ == seq!['\u{f49f}'],
{
    proof {
        reveal_strlit("\u{f49f}");
    }
    "\u{f49f}"
}

/// The downward caret glyph of the icon font.
pub fn caret_down() -> (icon: &'static str)
    ensures
        icon@ == seq!['\u{f229}'],
{
    proof {
        reveal_strlit("\u{f229}");
    }
    "\u{f229}"
}

/// The record dot glyph of the icon font.
pub fn record_icon() -> (icon: &'static str)
    ensures
        icon@ == seq!['\u{f519}'],
{
    proof {
        reveal_strlit("\u{f519}");
    }
    "\u{f519}"
}

/// The stop-recording square glyph of the icon font.
pub fn record_stop_icon() -> (icon: &'static str)
    ensures
        icon@ == seq!['\u{f591}'],
{
    proof {
        reveal_strlit("\u{f591}");
    }
    "\u{f591}"
}

/// The trash can outline glyph of the icon font.
pub fn trash_icon() -> (icon: &'static str)
    ensures
        icon@ == seq!['\u{F5DE}'],
{
    proof {
        reveal_strlit("\u{F5DE}");
    }
    "\u{F5DE}"
}

/// The filled trash can glyph of the icon font.
pub fn trash_fill_icon() -> (icon: &'static str)
    ensures
        icon@ == seq!['\u{F5DD}'],
{
    proof {
        reveal_strlit("\u{F5DD}");
    }
    "\u{F5DD}"
}

/// The floppy disk glyph of the icon font.
pub fn save_icon() -> (icon: &'static str)
    ensures
        icon@ == seq!['\u{f7D9}'],
{
    proof {
        reveal_strlit("\u{f7D9}");
    }
    "\u{f7D9}"
}

/// The film strip glyph of the icon font.
pub fn film_icon() -> (icon: &'static str)
    ensures
        icon@ == seq!['\u{F3C3}'],
{
    proof {
        reveal_strlit("\u{F3C3}");
    }
    "\u{F3C3}"
}

/// The open eye (track shown) glyph of the icon font.
pub fn eye_icon() -> (icon: &'static str)
    ensures
        icon@ == seq!['\u{F341}'],
{
    proof {
        reveal_strlit("\u{F341}");
    }
    "\u{F341}"
}

/// The struck-through eye (track hidden) glyph of the icon font.
pub fn eye_slash_icon() -> (icon: &'static str)
    ensures
        icon@ == seq!['\u{F340}'],
{
    proof {
        reveal_strlit("\u{F340}");
    }
    "\u{F340}"
}

/// The picture drawn beside a track, one per instrument family and hand.
#[derive(Clone, Copy, Debug, PartialEq, Eq, Structural)]
pub enum InstrumentIcon {
    Percussions,
    PianoLeft,
    PianoRight,
    Bells,
    Guitars,
    Violins,
    Choirs,
    Brasses,
    Flutes,
    Uncategorized,
}

/// The picture of the General MIDI family that a program number belongs to.
pub open spec fn program_family_icon(program_id: int) -> InstrumentIcon {
    if 0 <= program_id <= 7 {
        InstrumentIcon::PianoRight
    } else if 8 <= program_id <= 15 {
        InstrumentIcon::Bells
    } else if 24 <= program_id <= 31 {
        InstrumentIcon::Guitars
    } else if 40 <= program_id <= 47 {
        InstrumentIcon::Violins
    } else if 52 <= program_id <= 55 {
        InstrumentIcon::Choirs
    } else if 56 <= program_id <= 63 {
        InstrumentIcon::Brasses
    } else if 72 <= program_id <= 79 {
        InstrumentIcon::Flutes
    } else {
        InstrumentIcon::Uncategorized
    }
}

/// The picture of a track: percussion first, then the hand named in `hand_info`,
/// then the family of the program.
pub open spec fn instrument_icon_of(program_id: int, is_percussion: bool, hand_info: Seq<char>) -> InstrumentIcon {
    if is_percussion {
        InstrumentIcon::Percussions
    } else if contains_chars(hand_info, seq!['L', 'e', 'f', 't']) {
        InstrumentIcon::PianoLeft
    } else if contains_chars(hand_info, seq!['R', 'i', 'g', 'h', 't']) {
        InstrumentIcon::PianoRight
    } else {
        program_family_icon(program_id)
    }
}

/// Returns the picture for a MIDI instrument program, a percussion flag and the
/// hand description of the track.
pub fn instrument_icon(program_id: usize, is_percussion: bool, hand_info: &str) -> (icon: InstrumentIcon)
    ensures
        icon == instrument_icon_of(program_id as int, is_percussion, hand_info@),
{
    if is_percussion {
        return InstrumentIcon::Percussions;
    }
    proof {
        reveal_strlit("Left");
        reveal_strlit("Right");
        assert("Left"@ =~= seq!['L', 'e', 'f', 't']);
        assert("Right"@ =~= seq!['R', 'i', 'g', 'h', 't']);
    }
    if str_contains(hand_info, "Left") {
        return InstrumentIcon::PianoLeft;
    }
    if str_contains(hand_info, "Right") {
        return InstrumentIcon::PianoRight;
    }
    if program_id <= 7 {
        InstrumentIcon::PianoRight
    } else if 8 <= program_id && program_id <= 15 {
        InstrumentIcon::Bells
    } else if 24 <= program_id && program_id <= 31 {
        InstrumentIcon::Guitars
    } else if 40 <= program_id && program_id <= 47 {
        InstrumentIcon::Violins
    } else if 52 <= program_id && program_id <= 55 {
        InstrumentIcon::Choirs
    } else if 56 <= program_id && program_id <= 63 {
        InstrumentIcon::Brasses
    } else if 72 <= program_id && program_id <= 79 {
        InstrumentIcon::Flutes
    } else {
        InstrumentIcon::Uncategorized
    }
}

} // verus!
