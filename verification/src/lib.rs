//! The logic of a piano learning game that shows a MIDI file as notes falling
//! onto a keyboard: the song library, the track selection, the scores kept for
//! each song, and the decisions of the playing scene.
use vstd::prelude::*;

pub mod bottom_bar;
pub mod calendar;
pub mod glow;
pub mod icons;
pub mod list_btn;
pub mod midi_picker;
pub mod playing;
pub mod select_song;
pub mod seq_facts;
pub mod stats;
pub mod text;
pub mod tracks;

verus! {

} // verus!
