//! The bottom bars of the song library page and of the score page: which
//! buttons they show, from left to right, their icons, and what a click on each
//! does.
use vstd::prelude::*;

use crate::icons::{folder_icon, left_arrow_icon, play_icon, trash_icon};

verus! {

/// What a button of a bottom bar does when it is clicked.
#[derive(Clone, Copy, Debug, PartialEq, Eq, Structural)]
pub enum BarAction {
    /// Back to the page before.
    GoBack,
    /// Opens the folder dialog that chooses the song library.
    PickFolder,
    /// On to the track selection of the loaded song.
    ChooseTracks,
    /// Deletes the stored scores of the song.
    DeleteStats,
    /// Starts playing the loaded song.
    StartPlaying,
}

/// The buttons of the song library page: back and folder, and the way on to
/// the tracks only once a song is loaded.
pub open spec fn library_bar_of(song_loaded: bool) -> Seq<BarAction> {
    if song_loaded {
        seq![BarAction::GoBack, BarAction::PickFolder, BarAction::ChooseTracks]
    } else {
        seq![BarAction::GoBack, BarAction::PickFolder]
    }
}

/// The buttons of the score page: back and delete, and play only once a song
/// is loaded.
pub open spec fn stats_bar_of(song_loaded: bool) -> Seq<BarAction> {
    if song_loaded {
        seq![BarAction::GoBack, BarAction::DeleteStats, BarAction::StartPlaying]
    } else {
        seq![BarAction::GoBack, BarAction::DeleteStats]
    }
}

/// The glyph of each button: an arrow back, a folder, a trash can, and the play
/// triangle for both ways on.
pub open spec fn bar_icon_chars(action: BarAction) -> Seq<char> {
    match action {
        BarAction::GoBack => seq!['\u{f12f}'],
        BarAction::PickFolder => seq!['\u{F330}'],
        BarAction::DeleteStats => seq!['\u{F5DE}'],
        BarAction::ChooseTracks | BarAction::StartPlaying => seq!['\u{f4f4}'],
    }
}

/// The buttons of the song library page's bottom bar, from left to right.
pub fn library_bar(song_loaded: bool) -> (buttons: Vec<BarAction>)
    ensures
        buttons@ == library_bar_of(song_loaded),
{
    let mut buttons: Vec<BarAction> = Vec::new();
    buttons.push(BarAction::GoBack);
    buttons.push(BarAction::PickFolder);
    if song_loaded {
        buttons.push(BarAction::ChooseTracks);
    }
    assert(buttons@ =~= library_bar_of(song_loaded));
    buttons
}

/// The buttons of the score page's bottom bar, from left to right.
pub fn stats_bar(song_loaded: bool) -> (buttons: Vec<BarAction>)
    ensures
        buttons@ == stats_bar_of(song_loaded),
{
    let mut buttons: Vec<BarAction> = Vec::new();
    buttons.push(BarAction::GoBack);
    buttons.push(BarAction::DeleteStats);
    if song_loaded {
        buttons.push(BarAction::StartPlaying);
    }
    assert(buttons@ =~= stats_bar_of(song_loaded));
    buttons
}

/// The icon drawn on a button.
pub fn bar_icon(action: BarAction) -> (icon: &'static str)
    ensures
        icon@ == bar_icon_chars(action),
{
    match action {
        BarAction::GoBack => left_arrow_icon(),
        BarAction::PickFolder => folder_icon(),
        BarAction::DeleteStats => trash_icon(),
        BarAction::ChooseTracks => play_icon(),
        BarAction::StartPlaying => play_icon(),
    }
}

} // verus!
