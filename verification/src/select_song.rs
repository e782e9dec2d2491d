//! The song library page: the texts it shows and which song of the list is marked.
use vstd::prelude::*;
use vstd::string::*;

use crate::text::str_eq;

verus! {

pub open spec fn selected_song_prefix() -> Seq<char> {
    seq!['S', 'e', 'l', 'e', 'c', 't', 'e', 'd', ' ', 's', 'o', 'n', 'g', ':', ' ']
}

/// The subtitle of the page: `Selected song: ` and the song's name, or `None`
/// when no song was opened yet.
pub open spec fn selected_song_chars(song_file_name: Seq<char>) -> Seq<char> {
    selected_song_prefix() + if song_file_name.len() == 0 {
        seq!['N', 'o', 'n', 'e']
    } else {
        song_file_name
    }
}

/// The subtitle naming the song that was opened last.
pub fn selected_song_text(song_file_name: &str) -> (text: String)
    ensures
        text@ == selected_song_chars(song_file_name@),
{
    proof {
        reveal_strlit("Selected song: ");
        reveal_strlit("None");
        assert("Selected song: "@ =~= selected_song_prefix());
        assert("None"@ =~= seq!['N', 'o', 'n', 'e']);
    }
    let mut text = String::from_str("Selected song: ");
    if song_file_name.unicode_len() == 0 {
        text.append("None");
    } else {
        text.append(song_file_name);
    }
    text
}

/// The footer of the page: `Path: ` and the library folder.
pub fn library_path_text(song_directory: &str) -> (text: String)
    ensures
        text@ == seq!['P', 'a', 't', 'h', ':', ' '] + song_directory@,
{
    proof {
        reveal_strlit("Path: ");
        assert("Path: "@ =~= seq!['P', 'a', 't', 'h', ':', ' ']);
    }
    let mut text = String::from_str("Path: ");
    text.append(song_directory);
    text
}

/// Whether a song of the list is the one opened last: their names are equal.
pub fn is_selected_song(song_file_name: &str, song_name: &str) -> (selected: bool)
    ensures
        selected == (song_file_name@ == song_name@),
{
    str_eq(song_file_name, song_name)
}

} // verus!
