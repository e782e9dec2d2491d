use piano_waterfall::list_btn::{list_btn_look, ListBtnLook};
use piano_waterfall::select_song::{is_selected_song, library_path_text, selected_song_text};

#[test]
fn library_texts() {
    assert_eq!(selected_song_text(""), "Selected song: None");
    assert_eq!(selected_song_text("Für Elise"), "Selected song: Für Elise");
    assert_eq!(library_path_text("/home/me/midi"), "Path: /home/me/midi");
    assert_eq!(library_path_text(""), "Path: ");
}

#[test]
fn selected_song_is_the_same_name() {
    assert!(is_selected_song("Für Elise", "Für Elise"));
    assert!(!is_selected_song("Für Elise", "Fur Elise"));
    assert!(!is_selected_song("", "a"));
    assert!(is_selected_song("", ""));
}

#[test]
fn list_button_looks() {
    assert_eq!(list_btn_look(true, true, true), ListBtnLook::Selected);
    assert_eq!(list_btn_look(true, false, false), ListBtnLook::Selected);
    assert_eq!(list_btn_look(false, true, false), ListBtnLook::Highlighted);
    assert_eq!(list_btn_look(false, false, true), ListBtnLook::Highlighted);
    assert_eq!(list_btn_look(false, false, false), ListBtnLook::Plain);
}
