use std::path::PathBuf;

use piano_waterfall::midi_picker::{
    apply_picked_folder, collect_midi_songs, finish_midi_load, has_midi_extension,
    load_midi_from_path, open_midi_file_picker, FolderEntry, LibraryConfig, MidiLoad, UiState,
};

fn entry(file_name: &str, clean_name: &str, is_file: bool) -> FolderEntry {
    FolderEntry {
        file_name: file_name.to_string(),
        clean_name: clean_name.to_string(),
        path: PathBuf::from("/songs").join(file_name),
        is_file,
    }
}

#[test]
fn midi_extensions() {
    for name in ["a.mid", "A.MID", "x.Midi", "song.MIDI", "two.dots.mid", "a b.mId"] {
        assert!(has_midi_extension(name), "{}", name);
    }
    for name in ["mid", ".mid", ".midi", "a.midi.txt", "..", ".", "a.mi", "a.midii", "a.", "", "a.mid ", "a.méd"] {
        assert!(!has_midi_extension(name), "{}", name);
    }
}

#[test]
fn extension_check_agrees_with_path() {
    for name in ["a.mid", "A.MID", ".mid", "..", "x.y.midi", "noext", "a.", "a.MiDi", "é.mid"] {
        let by_path = PathBuf::from(name)
            .extension()
            .and_then(|e| e.to_str())
            .map(|e| e.eq_ignore_ascii_case("mid") || e.eq_ignore_ascii_case("midi"))
            .unwrap_or(false);
        assert_eq!(has_midi_extension(name), by_path, "{}", name);
    }
}

#[test]
fn listing_is_sorted_and_filtered() {
    let entries = vec![
        entry("zeta.mid", "Zeta", true),
        entry("notes.txt", "notes", true),
        entry("alpha.MIDI", "Alpha", true),
        entry("folder.mid", "folder", false),
        entry("beta.midi", "Beta", true),
        entry(".mid", "hidden", true),
    ];
    let songs = collect_midi_songs(entries);
    let names: Vec<&str> = songs.iter().map(|s| s.name.as_str()).collect();
    assert_eq!(names, vec!["Alpha", "Beta", "Zeta"]);
    assert_eq!(songs[0].path, PathBuf::from("/songs/alpha.MIDI"));
}

#[test]
fn equal_names_keep_folder_order() {
    let entries = vec![
        entry("b.mid", "Same", true),
        entry("a.mid", "Same", true),
        entry("c.mid", "Other", true),
    ];
    let songs = collect_midi_songs(entries);
    let paths: Vec<PathBuf> = songs.iter().map(|s| s.path.clone()).collect();
    assert_eq!(
        paths,
        vec![PathBuf::from("/songs/c.mid"), PathBuf::from("/songs/b.mid"), PathBuf::from("/songs/a.mid")]
    );
}

#[test]
fn listing_keeps_every_song_once() {
    let names = ["d", "b", "a", "c", "b", "a"];
    let entries: Vec<FolderEntry> =
        names.iter().enumerate().map(|(i, n)| entry(&format!("{}{}.mid", n, i), n, true)).collect();
    let songs = collect_midi_songs(entries);
    assert_eq!(songs.len(), names.len());
    let mut listed: Vec<String> = songs.iter().map(|s| s.path.display().to_string()).collect();
    listed.sort();
    let mut expected: Vec<String> =
        names.iter().enumerate().map(|(i, n)| format!("/songs/{}{}.mid", n, i)).collect();
    expected.sort();
    assert_eq!(listed, expected);
}

#[test]
fn empty_folder_lists_nothing() {
    assert!(collect_midi_songs(vec![]).is_empty());
}

#[test]
fn picking_a_file_loads_it() {
    let mut data: UiState<u32> = UiState { is_loading: false, song: Some(1) };
    let mut config = LibraryConfig { song_directory: Some(PathBuf::from("/songs")), last_opened_song: None };
    let request = open_midi_file_picker(&mut data);
    assert!(matches!(request, MidiLoad::PickFile));
    assert!(data.is_loading);
    assert_eq!(data.song, Some(1));
    finish_midi_load(&mut data, &mut config, Some((2, PathBuf::from("/songs/x.mid"))));
    assert!(!data.is_loading);
    assert_eq!(data.song, Some(2));
    assert_eq!(config.last_opened_song, Some(PathBuf::from("/songs/x.mid")));
    assert_eq!(config.song_directory, Some(PathBuf::from("/songs")));
}

#[test]
fn failed_load_changes_nothing_but_loading() {
    let mut data: UiState<u32> = UiState { is_loading: false, song: Some(1) };
    let mut config = LibraryConfig { song_directory: None, last_opened_song: Some(PathBuf::from("/old.mid")) };
    let request = load_midi_from_path(&mut data, PathBuf::from("/songs/broken.mid"));
    match request {
        MidiLoad::FromPath(p) => assert_eq!(p, PathBuf::from("/songs/broken.mid")),
        MidiLoad::PickFile => panic!("expected a path"),
    }
    assert!(data.is_loading);
    finish_midi_load(&mut data, &mut config, None);
    assert!(!data.is_loading);
    assert_eq!(data.song, Some(1));
    assert_eq!(config.last_opened_song, Some(PathBuf::from("/old.mid")));
}

#[test]
fn picking_a_folder() {
    let mut config = LibraryConfig { song_directory: None, last_opened_song: None };
    assert!(!apply_picked_folder(&mut config, None));
    assert_eq!(config.song_directory, None);
    assert!(apply_picked_folder(&mut config, Some(PathBuf::from("/music"))));
    assert_eq!(config.song_directory, Some(PathBuf::from("/music")));
}
