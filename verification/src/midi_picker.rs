//! The song library: which files of the chosen folder are listed, and in
//! which order.
use vstd::prelude::*;
use vstd::string::*;

use std::path::PathBuf;

use crate::text::{
    chars_lt, lemma_chars_lt_irreflexive, lemma_chars_lt_total, lemma_chars_lt_transitive, str_lt,
};

use crate::seq_facts::{
    is_stable_sorting, keyed, lemma_insert_stable, lemma_same_keyed_items, lemma_stable_sorting_unique,
    strict_total_order,
};

verus! {

/// Makes std's `PathBuf` known to Verus; paths are carried through and never looked into.
#[verifier::external_type_specification]
#[verifier::external_body]
pub struct ExPathBuf(PathBuf);

/// A song found in the library folder.
#[derive(Debug)]
pub struct ScannedSong {
    pub name: String,
    pub path: PathBuf,
}

/// The mathematical value of a [`ScannedSong`].
pub struct ScannedSongView {
    pub name: Seq<char>,
    pub path: PathBuf,
}

impl View for ScannedSong {
    type V = ScannedSongView;

    open spec fn view(&self) -> ScannedSongView {
        ScannedSongView { name: self.name@, path: self.path }
    }
}

/// One entry of the library folder, as read from disk: its file name, the
/// song name shown for it, its path and whether it is a regular file.
pub struct FolderEntry {
    pub file_name: String,
    pub clean_name: String,
    pub path: PathBuf,
    pub is_file: bool,
}

/// The mathematical value of a [`FolderEntry`].
pub struct FolderEntryView {
    pub file_name: Seq<char>,
    pub clean_name: Seq<char>,
    pub path: PathBuf,
    pub is_file: bool,
}

impl View for FolderEntry {
    type V = FolderEntryView;

    open spec fn view(&self) -> FolderEntryView {
        FolderEntryView {
            file_name: self.file_name@,
            clean_name: self.clean_name@,
            path: self.path,
            is_file: self.is_file,
        }
    }
}

pub open spec fn entry_views(entries: Seq<FolderEntry>) -> Seq<FolderEntryView> {
    entries.map_values(|e: FolderEntry| e@)
}

pub open spec fn song_views(songs: Seq<ScannedSong>) -> Seq<ScannedSongView> {
    songs.map_values(|s: ScannedSong| s@)
}

/// The index of the last `.` in `name`, or -1 when there is none.
pub open spec fn last_dot(name: Seq<char>) -> int
    decreases name.len(),
{
    if name.len() == 0 {
        -1
    } else if name.last() == '.' {
        name.len() - 1
    } else {
        last_dot(name.drop_last())
    }
}

/// The extension of a file name, as `Path::extension` finds it: what follows
/// the last `.`, unless there is no `.`, the only `.` starts the name, or the
/// name is `..`.
pub open spec fn extension_of(name: Seq<char>) -> Option<Seq<char>> {
    if name == seq!['.', '.'] || last_dot(name) <= 0 {
        None
    } else {
        Some(name.subrange(last_dot(name) + 1, name.len() as int))
    }
}

proof fn lemma_last_dot_after(stem: Seq<char>, ext: Seq<char>)
    requires
        forall|i: int| 0 <= i < ext.len() ==> #[trigger] ext[i] != '.',
    ensures
        last_dot(stem + seq!['.'] + ext) == stem.len(),
    decreases ext.len(),
{
    let name = stem + seq!['.'] + ext;
    if ext.len() == 0 {
        assert(name.last() == '.');
    } else {
        assert(name.drop_last() =~= stem + seq!['.'] + ext.drop_last());
        assert(name.last() == ext.last());
        assert(ext.last() == ext[ext.len() - 1]);
        lemma_last_dot_after(stem, ext.drop_last());
    }
}

proof fn lemma_last_dot_none(name: Seq<char>)
    requires
        forall|i: int| 0 <= i < name.len() ==> #[trigger] name[i] != '.',
    ensures
        last_dot(name) == -1,
    decreases name.len(),
{
    if name.len() > 0 {
        assert(name.last() == name[name.len() - 1]);
        lemma_last_dot_none(name.drop_last());
    }
}

/// The extension of a file name is what follows its last `.`: a non-empty stem,
/// a `.` and a rest without `.` give that rest (but for the name `..`), and a
/// name without `.` has none.
pub proof fn lemma_extension_after_last_dot(stem: Seq<char>, ext: Seq<char>, plain: Seq<char>)
    requires
        forall|i: int| 0 <= i < ext.len() ==> #[trigger] ext[i] != '.',
        forall|i: int| 0 <= i < plain.len() ==> #[trigger] plain[i] != '.',
    ensures
        stem.len() > 0 && stem + seq!['.'] + ext != seq!['.', '.'] ==> extension_of(stem + seq!['.'] + ext)
            == Some(ext),
        extension_of(plain) is None,
{
    lemma_last_dot_after(stem, ext);
    lemma_last_dot_none(plain);
    let name = stem + seq!['.'] + ext;
    assert(name.subrange(stem.len() + 1int, name.len() as int) =~= ext);
}

/// The code of a character with ASCII capitals turned into small letters.
pub open spec fn ascii_lower_code(c: char) -> int {
    if 65 <= (c as int) <= 90 {
        c as int + 32
    } else {
        c as int
    }
}

/// Equality of two character sequences up to ASCII case. For an ASCII `b` this
/// is what `str::eq_ignore_ascii_case` answers.
pub open spec fn eq_ignore_ascii_case(a: Seq<char>, b: Seq<char>) -> bool {
    a.len() == b.len() && forall|i: int|
        0 <= i < a.len() ==> ascii_lower_code(#[trigger] a[i]) == ascii_lower_code(b[i])
}

/// Whether an extension marks a MIDI file: `mid` or `midi`, in any ASCII case.
pub open spec fn is_midi_extension(ext: Seq<char>) -> bool {
    eq_ignore_ascii_case(ext, seq!['m', 'i', 'd']) || eq_ignore_ascii_case(
        ext,
        seq!['m', 'i', 'd', 'i'],
    )
}

/// Whether a folder entry is listed: a regular file with a MIDI extension.
pub open spec fn is_midi_entry(e: FolderEntryView) -> bool {
    e.is_file && match extension_of(e.file_name) {
        Some(ext) => is_midi_extension(ext),
        None => false,
    }
}

pub open spec fn midi_entry() -> spec_fn(FolderEntryView) -> bool {
    |e: FolderEntryView| is_midi_entry(e)
}

pub open spec fn song_of() -> spec_fn(FolderEntryView) -> ScannedSongView {
    |e: FolderEntryView| ScannedSongView { name: e.clean_name, path: e.path }
}

/// The songs of the folder, in the order the entries came.
pub open spec fn midi_songs_in(entries: Seq<FolderEntryView>) -> Seq<ScannedSongView> {
    entries.filter(midi_entry()).map_values(song_of())
}

/// The name of a song, which the listing is sorted by.
pub open spec fn name_of() -> spec_fn(ScannedSongView) -> Seq<char> {
    |s: ScannedSongView| s.name
}

/// The order of names: [`chars_lt`].
pub open spec fn name_order() -> spec_fn(Seq<char>, Seq<char>) -> bool {
    |a: Seq<char>, b: Seq<char>| chars_lt(a, b)
}

/// `listing` is `songs` sorted by name, songs of equal names in their first order:
/// it is sorted, and for each name it holds the same songs of that name in the same order.
pub open spec fn is_name_sorting_of(listing: Seq<ScannedSongView>, songs: Seq<ScannedSongView>) -> bool {
    is_stable_sorting(listing, songs, name_of(), name_order())
}

/// The order of names is a strict total order.
pub proof fn lemma_name_order_is_strict_total()
    ensures
        strict_total_order(name_order()),
{
    assert forall|a: Seq<char>| #![trigger name_order()(a, a)] !name_order()(a, a) by {
        lemma_chars_lt_irreflexive(a);
    }
    assert forall|a: Seq<char>, b: Seq<char>, c: Seq<char>|
        #![trigger name_order()(a, b), name_order()(b, c)]
        name_order()(a, b) && name_order()(b, c) implies name_order()(a, c) by {
        lemma_chars_lt_transitive(a, b, c);
    }
    assert forall|a: Seq<char>, b: Seq<char>| #![trigger name_order()(a, b)]
        a != b implies name_order()(a, b) || name_order()(b, a) by {
        lemma_chars_lt_total(a, b);
    }
}

/// Whether `name` (a file name) has the extension `mid` or `midi`, in any ASCII case.
pub fn has_midi_extension(name: &str) -> (midi: bool)
    ensures
        midi == match extension_of(name@) {
            Some(ext) => is_midi_extension(ext),
            None => false,
        },
{
    let n = name.unicode_len();
    let mut i: usize = n;
    assert(name@.take(n as int) =~= name@);
    while i > 0 && name.get_char(i - 1) != '.'
        invariant
            n == name@.len(),
            i <= n,
            last_dot(name@) == last_dot(name@.take(i as int)),
        decreases i,
    {
        assert(name@.take(i as int).drop_last() =~= name@.take(i - 1));
        i -= 1;
    }
    assert(i > 0 ==> name@.take(i as int).last() == '.');
    // Here `i - 1` is the last dot, or `i == 0` when there is none.
    if i <= 1 {
        return false;
    }
    let start = i;
    let ext_len = n - start;
    proof {
        let ext = name@.subrange(start as int, n as int);
        assert(last_dot(name@) == start - 1);
        if name@ == seq!['.', '.'] {
            assert(ext.len() == 0);
        }
    }
    if ext_len != 3 && ext_len != 4 {
        return false;
    }
    let ghost ext = name@.subrange(start as int, n as int);
    let target: &str = if ext_len == 3 { "mid" } else { "midi" };
    proof {
        reveal_strlit("mid");
        reveal_strlit("midi");
        assert("mid"@ =~= seq!['m', 'i', 'd']);
        assert("midi"@ =~= seq!['m', 'i', 'd', 'i']);
        assert(name@ != seq!['.', '.']);
        assert(extension_of(name@) == Some(ext));
    }
    let mut j: usize = 0;
    while j < ext_len
        invariant
            n == name@.len(),
            start <= n,
            ext_len == n - start,
            ext == name@.subrange(start as int, n as int),
            ext_len == 3 || ext_len == 4,
            extension_of(name@) == Some(ext),
            target@ == (if ext_len == 3 { seq!['m', 'i', 'd'] } else { seq!['m', 'i', 'd', 'i'] }),
            forall|k: int| 0 <= k < j ==> ascii_lower_code(ext[k]) == ascii_lower_code(target@[k]),
            j <= ext_len,
        decreases ext_len - j,
    {
        let c = name.get_char(start + j);
        let t = target.get_char(j);
        let lc: u32 = if 65 <= (c as u32) && (c as u32) <= 90 { c as u32 + 32 } else { c as u32 };
        let lt: u32 = if 65 <= (t as u32) && (t as u32) <= 90 { t as u32 + 32 } else { t as u32 };
        assert(ext[j as int] == c);
        if lc != lt {
            assert(ascii_lower_code(ext[j as int]) != ascii_lower_code(target@[j as int]));
            assert(!eq_ignore_ascii_case(ext, seq!['m', 'i', 'd']));
            assert(!eq_ignore_ascii_case(ext, seq!['m', 'i', 'd', 'i']));
            return false;
        }
        j += 1;
    }
    true
}

/// The songs of a library folder: the regular files whose extension is `mid`
/// or `midi` (any ASCII case), under their shown names, sorted by name; songs
/// of equal names keep the order of the entries.
pub fn collect_midi_songs(entries: Vec<FolderEntry>) -> (songs: Vec<ScannedSong>)
    ensures
        is_name_sorting_of(song_views(songs@), midi_songs_in(entry_views(entries@))),
{
    let ghost all = entry_views(entries@);
    let mut rest = entries;
    let mut songs: Vec<ScannedSong> = Vec::new();
    let ghost mut taken: int = 0;
    assert(entry_views(rest@) =~= all.skip(0));
    assert(all.take(0).filter(midi_entry()) =~= Seq::<FolderEntryView>::empty()) by {
        reveal(Seq::filter);
    }
    assert forall|k: Seq<char>| #[trigger] song_views(songs@).filter(keyed(name_of(), k))
        == midi_songs_in(all.take(0)).filter(keyed(name_of(), k)) by {
        reveal(Seq::filter);
        assert(song_views(songs@) =~= Seq::<ScannedSongView>::empty());
        assert(midi_songs_in(all.take(0)) =~= Seq::<ScannedSongView>::empty());
    }
    while rest.len() > 0
        invariant
            0 <= taken <= all.len(),
            entry_views(rest@) == all.skip(taken),
            is_name_sorting_of(song_views(songs@), midi_songs_in(all.take(taken))),
        decreases rest.len(),
    {
        let ghost old_rest = rest@;
        assert(entry_views(old_rest)[0] == old_rest[0]@);
        assert(entry_views(old_rest).len() == old_rest.len());
        assert(all.skip(taken)[0] == all[taken]);
        let entry = rest.remove(0);
        let ghost ev = entry@;
        assert(ev == all[taken]);
        assert forall|k: int| 0 <= k < rest@.len() implies #[trigger] entry_views(rest@)[k] == all.skip(
            taken + 1,
        )[k] by {
            assert(rest@[k] == old_rest[k + 1]);
            assert(entry_views(old_rest)[k + 1] == all.skip(taken)[k + 1]);
        }
        assert(entry_views(rest@) =~= all.skip(taken + 1));
        let ghost before = midi_songs_in(all.take(taken));
        proof {
            assert(all.take(taken + 1) =~= all.take(taken).push(ev));
            all.take(taken).lemma_filter_push(ev, midi_entry());
            if is_midi_entry(ev) {
                assert(all.take(taken).filter(midi_entry()).push(ev).map_values(song_of())
                    =~= before.push(song_of()(ev)));
            }
        }
        if entry.is_file && has_midi_extension(entry.file_name.as_str()) {
            let song = ScannedSong { name: entry.clean_name, path: entry.path };
            let ghost sv = song@;
            let ghost listing = song_views(songs@);
            let n = songs.len();
            let mut p: usize = 0;
            while p < n && !str_lt(song.name.as_str(), songs[p].name.as_str())
                invariant
                    n == songs@.len(),
                    p <= n,
                    listing == song_views(songs@),
                    sv == song@,
                    forall|j: int| 0 <= j < p ==> !chars_lt(sv.name, #[trigger] listing[j].name),
                decreases n - p,
            {
                p += 1;
            }
            proof {
                lemma_name_order_is_strict_total();
                lemma_insert_stable(listing, sv, p as int, name_of(), name_order());
            }
            songs.insert(p, song);
            assert(song_views(songs@) =~= listing.insert(p as int, sv));
            proof {
                let now = song_views(songs@);
                assert forall|k: Seq<char>| #[trigger] now.filter(keyed(name_of(), k)) == before.push(
                    sv,
                ).filter(keyed(name_of(), k)) by {
                    before.lemma_filter_push(sv, keyed(name_of(), k));
                }
            }
        }
        proof {
            taken = taken + 1;
        }
    }
    assert(all.skip(taken).len() == 0);
    assert(all.take(taken) =~= all);
    songs
}

/// The listing holds every song of the folder exactly once: no song is lost
/// or repeated by the sorting.
pub proof fn lemma_listing_keeps_songs(listing: Seq<ScannedSongView>, songs: Seq<ScannedSongView>)
    requires
        is_name_sorting_of(listing, songs),
    ensures
        listing.to_multiset() == songs.to_multiset(),
{
    lemma_same_keyed_items(listing, songs, name_of());
}

/// There is one listing of a folder: the contract of [`collect_midi_songs`]
/// determines its result.
pub proof fn lemma_listing_is_unique(
    l1: Seq<ScannedSongView>,
    l2: Seq<ScannedSongView>,
    songs: Seq<ScannedSongView>,
)
    requires
        is_name_sorting_of(l1, songs),
        is_name_sorting_of(l2, songs),
    ensures
        l1 == l2,
{
    lemma_name_order_is_strict_total();
    lemma_stable_sorting_unique(l1, l2, songs, name_of(), name_order());
}

/// What the menu keeps about the song being chosen.
pub struct UiState<S> {
    pub is_loading: bool,
    pub song: Option<S>,
}

/// The settings of the song library that the pickers change.
pub struct LibraryConfig {
    pub song_directory: Option<PathBuf>,
    pub last_opened_song: Option<PathBuf>,
}

/// The loading work that the caller starts after a picker was used.
pub enum MidiLoad {
    /// Ask the user for one MIDI file, then load it.
    PickFile,
    /// Load the MIDI file at this path.
    FromPath(PathBuf),
}

/// Starts loading a MIDI file that the user picks: the menu shows that it is
/// loading, the current song stays until a new one is loaded.
pub fn open_midi_file_picker<S>(data: &mut UiState<S>) -> (request: MidiLoad)
    ensures
        final(data).is_loading,
        final(data).song == old(data).song,
        request is PickFile,
{
    data.is_loading = true;
    MidiLoad::PickFile
}

/// Starts loading the MIDI file at `song_path`, chosen from the library list.
pub fn load_midi_from_path<S>(data: &mut UiState<S>, song_path: PathBuf) -> (request: MidiLoad)
    ensures
        final(data).is_loading,
        final(data).song == old(data).song,
        request == MidiLoad::FromPath(song_path),
{
    data.is_loading = true;
    MidiLoad::FromPath(song_path)
}

/// Ends a load started by [`open_midi_file_picker`] or [`load_midi_from_path`]:
/// a loaded song becomes the current one and its path the last opened song;
/// a failed or cancelled load changes nothing. Either way loading is over.
pub fn finish_midi_load<S>(data: &mut UiState<S>, config: &mut LibraryConfig, loaded: Option<(S, PathBuf)>)
    ensures
        !final(data).is_loading,
        final(config).song_directory == old(config).song_directory,
        match loaded {
            Some((song, path)) => final(data).song == Some(song) && final(config).last_opened_song
                == Some(path),
            None => final(data).song == old(data).song && final(config).last_opened_song == old(
                config,
            ).last_opened_song,
        },
{
    if let Some((song, path)) = loaded {
        config.last_opened_song = Some(path);
        data.song = Some(song);
    }
    data.is_loading = false;
}

/// Takes the folder picked for the library, if one was picked; returns whether
/// the settings changed and must be saved.
pub fn apply_picked_folder(config: &mut LibraryConfig, folder: Option<PathBuf>) -> (changed: bool)
    ensures
        changed == folder.is_some(),
        final(config).last_opened_song == old(config).last_opened_song,
        final(config).song_directory == (if folder.is_some() { folder } else { old(config).song_directory }),
{
    match folder {
        Some(path) => {
            config.song_directory = Some(path);
            true
        },
        None => false,
    }
}

} // verus!
