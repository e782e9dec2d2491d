//! The track-selection page: which tracks get a card, what each card says,
//! in which order the cards stand, and how the page's buttons change the
//! tracks' configuration.
use vstd::prelude::*;
use vstd::string::*;

use crate::icons::{instrument_icon_of, program_family_icon, InstrumentIcon};
use crate::text::{contains_chars, decimal, decimal_chars, str_contains};

verus! {

/// Who plays a track: nobody, the computer, or the user.
#[derive(Clone, Copy, Debug, PartialEq, Eq, Structural)]
pub enum PlayerConfig {
    Mute,
    Auto,
    Human,
}

/// What the page reads of a track of the MIDI file.
pub struct TrackInfo {
    pub track_id: usize,
    pub track_color_id: usize,
    /// The pitch of each note, in file order.
    pub notes: Vec<u8>,
    /// The last program change of the track, if it has one.
    pub last_program: Option<u8>,
    pub has_drums: bool,
    pub has_other_than_drums: bool,
}

/// The mathematical value of a [`TrackInfo`].
pub struct TrackInfoView {
    pub track_id: usize,
    pub track_color_id: usize,
    pub notes: Seq<u8>,
    pub last_program: Option<u8>,
    pub has_drums: bool,
    pub has_other_than_drums: bool,
}

impl View for TrackInfo {
    type V = TrackInfoView;

    open spec fn view(&self) -> TrackInfoView {
        TrackInfoView {
            track_id: self.track_id,
            track_color_id: self.track_color_id,
            notes: self.notes@,
            last_program: self.last_program,
            has_drums: self.has_drums,
            has_other_than_drums: self.has_other_than_drums,
        }
    }
}

/// The user's settings for one track of the song.
#[derive(Clone, Copy, Debug, PartialEq, Eq, Structural)]
pub struct TrackConfig {
    pub track_id: usize,
    pub visible: bool,
    pub player: PlayerConfig,
}

/// What one card of the grid shows.
pub struct TrackCardData {
    pub track_id: usize,
    pub track_color_id: usize,
    pub visible: bool,
    pub player: PlayerConfig,
    pub instrument_id: usize,
    pub is_percussion: bool,
    pub notes_count: usize,
    pub hand_info: String,
}

/// The mathematical value of a [`TrackCardData`].
pub struct TrackCardView {
    pub track_id: usize,
    pub track_color_id: usize,
    pub visible: bool,
    pub player: PlayerConfig,
    pub instrument_id: usize,
    pub is_percussion: bool,
    pub notes_count: usize,
    pub hand_info: Seq<char>,
}

impl View for TrackCardData {
    type V = TrackCardView;

    open spec fn view(&self) -> TrackCardView {
        TrackCardView {
            track_id: self.track_id,
            track_color_id: self.track_color_id,
            visible: self.visible,
            player: self.player,
            instrument_id: self.instrument_id,
            is_percussion: self.is_percussion,
            notes_count: self.notes_count,
            hand_info: self.hand_info@,
        }
    }
}

pub open spec fn track_views(tracks: Seq<TrackInfo>) -> Seq<TrackInfoView> {
    tracks.map_values(|t: TrackInfo| t@)
}

pub open spec fn card_views(cards: Seq<TrackCardData>) -> Seq<TrackCardView> {
    cards.map_values(|c: TrackCardData| c@)
}

/// The sum of the pitches of `notes`.
pub open spec fn pitch_sum(notes: Seq<u8>) -> nat
    decreases notes.len(),
{
    if notes.len() == 0 {
        0
    } else {
        pitch_sum(notes.drop_last()) + notes.last() as nat
    }
}

/// The mean pitch of `notes`, rounded down; 60 (middle C) when there is no note.
pub open spec fn average_pitch(notes: Seq<u8>) -> nat {
    if notes.len() > 0 {
        pitch_sum(notes) / notes.len()
    } else {
        60
    }
}

pub open spec fn left_hand_label() -> Seq<char> {
    seq![' ', '/', ' ', 'L', 'e', 'f', 't', ' ', 'H', 'a', 'n', 'd']
}

pub open spec fn right_hand_label() -> Seq<char> {
    seq![' ', '/', ' ', 'R', 'i', 'g', 'h', 't', ' ', 'H', 'a', 'n', 'd']
}

/// The program of a track: its last program change, or 0 (acoustic grand piano).
pub open spec fn program_of(last_program: Option<u8>) -> usize {
    match last_program {
        Some(p) => p as usize,
        None => 0,
    }
}

pub open spec fn is_percussion_track(t: TrackInfoView) -> bool {
    t.has_drums && !t.has_other_than_drums
}

/// The hand note of a card: piano tracks (programs 0 to 7) are for the left
/// hand when their mean pitch lies below middle C, else for the right hand;
/// other tracks get none.
pub open spec fn hand_label(instrument_id: usize, is_percussion: bool, notes: Seq<u8>) -> Seq<char> {
    if instrument_id <= 7 && !is_percussion {
        if average_pitch(notes) < 60 {
            left_hand_label()
        } else {
            right_hand_label()
        }
    } else {
        Seq::empty()
    }
}

/// The card of track `t`, whose settings are `config`.
pub open spec fn card_of(t: TrackInfoView, config: TrackConfig) -> TrackCardView {
    TrackCardView {
        track_id: t.track_id,
        track_color_id: t.track_color_id,
        visible: config.visible,
        player: config.player,
        instrument_id: program_of(t.last_program),
        is_percussion: is_percussion_track(t),
        notes_count: t.notes.len() as usize,
        hand_info: hand_label(program_of(t.last_program), is_percussion_track(t), t.notes),
    }
}

pub open spec fn has_notes() -> spec_fn(TrackInfoView) -> bool {
    |t: TrackInfoView| t.notes.len() > 0
}

pub open spec fn card_with(configs: Seq<TrackConfig>) -> spec_fn(TrackInfoView) -> TrackCardView {
    |t: TrackInfoView| card_of(t, configs[t.track_id as int])
}

/// The cards of the tracks that have notes, in file order.
pub open spec fn shown_cards(tracks: Seq<TrackInfoView>, configs: Seq<TrackConfig>) -> Seq<TrackCardView> {
    tracks.filter(has_notes()).map_values(card_with(configs))
}

pub open spec fn is_left_hand_card(c: TrackCardView) -> bool {
    contains_chars(c.hand_info, seq!['L', 'e', 'f', 't', ' ', 'H', 'a', 'n', 'd'])
}

pub open spec fn left_hand() -> spec_fn(TrackCardView) -> bool {
    |c: TrackCardView| is_left_hand_card(c)
}

pub open spec fn not_left_hand() -> spec_fn(TrackCardView) -> bool {
    |c: TrackCardView| !is_left_hand_card(c)
}

/// The cards in grid order: the left-hand cards first, then the others,
/// each group in file order.
pub open spec fn ordered_cards(tracks: Seq<TrackInfoView>, configs: Seq<TrackConfig>) -> Seq<TrackCardView> {
    let all = shown_cards(tracks, configs);
    all.filter(left_hand()) + all.filter(not_left_hand())
}

/// Every track with notes names a configuration.
pub open spec fn configs_cover(tracks: Seq<TrackInfoView>, configs: Seq<TrackConfig>) -> bool {
    forall|i: int|
        0 <= i < tracks.len() && #[trigger] tracks[i].notes.len() > 0 ==> tracks[i].track_id
            < configs.len()
}

/// The mean pitch of the notes, rounded down (60 when there is none).
pub fn average_note(notes: &Vec<u8>) -> (avg: usize)
    ensures
        avg == average_pitch(notes@),
{
    let n = notes.len();
    if n == 0 {
        return 60;
    }
    let mut sum: u128 = 0;
    let mut i: usize = 0;
    while i < n
        invariant
            n == notes@.len(),
            i <= n,
            sum == pitch_sum(notes@.take(i as int)),
            sum <= 255 * i,
        decreases n - i,
    {
        assert(notes@.take(i + 1).drop_last() =~= notes@.take(i as int));
        sum = sum + notes[i] as u128;
        i += 1;
    }
    assert(notes@.take(n as int) =~= notes@);
    let avg = sum / (n as u128);
    assert(avg <= 255) by (nonlinear_arith)
        requires
            avg == sum / (n as u128),
            sum <= 255 * n,
            n > 0,
    ;
    avg as usize
}

/// The hand note of a card, as [`hand_label`] states it.
pub fn hand_info_for(instrument_id: usize, is_percussion: bool, notes: &Vec<u8>) -> (info: String)
    ensures
        info@ == hand_label(instrument_id, is_percussion, notes@),
{
    if instrument_id <= 7 && !is_percussion {
        let avg = average_note(notes);
        if avg < 60 {
            proof {
                reveal_strlit(" / Left Hand");
            }
            let s = String::from_str(" / Left Hand");
            assert(s@ =~= left_hand_label());
            s
        } else {
            proof {
                reveal_strlit(" / Right Hand");
            }
            let s = String::from_str(" / Right Hand");
            assert(s@ =~= right_hand_label());
            s
        }
    } else {
        String::new()
    }
}

/// The card of one track with the given settings.
pub fn track_card_data(track: &TrackInfo, config: &TrackConfig) -> (card: TrackCardData)
    ensures
        card@ == card_of(track@, *config),
{
    let instrument_id: usize = match track.last_program {
        Some(p) => p as usize,
        None => 0,
    };
    let is_percussion = track.has_drums && !track.has_other_than_drums;
    let hand_info = hand_info_for(instrument_id, is_percussion, &track.notes);
    TrackCardData {
        track_id: track.track_id,
        track_color_id: track.track_color_id,
        visible: config.visible,
        player: config.player,
        instrument_id,
        is_percussion,
        notes_count: track.notes.len(),
        hand_info,
    }
}

/// Whether a card's hand note names the left hand.
pub fn is_left_hand(card: &TrackCardData) -> (left: bool)
    ensures
        left == is_left_hand_card(card@),
{
    proof {
        reveal_strlit("Left Hand");
        assert("Left Hand"@ =~= seq!['L', 'e', 'f', 't', ' ', 'H', 'a', 'n', 'd']);
    }
    str_contains(card.hand_info.as_str(), "Left Hand")
}

proof fn lemma_shown_cards_push(tracks: Seq<TrackInfoView>, t: TrackInfoView, configs: Seq<TrackConfig>)
    ensures
        shown_cards(tracks.push(t), configs) == if t.notes.len() > 0 {
            shown_cards(tracks, configs).push(card_of(t, configs[t.track_id as int]))
        } else {
            shown_cards(tracks, configs)
        },
{
    tracks.lemma_filter_push(t, has_notes());
    let f = card_with(configs);
    if t.notes.len() > 0 {
        assert(tracks.filter(has_notes()).push(t).map_values(f) =~= tracks.filter(
            has_notes(),
        ).map_values(f).push(f(t)));
    }
}

/// The cards of the page: one per track that has notes, the left-hand cards
/// first and otherwise in file order.
pub fn track_cards(tracks: &Vec<TrackInfo>, configs: &Vec<TrackConfig>) -> (cards: Vec<TrackCardData>)
    requires
        configs_cover(track_views(tracks@), configs@),
    ensures
        card_views(cards@) == ordered_cards(track_views(tracks@), configs@),
{
    let ghost all_tracks = track_views(tracks@);
    let mut left: Vec<TrackCardData> = Vec::new();
    let mut others: Vec<TrackCardData> = Vec::new();
    let n = tracks.len();
    let mut i: usize = 0;
    while i < n
        invariant
            n == tracks@.len(),
            i <= n,
            all_tracks == track_views(tracks@),
            configs_cover(all_tracks, configs@),
            card_views(left@) == shown_cards(all_tracks.take(i as int), configs@).filter(
                left_hand(),
            ),
            card_views(others@) == shown_cards(all_tracks.take(i as int), configs@).filter(
                not_left_hand(),
            ),
        decreases n - i,
    {
        let track = &tracks[i];
        let ghost before = shown_cards(all_tracks.take(i as int), configs@);
        assert(all_tracks.take(i + 1) =~= all_tracks.take(i as int).push(track@));
        proof {
            lemma_shown_cards_push(all_tracks.take(i as int), track@, configs@);
        }
        if track.notes.len() > 0 {
            assert(all_tracks[i as int] == track@);
            let card = track_card_data(track, &configs[track.track_id]);
            let ghost cv = card@;
            proof {
                before.lemma_filter_push(cv, left_hand());
                before.lemma_filter_push(cv, not_left_hand());
            }
            if is_left_hand(&card) {
                let ghost old_left = left@;
                left.push(card);
                assert(card_views(left@) =~= card_views(old_left).push(cv));
            } else {
                let ghost old_others = others@;
                others.push(card);
                assert(card_views(others@) =~= card_views(old_others).push(cv));
            }
        }
        i += 1;
    }
    assert(all_tracks.take(n as int) =~= all_tracks);
    let ghost l = left@;
    let ghost o = others@;
    left.append(&mut others);
    assert(card_views(left@) =~= card_views(l) + card_views(o));
    left
}

/// The grid holds exactly the left-hand cards and the other cards: as many
/// cards as there are tracks with notes.
pub proof fn lemma_partition_len(cards: Seq<TrackCardView>)
    ensures
        cards.filter(left_hand()).len() + cards.filter(not_left_hand()).len() == cards.len(),
    decreases cards.len(),
{
    if cards.len() > 0 {
        let rest = cards.drop_last();
        lemma_partition_len(rest);
        assert(rest.push(cards.last()) =~= cards);
        rest.lemma_filter_push(cards.last(), left_hand());
        rest.lemma_filter_push(cards.last(), not_left_hand());
    } else {
        reveal(Seq::filter);
    }
}

/// In the grid every left-hand card stands before every other card.
pub proof fn lemma_left_hand_cards_first(
    tracks: Seq<TrackInfoView>,
    configs: Seq<TrackConfig>,
    i: int,
    j: int,
)
    requires
        0 <= i < j < ordered_cards(tracks, configs).len(),
        is_left_hand_card(ordered_cards(tracks, configs)[j]),
    ensures
        is_left_hand_card(ordered_cards(tracks, configs)[i]),
{
    let all = shown_cards(tracks, configs);
    let l = all.filter(left_hand());
    let o = all.filter(not_left_hand());
    let grid = ordered_cards(tracks, configs);
    if j >= l.len() {
        all.lemma_filter_pred(not_left_hand(), j - l.len());
        assert(grid[j] == o[j - l.len()]);
        assert(false);
    }
    all.lemma_filter_pred(left_hand(), i);
    assert(grid[i] == l[i]);
}

/// The grid shows one card per track that has notes.
pub proof fn lemma_one_card_per_track_with_notes(tracks: Seq<TrackInfoView>, configs: Seq<TrackConfig>)
    ensures
        ordered_cards(tracks, configs).len() == tracks.filter(has_notes()).len(),
{
    lemma_partition_len(shown_cards(tracks, configs));
}

proof fn lemma_hand_labels()
    ensures
        contains_chars(left_hand_label(), seq!['L', 'e', 'f', 't']),
        !contains_chars(right_hand_label(), seq!['L', 'e', 'f', 't']),
        contains_chars(right_hand_label(), seq!['R', 'i', 'g', 'h', 't']),
        !contains_chars(Seq::<char>::empty(), seq!['L', 'e', 'f', 't']),
        !contains_chars(Seq::<char>::empty(), seq!['R', 'i', 'g', 'h', 't']),
{
    let left = seq!['L', 'e', 'f', 't'];
    assert(left_hand_label().subrange(3int, 3int + left.len()) =~= left);
    let right = seq!['R', 'i', 'g', 'h', 't'];
    assert(right_hand_label().subrange(3int, 3int + right.len()) =~= right);
    assert forall|i: int|
        0 <= i && i + left.len() <= right_hand_label().len() implies #[trigger] right_hand_label().subrange(
        i,
        i + left.len(),
    ) != left by {
        assert(right_hand_label().subrange(i, i + left.len())[0] == right_hand_label()[i]);
    }
}

/// The picture of a card follows its track: a percussion track shows the
/// percussion; a piano track (programs 0 to 7) shows the left or the right hand
/// by its mean pitch; any other track shows the family of its program.
pub proof fn lemma_card_picture(t: TrackInfoView, config: TrackConfig)
    ensures
        ({
            let c = card_of(t, config);
            instrument_icon_of(c.instrument_id as int, c.is_percussion, c.hand_info) == if is_percussion_track(t) {
                InstrumentIcon::Percussions
            } else if program_of(t.last_program) <= 7 {
                if average_pitch(t.notes) < 60 {
                    InstrumentIcon::PianoLeft
                } else {
                    InstrumentIcon::PianoRight
                }
            } else {
                program_family_icon(program_of(t.last_program) as int)
            }
        }),
{
    lemma_hand_labels();
}

/// What a card says of its track: a card is a percussion card exactly when its
/// track has drum notes and no other notes, so a track with other notes never
/// gets one; a percussion card carries no hand note; the card names the
/// track's last program (0 without one), counts all its notes, and carries the
/// track's id and color and the settings it was given.
pub proof fn lemma_card_follows_track(t: TrackInfoView, config: TrackConfig)
    requires
        t.notes.len() <= usize::MAX,
    ensures
        card_of(t, config).is_percussion == (t.has_drums && !t.has_other_than_drums),
        t.has_other_than_drums ==> !card_of(t, config).is_percussion,
        card_of(t, config).is_percussion ==> card_of(t, config).hand_info.len() == 0,
        card_of(t, config).instrument_id == (match t.last_program {
            Some(p) => p as usize,
            None => 0usize,
        }),
        card_of(t, config).notes_count == t.notes.len(),
        card_of(t, config).track_id == t.track_id,
        card_of(t, config).track_color_id == t.track_color_id,
        card_of(t, config).visible == config.visible,
        card_of(t, config).player == config.player,
{
}

/// The sum of the pitches of two runs of notes is the sum of each.
pub proof fn lemma_pitch_sum_append(a: Seq<u8>, b: Seq<u8>)
    ensures
        pitch_sum(a + b) == pitch_sum(a) + pitch_sum(b),
    decreases b.len(),
{
    if b.len() == 0 {
        assert(a + b =~= a);
    } else {
        assert((a + b).drop_last() =~= a + b.drop_last());
        lemma_pitch_sum_append(a, b.drop_last());
    }
}

/// No note sums to zero, and one note sums to its pitch.
pub proof fn lemma_pitch_sum_small(x: u8)
    ensures
        pitch_sum(Seq::<u8>::empty()) == 0,
        pitch_sum(seq![x]) == x,
{
    assert(seq![x].drop_last() =~= Seq::<u8>::empty());
    assert(seq![x].last() == x);
    assert(pitch_sum(seq![x]) == pitch_sum(seq![x].drop_last()) + seq![x].last() as nat);
}

/// The mean pitch is taken over every note: times the number of notes it is at
/// most the sum of all pitches, and one more times the number of notes exceeds it.
pub proof fn lemma_average_pitch_is_mean(notes: Seq<u8>)
    requires
        notes.len() > 0,
    ensures
        average_pitch(notes) * notes.len() <= pitch_sum(notes),
        pitch_sum(notes) < (average_pitch(notes) + 1) * notes.len(),
{
    let n = notes.len() as int;
    let s = pitch_sum(notes) as int;
    vstd::arithmetic::div_mod::lemma_fundamental_div_mod(s, n);
    vstd::arithmetic::div_mod::lemma_mod_bound(s, n);
    let q = s / n;
    assert(q * n <= s < (q + 1) * n) by (nonlinear_arith)
        requires
            s == n * q + s % n,
            0 <= s % n < n,
    ;
}

/// The hand of a piano track (programs 0 to 7, not percussion) follows the
/// mean pitch of all its notes: the left hand exactly when the pitches sum to
/// less than middle C (60) per note, else the right hand; a track without notes
/// counts as the right hand. Any other track has no hand note.
pub proof fn lemma_hand_by_mean_pitch(instrument_id: usize, is_percussion: bool, notes: Seq<u8>)
    ensures
        instrument_id <= 7 && !is_percussion && notes.len() > 0 ==> (hand_label(
            instrument_id,
            is_percussion,
            notes,
        ) == left_hand_label() <==> pitch_sum(notes) < 60 * notes.len()),
        instrument_id <= 7 && !is_percussion && notes.len() > 0 ==> (hand_label(
            instrument_id,
            is_percussion,
            notes,
        ) == right_hand_label() <==> pitch_sum(notes) >= 60 * notes.len()),
        instrument_id <= 7 && !is_percussion && notes.len() == 0 ==> hand_label(
            instrument_id,
            is_percussion,
            notes,
        ) == right_hand_label(),
        instrument_id > 7 || is_percussion ==> hand_label(instrument_id, is_percussion, notes).len() == 0,
{
    assert(left_hand_label() != right_hand_label()) by {
        assert(left_hand_label().len() != right_hand_label().len());
    }
    if notes.len() > 0 {
        lemma_average_pitch_is_mean(notes);
        let a = average_pitch(notes) as int;
        let n = notes.len() as int;
        let s = pitch_sum(notes) as int;
        assert(a < 60 <==> s < 60 * n) by (nonlinear_arith)
            requires
                a * n <= s < (a + 1) * n,
                n > 0,
        ;
    }
}

/// Width of one card, in logical pixels.
pub const CARD_W: u32 = 344;

/// Height of one card, in logical pixels.
pub const CARD_H: u32 = 126;

/// Gap between two cards, in logical pixels.
pub const CARD_GAP: u32 = 14;

/// How many cards stand in one row of the grid, and how wide that row is.
pub struct CardsLayout {
    pub columns: u8,
    pub width: u32,
}

/// The number of cards that fit side by side in a window of the given width.
pub open spec fn fitting_columns(window_width: u32) -> nat {
    if window_width > 1060 {
        3
    } else if window_width > 702 {
        2
    } else {
        1
    }
}

/// Columns of the grid: as many as fit, at most one per card, at least one.
pub open spec fn layout_columns(window_width: u32, tracks_count: usize) -> nat {
    let fit = fitting_columns(window_width);
    let c = if fit <= tracks_count { fit } else { tracks_count as nat };
    if c >= 1 {
        c
    } else {
        1
    }
}

/// The width of a row of `columns` cards with their gaps.
pub open spec fn row_width(columns: nat) -> u32 {
    if columns == 3 {
        1060
    } else if columns == 2 {
        702
    } else {
        344
    }
}

impl CardsLayout {
    /// The layout of the grid for a window and a number of cards.
    /// `window_width` is the window's logical width rounded up to a whole pixel:
    /// a width exceeds a whole number of pixels exactly when its rounded-up value does.
    pub fn new(window_width: u32, tracks_count: usize) -> (layout: CardsLayout)
        ensures
            layout.columns == layout_columns(window_width, tracks_count),
            layout.width == row_width(layout.columns as nat),
    {
        let layout_1: u32 = CARD_W;
        let layout_2: u32 = layout_1 + CARD_GAP + CARD_W;
        let layout_3: u32 = layout_2 + CARD_GAP + CARD_W;
        let fit: usize = if window_width > layout_3 {
            3
        } else if window_width > layout_2 {
            2
        } else {
            1
        };
        let mut columns: usize = if fit <= tracks_count { fit } else { tracks_count };
        if columns < 1 {
            columns = 1;
        }
        let columns = columns as u8;
        let width = if columns == 3 {
            layout_3
        } else if columns == 2 {
            layout_2
        } else {
            layout_1
        };
        CardsLayout { columns, width }
    }
}

/// The grid has between one and three columns, and no more columns than cards
/// when there is at least one card.
pub proof fn lemma_layout_columns_bounds(window_width: u32, tracks_count: usize)
    ensures
        1 <= layout_columns(window_width, tracks_count) <= 3,
        tracks_count >= 1 ==> layout_columns(window_width, tracks_count) <= tracks_count,
        layout_columns(window_width, tracks_count) <= fitting_columns(window_width),
{
}

/// The grid fills the window's width as far as the cards go: a row of `c`
/// cards is `c` cards wide with a gap between each two; a row of two or more
/// cards fits inside the window; and one card more would not fit, unless there
/// are no more cards or the row already holds three.
pub proof fn lemma_layout_fits(window_width: u32, tracks_count: usize)
    ensures
        ({
            let c = layout_columns(window_width, tracks_count);
            &&& row_width(c) == c * CARD_W + (c - 1) * CARD_GAP
            &&& c >= 2 ==> row_width(c) < window_width
            &&& c < 3 && c < tracks_count ==> (c + 1) * CARD_W + c * CARD_GAP >= window_width
        }),
{
}

/// The place of a card on the grid: its column, from the left, and its row,
/// from the top.
#[derive(Clone, Copy, Debug, PartialEq, Eq, Structural)]
pub struct GridCell {
    pub column: usize,
    pub row: usize,
}

/// The cell of card `k` on a grid of `columns` columns filled row by row.
pub open spec fn cell_of(k: int, columns: int) -> GridCell {
    GridCell { column: (k % columns) as usize, row: (k / columns) as usize }
}

/// The cells of the cards of the track page, in card order: the page fills one
/// row of `columns` cards after the other and stops in the first row in which
/// the cards run out, so that every card is drawn once, card `k` in column
/// `k % columns` of row `k / columns`.
pub fn card_grid(card_count: usize, columns: u8) -> (cells: Vec<GridCell>)
    requires
        columns >= 1,
    ensures
        cells@.len() == card_count,
        forall|k: int| 0 <= k < card_count ==> #[trigger] cells@[k] == cell_of(k, columns as int),
{
    let columns: usize = columns as usize;
    let mut cells: Vec<GridCell> = Vec::new();
    let mut k: usize = 0;
    let mut row: usize = 0;
    loop
        invariant_except_break
            k == row * columns,
        invariant
            columns >= 1,
            k <= card_count,
            cells@.len() == k,
            forall|i: int| 0 <= i < k ==> #[trigger] cells@[i] == cell_of(i, columns as int),
        ensures
            cells@.len() == card_count,
            forall|i: int| 0 <= i < card_count ==> #[trigger] cells@[i] == cell_of(i, columns as int),
        decreases card_count - k,
    {
        let mut end = false;
        let mut column: usize = 0;
        while column < columns
            invariant
                columns >= 1,
                column <= columns,
                k <= card_count,
                k == row * columns + column,
                cells@.len() == k,
                forall|i: int| 0 <= i < k ==> #[trigger] cells@[i] == cell_of(i, columns as int),
                end ==> k == card_count,
            ensures
                columns >= 1,
                k <= card_count,
                k == row * columns + column,
                cells@.len() == k,
                forall|i: int| 0 <= i < k ==> #[trigger] cells@[i] == cell_of(i, columns as int),
                end ==> k == card_count,
                !end ==> column == columns,
            decreases columns - column,
        {
            if k == card_count {
                end = true;
                break;
            }
            proof {
                vstd::arithmetic::div_mod::lemma_fundamental_div_mod_converse(
                    k as int,
                    columns as int,
                    row as int,
                    column as int,
                );
            }
            cells.push(GridCell { column, row });
            k += 1;
            column += 1;
        }
        if end {
            break;
        }
        assert(k == (row + 1) * columns) by (nonlinear_arith)
            requires
                k == row * columns + column,
                column == columns,
        ;
        assert(row + 1 <= k) by (nonlinear_arith)
            requires
                k == (row + 1) * columns,
                columns >= 1,
        ;
        row += 1;
    }
    cells
}

/// The setting of every track after the "Listen Only" (`Auto`) or
/// "Play Along" (`Human`) button: every track gets `player`, nothing else changes.
pub open spec fn with_player(configs: Seq<TrackConfig>, player: PlayerConfig) -> Seq<TrackConfig> {
    configs.map_values(|c: TrackConfig| TrackConfig { track_id: c.track_id, visible: c.visible, player })
}

/// Gives every track the same player.
pub fn set_all_players(configs: &mut Vec<TrackConfig>, player: PlayerConfig)
    ensures
        final(configs)@ == with_player(old(configs)@, player),
{
    let n = configs.len();
    let mut i: usize = 0;
    while i < n
        invariant
            n == configs@.len(),
            n == old(configs)@.len(),
            i <= n,
            forall|k: int| 0 <= k < i ==> configs@[k] == (TrackConfig { track_id: old(configs)@[k].track_id, visible: old(configs)@[k].visible, player }),
            forall|k: int| i <= k < n ==> configs@[k] == old(configs)@[k],
        decreases n - i,
    {
        let mut c = configs[i];
        c.player = player;
        configs.set(i, c);
        i += 1;
    }
    assert(configs@ =~= with_player(old(configs)@, player));
}

/// What a card asks of the page after a frame.
#[derive(Clone, Copy, Debug, PartialEq, Eq, Structural)]
pub enum TrackCardEvent {
    PlayerConfig(PlayerConfig),
    SetVisible(bool),
    Idle,
}

/// The event of a card whose buttons were clicked this frame. The buttons are
/// read in the order eye, mute, auto, human, and a later click overrides an earlier one.
pub open spec fn card_event_of(
    eye_clicked: bool,
    mute_clicked: bool,
    auto_clicked: bool,
    human_clicked: bool,
    visible: bool,
) -> TrackCardEvent {
    if human_clicked {
        TrackCardEvent::PlayerConfig(PlayerConfig::Human)
    } else if auto_clicked {
        TrackCardEvent::PlayerConfig(PlayerConfig::Auto)
    } else if mute_clicked {
        TrackCardEvent::PlayerConfig(PlayerConfig::Mute)
    } else if eye_clicked {
        TrackCardEvent::SetVisible(!visible)
    } else {
        TrackCardEvent::Idle
    }
}

/// The clicks of a card: a player button sets that player whatever else was
/// clicked, Human over Auto over Mute; the eye alone flips the card's
/// visibility; no click asks for nothing.
pub proof fn lemma_card_event_rules(eye: bool, mute: bool, auto: bool, human: bool, visible: bool)
    ensures
        human ==> card_event_of(eye, mute, auto, human, visible) == TrackCardEvent::PlayerConfig(PlayerConfig::Human),
        !human && auto ==> card_event_of(eye, mute, auto, human, visible) == TrackCardEvent::PlayerConfig(
            PlayerConfig::Auto,
        ),
        !human && !auto && mute ==> card_event_of(eye, mute, auto, human, visible) == TrackCardEvent::PlayerConfig(
            PlayerConfig::Mute,
        ),
        !human && !auto && !mute && eye ==> card_event_of(eye, mute, auto, human, visible)
            == TrackCardEvent::SetVisible(!visible),
        !human && !auto && !mute && !eye ==> card_event_of(eye, mute, auto, human, visible) is Idle,
{
}

/// The event of a card, from the clicks on its eye and player buttons.
pub fn card_event(
    eye_clicked: bool,
    mute_clicked: bool,
    auto_clicked: bool,
    human_clicked: bool,
    visible: bool,
) -> (event: TrackCardEvent)
    ensures
        event == card_event_of(eye_clicked, mute_clicked, auto_clicked, human_clicked, visible),
{
    let mut res = TrackCardEvent::Idle;
    if eye_clicked {
        res = TrackCardEvent::SetVisible(!visible);
    }
    if mute_clicked {
        res = TrackCardEvent::PlayerConfig(PlayerConfig::Mute);
    }
    if auto_clicked {
        res = TrackCardEvent::PlayerConfig(PlayerConfig::Auto);
    }
    if human_clicked {
        res = TrackCardEvent::PlayerConfig(PlayerConfig::Human);
    }
    res
}

/// The settings after one card event for track `track_id`.
pub open spec fn apply_card_event(
    configs: Seq<TrackConfig>,
    track_id: usize,
    event: TrackCardEvent,
) -> Seq<TrackConfig> {
    let c = configs[track_id as int];
    match event {
        TrackCardEvent::PlayerConfig(p) => configs.update(
            track_id as int,
            TrackConfig { track_id: c.track_id, visible: c.visible, player: p },
        ),
        TrackCardEvent::SetVisible(v) => configs.update(
            track_id as int,
            TrackConfig { track_id: c.track_id, visible: v, player: c.player },
        ),
        TrackCardEvent::Idle => configs,
    }
}

/// The settings after the events, applied in order.
pub open spec fn apply_card_events_to(
    configs: Seq<TrackConfig>,
    events: Seq<(usize, TrackCardEvent)>,
) -> Seq<TrackConfig>
    decreases events.len(),
{
    if events.len() == 0 {
        configs
    } else {
        let before = apply_card_events_to(configs, events.drop_last());
        apply_card_event(before, events.last().0, events.last().1)
    }
}

/// One event changes its own track alone: a player event sets the player and
/// keeps the track's visibility, a visibility event sets the visibility and
/// keeps the player, an idle event changes nothing; every other track keeps
/// its settings, and each track its id.
pub proof fn lemma_card_event_effect(configs: Seq<TrackConfig>, track_id: usize, event: TrackCardEvent)
    requires
        track_id < configs.len(),
    ensures
        apply_card_event(configs, track_id, event).len() == configs.len(),
        forall|i: int|
            0 <= i < configs.len() && i != track_id ==> #[trigger] apply_card_event(configs, track_id, event)[i]
                == configs[i],
        apply_card_event(configs, track_id, event)[track_id as int].track_id == configs[track_id as int].track_id,
        event matches TrackCardEvent::PlayerConfig(p) ==> apply_card_event(configs, track_id, event)[track_id as int].player
            == p && apply_card_event(configs, track_id, event)[track_id as int].visible == configs[track_id as int].visible,
        event matches TrackCardEvent::SetVisible(v) ==> apply_card_event(configs, track_id, event)[track_id as int].visible
            == v && apply_card_event(configs, track_id, event)[track_id as int].player == configs[track_id as int].player,
        event is Idle ==> apply_card_event(configs, track_id, event) == configs,
{
}

/// Only visibility events change visibility, and only player events change
/// players: after a run of events, the tracks keep their number and ids; with
/// no visibility event among them every track is as visible as before, and with
/// no player event every track keeps its player.
pub proof fn lemma_events_change_only_their_setting(
    configs: Seq<TrackConfig>,
    events: Seq<(usize, TrackCardEvent)>,
)
    requires
        forall|k: int| 0 <= k < events.len() ==> (#[trigger] events[k]).0 < configs.len(),
    ensures
        apply_card_events_to(configs, events).len() == configs.len(),
        forall|i: int|
            0 <= i < configs.len() ==> (#[trigger] apply_card_events_to(configs, events)[i]).track_id
                == configs[i].track_id,
        (forall|k: int| 0 <= k < events.len() ==> !((#[trigger] events[k]).1 is SetVisible)) ==> forall|i: int|
            0 <= i < configs.len() ==> (#[trigger] apply_card_events_to(configs, events)[i]).visible
                == configs[i].visible,
        (forall|k: int| 0 <= k < events.len() ==> !((#[trigger] events[k]).1 is PlayerConfig)) ==> forall|i: int|
            0 <= i < configs.len() ==> (#[trigger] apply_card_events_to(configs, events)[i]).player
                == configs[i].player,
    decreases events.len(),
{
    if events.len() > 0 {
        let rest = events.drop_last();
        assert forall|k: int| 0 <= k < rest.len() implies (#[trigger] rest[k]).0 < configs.len() by {
            assert(rest[k] == events[k]);
        }
        lemma_events_change_only_their_setting(configs, rest);
        let before = apply_card_events_to(configs, rest);
        let last = events.last();
        assert(last == events[events.len() - 1]);
        lemma_card_event_effect(before, last.0, last.1);
        if forall|k: int| 0 <= k < events.len() ==> !((#[trigger] events[k]).1 is SetVisible) {
            assert forall|k: int| 0 <= k < rest.len() implies !((#[trigger] rest[k]).1 is SetVisible) by {
                assert(rest[k] == events[k]);
            }
        }
        if forall|k: int| 0 <= k < events.len() ==> !((#[trigger] events[k]).1 is PlayerConfig) {
            assert forall|k: int| 0 <= k < rest.len() implies !((#[trigger] rest[k]).1 is PlayerConfig) by {
                assert(rest[k] == events[k]);
            }
        }
    }
}

/// "Listen Only" and "Play Along" set the player of every track and keep each
/// track's id and visibility.
pub proof fn lemma_all_players_keep_visibility(configs: Seq<TrackConfig>, player: PlayerConfig)
    ensures
        with_player(configs, player).len() == configs.len(),
        forall|i: int|
            0 <= i < configs.len() ==> (#[trigger] with_player(configs, player)[i]).player == player
                && with_player(configs, player)[i].visible == configs[i].visible
                && with_player(configs, player)[i].track_id == configs[i].track_id,
{
}

/// Applies the events of the cards to the settings of the tracks, in order.
pub fn apply_card_events(configs: &mut Vec<TrackConfig>, events: &Vec<(usize, TrackCardEvent)>)
    requires
        forall|k: int| 0 <= k < events@.len() ==> (#[trigger] events@[k]).0 < old(configs)@.len(),
    ensures
        final(configs)@ == apply_card_events_to(old(configs)@, events@),
{
    let n = events.len();
    let mut i: usize = 0;
    while i < n
        invariant
            n == events@.len(),
            i <= n,
            forall|k: int| 0 <= k < events@.len() ==> (#[trigger] events@[k]).0 < old(configs)@.len(),
            configs@ == apply_card_events_to(old(configs)@, events@.take(i as int)),
            configs@.len() == old(configs)@.len(),
        decreases n - i,
    {
        let (track_id, event) = events[i];
        assert(events@.take(i + 1).drop_last() =~= events@.take(i as int));
        assert(events@.take(i + 1).last() == events@[i as int]);
        match event {
            TrackCardEvent::PlayerConfig(p) => {
                let mut c = configs[track_id];
                c.player = p;
                configs.set(track_id, c);
            },
            TrackCardEvent::SetVisible(v) => {
                let mut c = configs[track_id];
                c.visible = v;
                configs.set(track_id, c);
            },
            TrackCardEvent::Idle => {},
        }
        i += 1;
    }
    assert(events@.take(n as int) =~= events@);
}

/// Which entry of the color scheme a card is drawn in: none (grey) for a hidden
/// track, else the track's color number taken round the scheme.
pub fn track_color_slot(visible: bool, track_color_id: usize, scheme_len: usize) -> (slot: Option<usize>)
    requires
        visible ==> scheme_len > 0,
    ensures
        slot == (if visible { Some((track_color_id % scheme_len) as usize) } else { None::<usize> }),
{
    if !visible {
        None
    } else {
        Some(track_color_id % scheme_len)
    }
}

/// The first line of a card: "Percussion", or the name of the track's instrument.
#[derive(Clone, Copy, Debug, PartialEq, Eq, Structural)]
pub enum CardTitle {
    Percussion,
    /// The General MIDI instrument of this program number.
    Instrument(usize),
}

/// The title of a card: percussion tracks are titled "Percussion", others by
/// their instrument.
pub fn card_title(is_percussion: bool, instrument_id: usize) -> (title: CardTitle)
    ensures
        title == (if is_percussion { CardTitle::Percussion } else { CardTitle::Instrument(instrument_id) }),
{
    if is_percussion {
        CardTitle::Percussion
    } else {
        CardTitle::Instrument(instrument_id)
    }
}

/// The second line of a card: `"{notes} Notes{hand}"`.
pub open spec fn subtitle_chars(notes_count: usize, hand_info: Seq<char>) -> Seq<char> {
    decimal_chars(notes_count as nat) + seq![' ', 'N', 'o', 't', 'e', 's'] + hand_info
}

/// The second line of a card: the number of notes and the hand note.
pub fn card_subtitle(notes_count: usize, hand_info: &str) -> (subtitle: String)
    ensures
        subtitle@ == subtitle_chars(notes_count, hand_info@),
{
    let mut s = decimal(notes_count);
    proof {
        reveal_strlit(" Notes");
        assert(" Notes"@ =~= seq![' ', 'N', 'o', 't', 'e', 's']);
    }
    s.append(" Notes");
    s.append(hand_info);
    s
}

pub open spec fn hidden() -> spec_fn(TrackConfig) -> bool {
    |c: TrackConfig| !c.visible
}

/// The ids of the tracks the user has hidden, in order.
pub open spec fn hidden_track_ids(configs: Seq<TrackConfig>) -> Seq<usize> {
    configs.filter(hidden()).map_values(|c: TrackConfig| c.track_id)
}

/// The waterfall leaves out exactly the hidden tracks: an id is listed when and
/// only when a track with that id is hidden, and there are no more ids than tracks.
pub proof fn lemma_hidden_ids(configs: Seq<TrackConfig>)
    ensures
        hidden_track_ids(configs).len() <= configs.len(),
        forall|id: usize|
            #[trigger] hidden_track_ids(configs).contains(id) <==> exists|i: int|
                0 <= i < configs.len() && !(#[trigger] configs[i]).visible && configs[i].track_id == id,
{
    let f = configs.filter(hidden());
    let ids = hidden_track_ids(configs);
    configs.lemma_filter_len(hidden());
    assert forall|id: usize| #[trigger] ids.contains(id) implies exists|i: int|
        0 <= i < configs.len() && !(#[trigger] configs[i]).visible && configs[i].track_id == id by {
        let j = choose|j: int| 0 <= j < ids.len() && ids[j] == id;
        configs.lemma_filter_pred(hidden(), j);
        assert(f.contains(f[j]));
        configs.lemma_filter_contains_rev(hidden(), f[j]);
        let i = choose|i: int| 0 <= i < configs.len() && configs[i] == f[j];
        assert(!configs[i].visible && configs[i].track_id == id);
    }
    assert forall|id: usize| (exists|i: int|
        0 <= i < configs.len() && !(#[trigger] configs[i]).visible && configs[i].track_id == id) implies #[trigger] ids.contains(id) by {
        let i = choose|i: int| 0 <= i < configs.len() && !(#[trigger] configs[i]).visible && configs[i].track_id == id;
        configs.lemma_filter_contains(hidden(), i);
        let j = choose|j: int| 0 <= j < f.len() && f[j] == configs[i];
        assert(ids[j] == id);
    }
}

/// The ids of the hidden tracks, which the waterfall leaves out.
pub fn hidden_tracks(configs: &Vec<TrackConfig>) -> (ids: Vec<usize>)
    ensures
        ids@ == hidden_track_ids(configs@),
{
    let mut ids: Vec<usize> = Vec::new();
    let n = configs.len();
    let mut i: usize = 0;
    while i < n
        invariant
            n == configs@.len(),
            i <= n,
            ids@ == hidden_track_ids(configs@.take(i as int)),
        decreases n - i,
    {
        let c = configs[i];
        assert(configs@.take(i + 1) =~= configs@.take(i as int).push(c));
        proof {
            configs@.take(i as int).lemma_filter_push(c, hidden());
        }
        if !c.visible {
            ids.push(c.track_id);
            assert(ids@ =~= hidden_track_ids(configs@.take(i + 1)));
        }
        i += 1;
    }
    assert(configs@.take(n as int) =~= configs@);
    ids
}

} // verus!
