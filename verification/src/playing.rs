//! The decisions of the playing scene, frame by frame: which keys glow, which
//! notes were struck again, when the loop starts over, when the song is
//! finished, and what the keyboard shortcuts change.
use vstd::prelude::*;
use vstd::string::*;

use std::collections::HashSet;

verus! {

/// The color a key glows in this frame: the color of the file's note on that
/// key, when the user presses the key or when the key is not waiting for the user.
pub open spec fn glow_color_of<C>(user_pressed: bool, file_color: Option<C>, human_waiting: bool) -> Option<C> {
    if user_pressed || !human_waiting {
        file_color
    } else {
        None
    }
}

/// Whether and in which color a key glows: a key pressed by the user glows in
/// the file's color; a key played by the file glows unless it waits for the user.
pub fn glow_color<C: Copy>(user_pressed: bool, file_color: Option<C>, human_waiting: bool) -> (color: Option<C>)
    ensures
        color == glow_color_of(user_pressed, file_color, human_waiting),
{
    let is_file_active = file_color.is_some();
    if user_pressed {
        file_color
    } else if is_file_active && !human_waiting {
        file_color
    } else {
        None
    }
}

/// Which keys glow: a key the user presses glows in the color of the file's
/// note on it whenever the file plays it, whether or not the play-along waits
/// on it; a key that the file does not play never glows; a key that waits for
/// the user and is not pressed does not glow; a key that does not wait glows
/// exactly when the file plays it.
pub proof fn lemma_glow_color_rules<C>(user_pressed: bool, file_color: Option<C>, human_waiting: bool)
    ensures
        user_pressed ==> glow_color_of(user_pressed, file_color, human_waiting) == file_color,
        file_color is None ==> glow_color_of(user_pressed, file_color, human_waiting) is None,
        !user_pressed && human_waiting ==> glow_color_of(user_pressed, file_color, human_waiting) is None,
        !human_waiting ==> glow_color_of(user_pressed, file_color, human_waiting) == file_color,
{
}

/// The MIDI note of a key: its index on the keyboard plus the first note of the
/// keyboard's range, kept to its low byte.
pub fn key_note(key_id: usize, range_start: usize) -> (note: u8)
    requires
        key_id + range_start <= usize::MAX,
    ensures
        note as int == (key_id + range_start) % 256,
{
    ((key_id + range_start) % 256) as u8
}

/// What the playing scene reads of a MIDI message from the file.
#[derive(Clone, Copy, Debug, PartialEq, Eq, Structural)]
pub enum NoteEvent {
    NoteOn { key: u8, vel: u8 },
    Other,
}

/// Whether `event` strikes `key`: a note-on of that key with a non-zero velocity.
pub open spec fn strikes(event: NoteEvent, key: u8) -> bool {
    match event {
        NoteEvent::NoteOn { key: k, vel } => k == key && vel > 0,
        NoteEvent::Other => false,
    }
}

/// The keys struck by some event of `events`.
pub open spec fn struck_keys(events: Seq<NoteEvent>) -> Set<u8> {
    Set::new(|key: u8| exists|i: int| 0 <= i < events.len() && strikes(#[trigger] events[i], key))
}

/// The notes struck again in this frame: those that a note-on with a non-zero
/// velocity started; the glow of these keys flashes anew.
pub fn retriggered_notes(events: &Vec<NoteEvent>) -> (notes: HashSet<u8>)
    ensures
        notes@ == struck_keys(events@),
{
    let mut notes: HashSet<u8> = HashSet::new();
    let n = events.len();
    let mut i: usize = 0;
    while i < n
        invariant
            n == events@.len(),
            i <= n,
            forall|key: u8|
                #![trigger notes@.contains(key)]
                notes@.contains(key) <==> exists|j: int| 0 <= j < i && strikes(#[trigger] events@[j], key),
        decreases n - i,
    {
        let event = events[i];
        match event {
            NoteEvent::NoteOn { key, vel } => {
                if vel > 0 {
                    notes.insert(key);
                }
            },
            NoteEvent::Other => {},
        }
        assert forall|key: u8|
            #![trigger notes@.contains(key)]
            notes@.contains(key) <==> exists|j: int| 0 <= j < i + 1 && strikes(#[trigger] events@[j], key) by {
            if strikes(events@[i as int], key) {
                assert(0 <= i < i + 1 && strikes(events@[i as int], key));
            }
        }
        i += 1;
    }
    assert(notes@ =~= struck_keys(events@));
    notes
}

/// What the glow reads of one key in a frame.
#[derive(Clone, Copy, Debug, PartialEq, Eq, Structural)]
pub struct KeyGlowInput<C> {
    /// The user holds the key down.
    pub user_pressed: bool,
    /// The color of the file's note on the key, if the file plays it.
    pub file_color: Option<C>,
    /// The play-along waits for the user to press this key's note.
    pub human_waiting: bool,
}

/// A key whose glow is drawn in this frame.
#[derive(Clone, Copy, Debug, PartialEq, Eq, Structural)]
pub struct GlowPush<C> {
    /// The index of the key on the keyboard.
    pub key: usize,
    pub color: C,
    /// The key's note was struck again in this frame.
    pub retrigger: bool,
}

/// The glows of the keys, in keyboard order: a key glows when it has a state
/// and [`glow_color_of`] gives it a color; its glow restarts when its note is
/// among the notes struck again.
pub open spec fn glow_pushes_of<C>(
    key_ids: Seq<usize>,
    states: Seq<KeyGlowInput<C>>,
    range_start: usize,
    struck: Set<u8>,
) -> Seq<GlowPush<C>>
    decreases key_ids.len(),
{
    if key_ids.len() == 0 {
        Seq::empty()
    } else {
        let idx = key_ids.len() - 1;
        let rest = glow_pushes_of(key_ids.drop_last(), states, range_start, struck);
        if idx < states.len() {
            let st = states[idx];
            match glow_color_of(st.user_pressed, st.file_color, st.human_waiting) {
                Some(color) => rest.push(
                    GlowPush {
                        key: idx as usize,
                        color,
                        retrigger: struck.contains(((key_ids[idx] + range_start) % 256) as u8),
                    },
                ),
                None => rest,
            }
        } else {
            rest
        }
    }
}

/// The glows of a frame are those of its keys: each glow is that of a key with
/// a state, in the color of the file's note on it, and restarts exactly when
/// the key's note was struck again; and every key that the user
/// presses while the file plays it glows, in that color.
pub proof fn lemma_pushes_follow_keys<C>(
    key_ids: Seq<usize>,
    states: Seq<KeyGlowInput<C>>,
    range_start: usize,
    struck: Set<u8>,
)
    requires
        key_ids.len() <= usize::MAX,
    ensures
        forall|j: int|
            0 <= j < glow_pushes_of(key_ids, states, range_start, struck).len() ==> {
                let push = #[trigger] glow_pushes_of(key_ids, states, range_start, struck)[j];
                &&& push.key < key_ids.len()
                &&& push.key < states.len()
                &&& states[push.key as int].file_color == Some(push.color)
                &&& push.retrigger == struck.contains(((key_ids[push.key as int] + range_start) % 256) as u8)
            },
        forall|i: int|
            0 <= i < key_ids.len() && 0 <= i < states.len() && (#[trigger] states[i]).user_pressed
                && states[i].file_color is Some ==> exists|j: int|
                0 <= j < glow_pushes_of(key_ids, states, range_start, struck).len() && {
                    let push = #[trigger] glow_pushes_of(key_ids, states, range_start, struck)[j];
                    push.key == i && Some(push.color) == states[i].file_color
                },
    decreases key_ids.len(),
{
    if key_ids.len() > 0 {
        let rest_ids = key_ids.drop_last();
        let idx = key_ids.len() - 1;
        lemma_pushes_follow_keys(rest_ids, states, range_start, struck);
        let rest = glow_pushes_of(rest_ids, states, range_start, struck);
        let all = glow_pushes_of(key_ids, states, range_start, struck);
        if idx < states.len() {
            let st = states[idx];
            lemma_glow_color_rules(st.user_pressed, st.file_color, st.human_waiting);
            match glow_color_of(st.user_pressed, st.file_color, st.human_waiting) {
                Some(color) => {
                    assert(all == rest.push(
                        GlowPush {
                            key: idx as usize,
                            color,
                            retrigger: struck.contains(((key_ids[idx] + range_start) % 256) as u8),
                        },
                    ));
                    assert forall|i: int|
                        0 <= i < key_ids.len() && 0 <= i < states.len() && (#[trigger] states[i]).user_pressed
                            && states[i].file_color is Some implies exists|j: int|
                        0 <= j < all.len() && {
                            let push = #[trigger] all[j];
                            push.key == i && Some(push.color) == states[i].file_color
                        } by {
                        if i == idx {
                            assert(all[rest.len() as int].key == i);
                        } else {
                            let j = choose|j: int|
                                0 <= j < rest.len() && {
                                    let push = #[trigger] rest[j];
                                    push.key == i && Some(push.color) == states[i].file_color
                                };
                            assert(all[j] == rest[j]);
                        }
                    }
                    assert forall|j: int| 0 <= j < all.len() implies {
                        let push = #[trigger] all[j];
                        &&& push.key < key_ids.len()
                        &&& push.key < states.len()
                        &&& states[push.key as int].file_color == Some(push.color)
                        &&& push.retrigger == struck.contains(((key_ids[push.key as int] + range_start) % 256) as u8)
                    } by {
                        if j < rest.len() {
                            assert(all[j] == rest[j]);
                            assert(key_ids[rest[j].key as int] == rest_ids[rest[j].key as int]);
                        }
                    }
                },
                None => {
                    assert(all == rest);
                },
            }
        } else {
            assert(all == rest);
        }
    }
}

/// The keys that glow in this frame, with their colors and whether their glow
/// starts anew. `key_ids` holds each key's index in the keyboard's range, and
/// `states[i]` what the frame says of key `i`.
pub fn glow_pushes<C: Copy>(
    key_ids: &Vec<usize>,
    states: &Vec<KeyGlowInput<C>>,
    range_start: usize,
    retriggered: &HashSet<u8>,
) -> (pushes: Vec<GlowPush<C>>)
    requires
        forall|i: int| 0 <= i < key_ids@.len() ==> #[trigger] key_ids@[i] + range_start <= usize::MAX,
    ensures
        pushes@ == glow_pushes_of(key_ids@, states@, range_start, retriggered@),
{
    let mut pushes: Vec<GlowPush<C>> = Vec::new();
    let n = key_ids.len();
    let mut idx: usize = 0;
    while idx < n
        invariant
            n == key_ids@.len(),
            idx <= n,
            forall|i: int| 0 <= i < key_ids@.len() ==> #[trigger] key_ids@[i] + range_start <= usize::MAX,
            pushes@ == glow_pushes_of(key_ids@.take(idx as int), states@, range_start, retriggered@),
        decreases n - idx,
    {
        assert(key_ids@.take(idx + 1).drop_last() =~= key_ids@.take(idx as int));
        assert(key_ids@.take(idx + 1)[idx as int] == key_ids@[idx as int]);
        let note = key_note(key_ids[idx], range_start);
        if idx < states.len() {
            let st = states[idx];
            match glow_color(st.user_pressed, st.file_color, st.human_waiting) {
                Some(color) => {
                    let retrigger = retriggered.contains(&note);
                    pushes.push(GlowPush { key: idx, color, retrigger });
                },
                None => {},
            }
        }
        idx += 1;
    }
    assert(key_ids@.take(n as int) =~= key_ids@);
    pushes
}

/// Whether the loop starts over: the looper is on and the song is past the loop's end.
pub fn should_restart_loop(looper_active: bool, time_nanos: u128, loop_end_nanos: u128) -> (restart: bool)
    ensures
        restart == (looper_active && time_nanos > loop_end_nanos),
{
    looper_active && time_nanos > loop_end_nanos
}

/// The largest span a `Duration` holds, in nanoseconds.
pub open spec fn max_duration_nanos() -> int {
    18446744073709551616 * 1000000000 - 1
}

/// The time the song advances in a frame of `delta_nanos`: the frame in tenths
/// (rounded down to a nanosecond), times the speed in tenths.
pub fn scaled_delta(delta_nanos: u128, speed_tenths: u32) -> (advance: u128)
    requires
        delta_nanos <= max_duration_nanos(),
        (delta_nanos / 10) * speed_tenths <= max_duration_nanos(),
    ensures
        advance == (delta_nanos / 10) * speed_tenths,
{
    let tenth = delta_nanos / 10;
    assert(tenth * speed_tenths <= max_duration_nanos());
    tenth * (speed_tenths as u128)
}

/// What the player does in a frame.
#[derive(Clone, Copy, Debug, PartialEq, Eq, Structural)]
pub struct FrameStep {
    /// Jump back to the loop's start and release the keys, before advancing.
    pub restart_loop: bool,
    /// How far the song advances, in nanoseconds; none while the play-along
    /// waits for keys the user has not pressed.
    pub advance_nanos: Option<u128>,
}

/// The player's step in a frame: the loop starts over when the looper is on and
/// the song is past the loop's end; the song advances by the scaled frame time
/// only when every key the play-along requires is pressed.
pub fn frame_step(
    looper_active: bool,
    time_nanos: u128,
    loop_end_nanos: u128,
    required_keys_pressed: bool,
    delta_nanos: u128,
    speed_tenths: u32,
) -> (step: FrameStep)
    requires
        required_keys_pressed ==> delta_nanos <= max_duration_nanos(),
        required_keys_pressed ==> (delta_nanos / 10) * speed_tenths <= max_duration_nanos(),
    ensures
        step.restart_loop == (looper_active && time_nanos > loop_end_nanos),
        step.advance_nanos == (if required_keys_pressed {
            Some(((delta_nanos / 10) * speed_tenths) as u128)
        } else {
            None::<u128>
        }),
{
    let restart_loop = should_restart_loop(looper_active, time_nanos, loop_end_nanos);
    let advance_nanos = if required_keys_pressed {
        Some(scaled_delta(delta_nanos, speed_tenths))
    } else {
        None
    };
    FrameStep { restart_loop, advance_nanos }
}

/// Whether the song ends now: it has run out, is not paused, and was not ended before.
pub fn should_finish(is_finished: bool, is_paused: bool, already_finished: bool) -> (finish: bool)
    ensures
        finish == (is_finished && !is_paused && !already_finished),
{
    is_finished && !is_paused && !already_finished
}

/// What the playing scene reads of a window event.
#[derive(Clone, Copy, Debug, PartialEq, Eq, Structural)]
pub struct WindowInput {
    pub back_mouse_pressed: bool,
    pub escape_released: bool,
    pub space_released: bool,
    pub resized: bool,
    pub scale_factor_changed: bool,
    pub rewinding: bool,
}

/// What the playing scene does about a window event.
#[derive(Clone, Copy, Debug, PartialEq, Eq, Structural)]
pub struct WindowReaction {
    /// Release every key of the keyboard (while rewinding).
    pub reset_keys: bool,
    /// Record the play and leave for the stats page.
    pub finish: bool,
    /// Pause a playing song, or resume a paused one.
    pub toggle_pause: bool,
    /// Lay the scene out anew.
    pub resize: bool,
}

/// The reaction to a window event: rewinding releases the keys, the back
/// button or Escape ends the play, Space pauses or resumes, a new size or scale
/// lays the scene out anew.
pub fn window_reaction(input: WindowInput) -> (reaction: WindowReaction)
    ensures
        reaction == (WindowReaction {
            reset_keys: input.rewinding,
            finish: input.back_mouse_pressed || input.escape_released,
            toggle_pause: input.space_released,
            resize: input.resized || input.scale_factor_changed,
        }),
{
    WindowReaction {
        reset_keys: input.rewinding,
        finish: input.back_mouse_pressed || input.escape_released,
        toggle_pause: input.space_released,
        resize: input.resized || input.scale_factor_changed,
    }
}

/// The keys of a window event that the settings shortcuts read.
pub struct SettingsInput<'a> {
    pub arrow_up_released: bool,
    pub arrow_down_released: bool,
    pub page_up_released: bool,
    pub page_down_released: bool,
    /// The text of a released character key, if any.
    pub character_released: Option<&'a str>,
    pub shift: bool,
}

/// A change of a playback setting, in thousandths of its unit.
#[derive(Clone, Copy, Debug, PartialEq, Eq, Structural)]
pub enum SettingsChange {
    /// Add to the speed multiplier.
    Speed(i32),
    /// Add to the falling speed of the notes.
    AnimationSpeed(i32),
    /// Add to the offset of the notes against the sound.
    AnimationOffset(i32),
    Unchanged,
}

/// Whether `text` is the single character `c`.
pub open spec fn is_char(text: Seq<char>, c: char) -> bool {
    text.len() == 1 && text[0] == c
}

/// The change that a shortcut asks for. Up and Down arrows change the speed by
/// a tenth (half with Shift); Page Up and Page Down change the falling speed by
/// 100 (500 with Shift); `-` or `_` and `+` or `=` change the offset by a
/// hundredth (a tenth with Shift). The arrows are read first, then the pages,
/// then the characters.
pub open spec fn settings_change_of(
    up: bool,
    down: bool,
    page_up: bool,
    page_down: bool,
    character: Option<Seq<char>>,
    shift: bool,
) -> SettingsChange {
    if up || down {
        let amount: i32 = if shift { 500 } else { 100 };
        if up { SettingsChange::Speed(amount) } else { SettingsChange::Speed((-amount) as i32) }
    } else if page_up || page_down {
        let amount: i32 = if shift { 500000 } else { 100000 };
        if page_up {
            SettingsChange::AnimationSpeed(amount)
        } else {
            SettingsChange::AnimationSpeed((-amount) as i32)
        }
    } else {
        match character {
            Some(text) => {
                let amount: i32 = if shift { 100 } else { 10 };
                if is_char(text, '-') || is_char(text, '_') {
                    SettingsChange::AnimationOffset((-amount) as i32)
                } else if is_char(text, '+') || is_char(text, '=') {
                    SettingsChange::AnimationOffset(amount)
                } else {
                    SettingsChange::Unchanged
                }
            },
            None => SettingsChange::Unchanged,
        }
    }
}

/// Each shortcut has an opposite that undoes it: Down undoes Up, Page Down
/// undoes Page Up, and `-` undoes `+`, with or without Shift.
pub proof fn lemma_shortcuts_undo(shift: bool)
    ensures
        settings_change_of(true, false, false, false, None, shift) matches SettingsChange::Speed(a)
            && settings_change_of(false, true, false, false, None, shift) matches SettingsChange::Speed(b)
            && a + b == 0,
        settings_change_of(false, false, true, false, None, shift) matches SettingsChange::AnimationSpeed(a)
            && settings_change_of(false, false, false, true, None, shift) matches SettingsChange::AnimationSpeed(b)
            && a + b == 0,
        settings_change_of(false, false, false, false, Some(seq!['+']), shift) matches SettingsChange::AnimationOffset(a)
            && settings_change_of(false, false, false, false, Some(seq!['-']), shift) matches SettingsChange::AnimationOffset(b)
            && a + b == 0,
{
}

/// The offset keys, when no arrow or page key is released: `+` and `=` raise
/// the offset and `-` and `_` lower it, with or without Shift, by the same step
/// either way; Shift makes the step ten times larger; any other text changes
/// nothing.
pub proof fn lemma_offset_keys(shift: bool, text: Seq<char>)
    ensures
        settings_change_of(false, false, false, false, Some(seq!['+']), shift) matches SettingsChange::AnimationOffset(a)
            && a > 0,
        settings_change_of(false, false, false, false, Some(seq!['=']), shift) == settings_change_of(
            false,
            false,
            false,
            false,
            Some(seq!['+']),
            shift,
        ),
        settings_change_of(false, false, false, false, Some(seq!['-']), shift) matches SettingsChange::AnimationOffset(b)
            && settings_change_of(false, false, false, false, Some(seq!['+']), shift) matches SettingsChange::AnimationOffset(a)
            && b == -a,
        settings_change_of(false, false, false, false, Some(seq!['_']), shift) == settings_change_of(
            false,
            false,
            false,
            false,
            Some(seq!['-']),
            shift,
        ),
        settings_change_of(false, false, false, false, Some(seq!['+']), true) matches SettingsChange::AnimationOffset(a)
            && settings_change_of(false, false, false, false, Some(seq!['+']), false) matches SettingsChange::AnimationOffset(b)
            && a == 10 * b,
        text != seq!['+'] && text != seq!['='] && text != seq!['-'] && text != seq!['_'] ==> settings_change_of(
            false,
            false,
            false,
            false,
            Some(text),
            shift,
        ) == SettingsChange::Unchanged,
        settings_change_of(false, false, false, false, None, shift) == SettingsChange::Unchanged,
{
    if text.len() == 1 {
        if text[0] == '+' {
            assert(text =~= seq!['+']);
        }
        if text[0] == '=' {
            assert(text =~= seq!['=']);
        }
        if text[0] == '-' {
            assert(text =~= seq!['-']);
        }
        if text[0] == '_' {
            assert(text =~= seq!['_']);
        }
    }
}

/// The speed keys: Up raises the speed and Down lowers it by the same step,
/// Page Up raises the falling speed and Page Down lowers it by the same step,
/// whatever character comes with them; Shift makes each step five times larger;
/// an arrow wins over a page key, and a page key over a character.
pub proof fn lemma_speed_keys(shift: bool, page_up: bool, page_down: bool, character: Option<Seq<char>>)
    ensures
        settings_change_of(true, false, page_up, page_down, character, shift) matches SettingsChange::Speed(a)
            && a > 0,
        settings_change_of(false, true, page_up, page_down, character, shift) matches SettingsChange::Speed(b)
            && settings_change_of(true, false, page_up, page_down, character, shift) matches SettingsChange::Speed(a)
            && b == -a,
        settings_change_of(true, false, false, false, None, true) matches SettingsChange::Speed(a)
            && settings_change_of(true, false, false, false, None, false) matches SettingsChange::Speed(b)
            && a == 5 * b,
        settings_change_of(false, false, true, false, character, shift) matches SettingsChange::AnimationSpeed(a)
            && a > 0,
        settings_change_of(false, false, false, true, character, shift) matches SettingsChange::AnimationSpeed(b)
            && settings_change_of(false, false, true, false, character, shift) matches SettingsChange::AnimationSpeed(a)
            && b == -a,
        settings_change_of(false, false, true, false, None, true) matches SettingsChange::AnimationSpeed(a)
            && settings_change_of(false, false, true, false, None, false) matches SettingsChange::AnimationSpeed(b)
            && a == 5 * b,
{
}

pub open spec fn text_of(character: Option<&str>) -> Option<Seq<char>> {
    match character {
        Some(text) => Some(text@),
        None => None,
    }
}

/// Whether `text` is the single character `c`.
fn single_char_is(text: &str, c: char) -> (same: bool)
    ensures
        same == is_char(text@, c),
{
    text.unicode_len() == 1 && text.get_char(0) == c
}

/// The setting that a key released in the playing scene changes.
pub fn settings_change(input: &SettingsInput) -> (change: SettingsChange)
    ensures
        change == settings_change_of(
            input.arrow_up_released,
            input.arrow_down_released,
            input.page_up_released,
            input.page_down_released,
            text_of(input.character_released),
            input.shift,
        ),
{
    if input.arrow_up_released || input.arrow_down_released {
        let amount: i32 = if input.shift { 500 } else { 100 };
        if input.arrow_up_released {
            return SettingsChange::Speed(amount);
        } else {
            return SettingsChange::Speed(-amount);
        }
    }
    if input.page_up_released || input.page_down_released {
        let amount: i32 = if input.shift { 500000 } else { 100000 };
        if input.page_up_released {
            return SettingsChange::AnimationSpeed(amount);
        } else {
            return SettingsChange::AnimationSpeed(-amount);
        }
    }
    match input.character_released {
        Some(text) => {
            let amount: i32 = if input.shift { 100 } else { 10 };
            if single_char_is(text, '-') || single_char_is(text, '_') {
                SettingsChange::AnimationOffset(-amount)
            } else if single_char_is(text, '+') || single_char_is(text, '=') {
                SettingsChange::AnimationOffset(amount)
            } else {
                SettingsChange::Unchanged
            }
        },
        None => SettingsChange::Unchanged,
    }
}

/// The notes of the keys that the user holds, in keyboard order: each key's
/// index, kept to its low byte, plus the first note of the range.
pub open spec fn pressed_notes_of(pressed: Seq<bool>, range_start: u8) -> Seq<u8>
    decreases pressed.len(),
{
    if pressed.len() == 0 {
        Seq::empty()
    } else {
        let rest = pressed_notes_of(pressed.drop_last(), range_start);
        if pressed.last() {
            rest.push((((pressed.len() - 1) % 256) + range_start) as u8)
        } else {
            rest
        }
    }
}

/// The held notes are those of the pressed keys: a note is listed when and only
/// when some pressed key gives it (its index, kept to its low byte, plus the
/// first note of the range), and there are no more notes than keys.
pub proof fn lemma_pressed_notes_are_pressed_keys(pressed: Seq<bool>, range_start: u8)
    requires
        forall|i: int| 0 <= i < pressed.len() && #[trigger] pressed[i] ==> (i % 256) + range_start <= 255,
    ensures
        pressed_notes_of(pressed, range_start).len() <= pressed.len(),
        forall|note: u8|
            #[trigger] pressed_notes_of(pressed, range_start).contains(note) <==> exists|i: int|
                0 <= i < pressed.len() && #[trigger] pressed[i] && note == (i % 256) + range_start,
    decreases pressed.len(),
{
    if pressed.len() > 0 {
        let rest = pressed.drop_last();
        let k = pressed.len() - 1;
        assert forall|i: int| 0 <= i < rest.len() && #[trigger] rest[i] implies (i % 256) + range_start <= 255 by {
            assert(rest[i] == pressed[i]);
        }
        lemma_pressed_notes_are_pressed_keys(rest, range_start);
        let before = pressed_notes_of(rest, range_start);
        let all = pressed_notes_of(pressed, range_start);
        let v: u8 = (((pressed.len() - 1) % 256) + range_start) as u8;
        if pressed[k] {
            assert(all == before.push(v));
            assert(v == (k % 256) + range_start);
        } else {
            assert(all == before);
        }
        assert forall|note: u8| #[trigger] all.contains(note) <==> exists|i: int|
            0 <= i < pressed.len() && #[trigger] pressed[i] && note == (i % 256) + range_start by {
            if all.contains(note) {
                let j = choose|j: int| 0 <= j < all.len() && all[j] == note;
                if j < before.len() {
                    assert(before[j] == note);
                    assert(before.contains(note));
                    let i = choose|i: int| 0 <= i < rest.len() && #[trigger] rest[i] && note == (i % 256) + range_start;
                    assert(pressed[i] == rest[i]);
                } else {
                    assert(pressed[k] && note == (k % 256) + range_start);
                }
            }
            if exists|i: int| 0 <= i < pressed.len() && #[trigger] pressed[i] && note == (i % 256) + range_start {
                let i = choose|i: int| 0 <= i < pressed.len() && #[trigger] pressed[i] && note == (i % 256) + range_start;
                if i < k {
                    assert(rest[i] == pressed[i]);
                    assert(before.contains(note));
                    let j = choose|j: int| 0 <= j < before.len() && before[j] == note;
                    assert(all[j] == note);
                } else {
                    assert(all[before.len() as int] == note);
                }
            }
        }
    }
}

/// The notes that the user holds down, which the chord name is read from.
pub fn pressed_notes(pressed: &Vec<bool>, range_start: u8) -> (notes: Vec<u8>)
    requires
        forall|i: int| 0 <= i < pressed@.len() && #[trigger] pressed@[i] ==> (i % 256) + range_start <= 255,
    ensures
        notes@ == pressed_notes_of(pressed@, range_start),
{
    let mut notes: Vec<u8> = Vec::new();
    let n = pressed.len();
    let mut i: usize = 0;
    while i < n
        invariant
            n == pressed@.len(),
            i <= n,
            forall|k: int| 0 <= k < pressed@.len() && #[trigger] pressed@[k] ==> (k % 256) + range_start <= 255,
            notes@ == pressed_notes_of(pressed@.take(i as int), range_start),
        decreases n - i,
    {
        assert(pressed@.take(i + 1).drop_last() =~= pressed@.take(i as int));
        if pressed[i] {
            let id = (i % 256) as u8;
            notes.push(id + range_start);
        }
        i += 1;
    }
    assert(pressed@.take(n as int) =~= pressed@);
    notes
}

} // verus!
