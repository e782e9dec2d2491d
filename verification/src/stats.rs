//! Scores kept for each song: what one play records, how the plays of a song
//! are ranked, how the ranking is labelled, and the name of the file that
//! stores them.
use vstd::prelude::*;
use vstd::string::*;

use chrono::{Datelike, Timelike};

use crate::calendar::{epoch_day, is_calendar_date, lemma_epoch_day_unique};
use crate::text::{decimal, decimal_chars, digit_chars};

use crate::seq_facts::{
    is_stable_sorting, keyed, lemma_insert_stable, lemma_same_keyed_items, lemma_stable_sorting_unique,
    sorted_by,
};

verus! {

/// A moment in UTC: whole seconds since the Unix epoch and the nanoseconds
/// past them (above a billion during a leap second).
#[derive(Clone, Copy, Debug, PartialEq, Eq, Structural)]
pub struct Timestamp {
    pub secs: i64,
    pub nanos: u32,
}

/// The result of one play of a song.
#[derive(Clone, Copy, Debug, PartialEq, Eq, Structural)]
pub struct SavedStats {
    pub date: Timestamp,
    pub notes_hit: usize,
    pub slow_hits: usize,
    pub wrong_notes: usize,
    pub correct_note_times: usize,
}

impl SavedStats {
    /// The record of a finished play, from the counters of the play-along:
    /// good hits are the hits that were not slow, slow hits are the late notes,
    /// and every hit counts as a note held for its right time.
    pub fn from_play_along(
        date: Timestamp,
        notes_hit: usize,
        slow_hits: usize,
        late_notes: usize,
        wrong_notes: usize,
    ) -> (stats: SavedStats)
        requires
            slow_hits <= notes_hit,
        ensures
            stats == (SavedStats {
                date,
                notes_hit: (notes_hit - slow_hits) as usize,
                slow_hits: late_notes,
                wrong_notes,
                correct_note_times: notes_hit,
            }),
    {
        SavedStats {
            date,
            notes_hit: notes_hit - slow_hits,
            slow_hits: late_notes,
            wrong_notes,
            correct_note_times: notes_hit,
        }
    }
}

/// A play together with its score.
#[derive(Clone, Copy, Debug, PartialEq, Eq, Structural)]
pub struct ScoredStats {
    pub score: usize,
    pub stats: SavedStats,
}

/// The score of a play, which the ranking is sorted by.
pub open spec fn score_of() -> spec_fn(ScoredStats) -> usize {
    |p: ScoredStats| p.score
}

/// The order of the ranking: a higher score comes first.
pub open spec fn higher_score() -> spec_fn(usize, usize) -> bool {
    |a: usize, b: usize| a > b
}

/// No play stands below a play with a lower score.
pub open spec fn best_first(plays: Seq<ScoredStats>) -> bool {
    sorted_by(plays, score_of(), higher_score())
}

/// `ranking` is `plays` sorted best score first, plays of equal scores in
/// their first order: it is sorted, and for each score it holds the same plays
/// of that score in the same order.
pub open spec fn is_ranking_of(ranking: Seq<ScoredStats>, plays: Seq<ScoredStats>) -> bool {
    is_stable_sorting(ranking, plays, score_of(), higher_score())
}

/// The plays of a song, best score first; plays of equal scores keep their order.
pub fn rank_best_first(plays: &Vec<ScoredStats>) -> (ranking: Vec<ScoredStats>)
    ensures
        is_ranking_of(ranking@, plays@),
{
    let mut ranking: Vec<ScoredStats> = Vec::new();
    let n = plays.len();
    let mut i: usize = 0;
    assert forall|k: usize| #[trigger] ranking@.filter(keyed(score_of(), k)) == plays@.take(
        0,
    ).filter(keyed(score_of(), k)) by {
        reveal(Seq::filter);
        assert(plays@.take(0) =~= Seq::<ScoredStats>::empty());
    }
    while i < n
        invariant
            n == plays@.len(),
            i <= n,
            is_ranking_of(ranking@, plays@.take(i as int)),
        decreases n - i,
    {
        let x = plays[i];
        let m = ranking.len();
        let mut p: usize = 0;
        while p < m && ranking[p].score >= x.score
            invariant
                m == ranking@.len(),
                p <= m,
                forall|j: int| 0 <= j < p ==> (#[trigger] ranking@[j]).score >= x.score,
            decreases m - p,
        {
            p += 1;
        }
        let ghost before = ranking@;
        proof {
            lemma_insert_stable(before, x, p as int, score_of(), higher_score());
        }
        ranking.insert(p, x);
        proof {
            assert(plays@.take(i + 1) =~= plays@.take(i as int).push(x));
            assert forall|k: usize| #[trigger] ranking@.filter(keyed(score_of(), k)) == plays@.take(
                i + 1,
            ).filter(keyed(score_of(), k)) by {
                plays@.take(i as int).lemma_filter_push(x, keyed(score_of(), k));
            }
        }
        i += 1;
    }
    assert(plays@.take(n as int) =~= plays@);
    ranking
}

/// The ranking holds every play exactly once: no play is lost or repeated.
pub proof fn lemma_ranking_keeps_plays(ranking: Seq<ScoredStats>, plays: Seq<ScoredStats>)
    requires
        is_ranking_of(ranking, plays),
    ensures
        ranking.to_multiset() == plays.to_multiset(),
{
    lemma_same_keyed_items(ranking, plays, score_of());
}

/// There is one ranking of a list of plays: the contract of
/// [`rank_best_first`] determines its result.
pub proof fn lemma_ranking_is_unique(r1: Seq<ScoredStats>, r2: Seq<ScoredStats>, plays: Seq<ScoredStats>)
    requires
        is_ranking_of(r1, plays),
        is_ranking_of(r2, plays),
    ensures
        r1 == r2,
{
    lemma_stable_sorting_unique(r1, r2, plays, score_of(), higher_score());
}

/// The place of a play in the ranking, from its index: "1st", "2nd", "3rd",
/// then the number followed by "th".
pub open spec fn place_chars(index: nat) -> Seq<char> {
    if index == 0 {
        seq!['1', 's', 't']
    } else if index == 1 {
        seq!['2', 'n', 'd']
    } else if index == 2 {
        seq!['3', 'r', 'd']
    } else {
        decimal_chars(index + 1) + seq!['t', 'h']
    }
}

/// The label of the place at `index` in the ranking.
pub fn place_label(index: usize) -> (label: String)
    requires
        index < usize::MAX,
    ensures
        label@ == place_chars(index as nat),
{
    if index == 0 {
        proof {
            reveal_strlit("1st");
        }
        let s = String::from_str("1st");
        assert(s@ =~= seq!['1', 's', 't']);
        s
    } else if index == 1 {
        proof {
            reveal_strlit("2nd");
        }
        let s = String::from_str("2nd");
        assert(s@ =~= seq!['2', 'n', 'd']);
        s
    } else if index == 2 {
        proof {
            reveal_strlit("3rd");
        }
        let s = String::from_str("3rd");
        assert(s@ =~= seq!['3', 'r', 'd']);
        s
    } else {
        let mut s = decimal(index + 1);
        proof {
            reveal_strlit("th");
            assert("th"@ =~= seq!['t', 'h']);
        }
        s.append("th");
        s
    }
}

pub open spec fn no_song_chars() -> Seq<char> {
    seq!['N', 'o', ' ', 'S', 'o', 'n', 'g', ' ', 'S', 'e', 'l', 'e', 'c', 't', 'e', 'd']
}

/// The title of the score page: the name of the current song, or
/// "No Song Selected" when there is none.
pub fn stats_title(song_name: Option<&str>) -> (title: String)
    ensures
        title@ == match song_name {
            Some(name) => name@,
            None => no_song_chars(),
        },
{
    match song_name {
        Some(name) => String::from_str(name),
        None => {
            proof {
                reveal_strlit("No Song Selected");
                assert("No Song Selected"@ =~= no_song_chars());
            }
            String::from_str("No Song Selected")
        },
    }
}

/// The fields of a moment in the local time zone that the score table shows.
#[derive(Clone, Copy, Debug, PartialEq, Eq, Structural)]
pub struct LocalDateParts {
    pub year: i32,
    pub month: u32,
    pub day: u32,
    pub hour: u32,
    pub minute: u32,
}

/// The fields lie in their calendar and clock ranges.
pub open spec fn parts_in_range(p: LocalDateParts) -> bool {
    &&& 1 <= p.month <= 12
    &&& 1 <= p.day <= 31
    &&& p.hour <= 23
    &&& p.minute <= 59
}

/// A number below one hundred in two digits, with a leading zero.
pub open spec fn two_digit_chars(n: int) -> Seq<char> {
    seq![digit_chars()[n / 10], digit_chars()[n % 10]]
}

/// The date of a play as the score table writes it, `dd/mm/yy HH:MM`, the
/// year taken modulo one hundred.
pub open spec fn date_chars(p: LocalDateParts) -> Seq<char> {
    two_digit_chars(p.day as int) + seq!['/'] + two_digit_chars(p.month as int) + seq!['/']
        + two_digit_chars((p.year as int) % 100) + seq![' '] + two_digit_chars(p.hour as int)
        + seq![':'] + two_digit_chars(p.minute as int)
}

fn append_two_digits(text: &mut String, n: u32)
    requires
        n < 100,
    ensures
        final(text)@ == old(text)@ + two_digit_chars(n as int),
{
    let digits = "0123456789";
    proof {
        reveal_strlit("0123456789");
        assert(digits@ =~= digit_chars());
    }
    let tens = (n / 10) as usize;
    let ones = (n % 10) as usize;
    let a = digits.substring_char(tens, tens + 1);
    let b = digits.substring_char(ones, ones + 1);
    text.append(a);
    text.append(b);
    assert(text@ =~= old(text)@ + two_digit_chars(n as int));
}

/// The date of a play as the score table writes it: `dd/mm/yy HH:MM`.
pub fn date_label(parts: LocalDateParts) -> (label: String)
    requires
        parts_in_range(parts),
    ensures
        label@ == date_chars(parts),
{
    let year_of_century: u32 = ((parts.year as i64 + 2200000000i64) % 100) as u32;
    assert(year_of_century == (parts.year as int) % 100) by {
        vstd::arithmetic::div_mod::lemma_mod_multiples_vanish(22000000, parts.year as int, 100);
    }
    proof {
        reveal_strlit("/");
        reveal_strlit(" ");
        reveal_strlit(":");
        assert("/"@ =~= seq!['/']);
        assert(" "@ =~= seq![' ']);
        assert(":"@ =~= seq![':']);
    }
    let mut label = String::new();
    append_two_digits(&mut label, parts.day);
    label.append("/");
    append_two_digits(&mut label, parts.month);
    label.append("/");
    append_two_digits(&mut label, year_of_century);
    label.append(" ");
    append_two_digits(&mut label, parts.hour);
    label.append(":");
    append_two_digits(&mut label, parts.minute);
    assert(label@ =~= date_chars(parts));
    label
}

/// The moments that chrono places on its calendar: a day of the years -262143
/// to 262142, and a nanosecond part below one second, or below two seconds in
/// the last second of a minute (a leap second).
pub open spec fn in_calendar_range(date: Timestamp) -> bool {
    &&& epoch_day(-262143, 1, 1) <= (date.secs as int) / 86400 <= epoch_day(262142, 12, 31)
    &&& date.nanos < 1_000_000_000 || (date.nanos < 2_000_000_000 && (date.secs as int) % 60 == 59)
}

/// The first second of the minute that `p` names, counted from the epoch.
pub open spec fn minute_start(p: LocalDateParts) -> int {
    epoch_day(p.year as int, p.month as int, p.day as int) * 86400 + p.hour * 3600 + p.minute * 60
}

/// `p` is a date and a clock time, and the moment `t` (seconds from the epoch,
/// on the same clock) lies in the minute that it names.
pub open spec fn shows_moment(p: LocalDateParts, t: int) -> bool {
    &&& parts_in_range(p)
    &&& is_calendar_date(p.year as int, p.month as int, p.day as int)
    &&& minute_start(p) <= t < minute_start(p) + 60
}

/// A moment lies in the minute of one date and clock time only: once the
/// offset is fixed, the date label of a play is fixed.
pub proof fn lemma_one_reading_per_moment(p: LocalDateParts, q: LocalDateParts, t: int)
    requires
        shows_moment(p, t),
        shows_moment(q, t),
    ensures
        p == q,
{
    let dp = epoch_day(p.year as int, p.month as int, p.day as int);
    let dq = epoch_day(q.year as int, q.month as int, q.day as int);
    let a = dp * 1440 + p.hour * 60 + p.minute;
    let b = dq * 1440 + q.hour * 60 + q.minute;
    assert(minute_start(p) == a * 60 && minute_start(q) == b * 60);
    assert(a == b);
    assert(dp == dq);
    lemma_epoch_day_unique(p.year as int, p.month as int, p.day as int, q.year as int, q.month as int, q.day as int);
}

/// `p` shows the moment `secs` (seconds from the epoch, in UTC) on a clock that
/// is `offset` seconds ahead of UTC, an offset of less than a day either way.
pub open spec fn shows_moment_with_offset(p: LocalDateParts, secs: int, offset: int) -> bool {
    -86400 < offset < 86400 && shows_moment(p, secs + offset)
}

/// Calls chrono: `DateTime::from_timestamp`, then `with_timezone(&Local)`, and
/// reads the local year, month, day, hour and minute. chrono gives none exactly
/// outside its calendar's range; otherwise the local clock is UTC shifted by the
/// machine's offset, which chrono holds below a day either way, and the fields
/// are those of the shifted moment. Which offset applies depends on the
/// machine's time zone and is not stated. chrono panics when the machine's
/// time-zone data yields no offset, which no condition on the argument can
/// exclude.
#[verifier::external_body]
fn local_date_parts(date: Timestamp) -> (parts: Option<LocalDateParts>)
    ensures
        parts is Some <==> in_calendar_range(date),
        parts matches Some(p) ==> exists|offset: int| shows_moment_with_offset(p, date.secs as int, offset),
{
    match chrono::DateTime::from_timestamp(date.secs, date.nanos) {
        Some(utc) => {
            let local = utc.with_timezone(&chrono::Local);
            Some(LocalDateParts {
                year: local.year(),
                month: local.month(),
                day: local.day(),
                hour: local.hour(),
                minute: local.minute(),
            })
        },
        None => None,
    }
}

/// The date column of a play, in the local time zone: `dd/mm/yy HH:MM` of the
/// moment shifted by the zone's offset (less than a day either way); none when
/// the timestamp lies outside the calendar.
pub fn play_date_label(date: Timestamp) -> (label: Option<String>)
    ensures
        label is Some <==> in_calendar_range(date),
        label matches Some(l) ==> exists|p: LocalDateParts, offset: int|
            shows_moment_with_offset(p, date.secs as int, offset) && l@ == date_chars(p),
{
    match local_date_parts(date) {
        Some(parts) => {
            let label = date_label(parts);
            assert(exists|p: LocalDateParts, offset: int|
                shows_moment_with_offset(p, date.secs as int, offset) && label@ == date_chars(p)) by {
                let offset = choose|offset: int| shows_moment_with_offset(parts, date.secs as int, offset);
                assert(shows_moment_with_offset(parts, date.secs as int, offset) && label@ == date_chars(parts));
            }
            Some(label)
        },
        None => None,
    }
}

/// A color given by its red, green and blue bytes.
#[derive(Clone, Copy, Debug, PartialEq, Eq, Structural)]
pub struct Rgb(pub u8, pub u8, pub u8);

/// The background of a row of the score table: rows alternate between two shades.
pub fn row_background(index: usize) -> (color: Rgb)
    ensures
        color == (if index % 2 == 0 { Rgb(32, 30, 40) } else { Rgb(26, 24, 34) }),
{
    if index % 2 == 0 {
        Rgb(32, 30, 40)
    } else {
        Rgb(26, 24, 34)
    }
}

/// Whether `char::is_alphanumeric` holds of `c`: the Unicode properties
/// Alphabetic or Numeric.
pub uninterp spec fn is_alphanumeric_char(c: char) -> bool;

/// Calls `char::is_alphanumeric`. The contract claims only that the answer
/// depends on `c` alone, and names it; the Unicode tables behind it are not stated.
#[verifier::external_body]
fn char_is_alphanumeric(c: char) -> (alphanumeric: bool)
    ensures
        alphanumeric == is_alphanumeric_char(c),
{
    c.is_alphanumeric()
}

/// The characters of `name` that are kept in a file name: those marked
/// alphanumeric in `alphanumeric`, and spaces.
pub open spec fn kept_chars(name: Seq<char>, alphanumeric: Seq<bool>) -> Seq<char>
    decreases name.len(),
{
    if name.len() == 0 {
        Seq::empty()
    } else {
        let rest = kept_chars(name.drop_last(), alphanumeric.take(name.len() - 1));
        if alphanumeric[name.len() - 1] || name.last() == ' ' {
            rest.push(name.last())
        } else {
            rest
        }
    }
}

/// The file name keeps the marked characters and the spaces of the song name
/// and nothing else: every kept character is a space or a marked character of
/// the name, no more characters are kept than the name has, a name whose
/// characters are all marked is kept whole, and a name with no marked
/// character and no space keeps nothing.
pub proof fn lemma_kept_chars(name: Seq<char>, alphanumeric: Seq<bool>)
    requires
        alphanumeric.len() == name.len(),
    ensures
        kept_chars(name, alphanumeric).len() <= name.len(),
        forall|j: int|
            0 <= j < kept_chars(name, alphanumeric).len() ==> #[trigger] kept_chars(name, alphanumeric)[j] == ' '
                || exists|i: int| 0 <= i < name.len() && alphanumeric[i] && name[i] == kept_chars(name, alphanumeric)[j],
        (forall|i: int| 0 <= i < name.len() ==> #[trigger] alphanumeric[i]) ==> kept_chars(name, alphanumeric) == name,
        (forall|i: int| 0 <= i < name.len() ==> !#[trigger] alphanumeric[i] && name[i] != ' ') ==> kept_chars(
            name,
            alphanumeric,
        ).len() == 0,
    decreases name.len(),
{
    if name.len() > 0 {
        let k = name.len() - 1;
        let rest_name = name.drop_last();
        let rest_flags = alphanumeric.take(k);
        lemma_kept_chars(rest_name, rest_flags);
        let before = kept_chars(rest_name, rest_flags);
        let all = kept_chars(name, alphanumeric);
        assert forall|j: int| 0 <= j < all.len() implies #[trigger] all[j] == ' ' || exists|i: int|
            0 <= i < name.len() && alphanumeric[i] && name[i] == all[j] by {
            if j < before.len() {
                assert(all[j] == before[j]);
                if before[j] != ' ' {
                    let i = choose|i: int| 0 <= i < rest_name.len() && rest_flags[i] && rest_name[i] == before[j];
                    assert(alphanumeric[i] && name[i] == all[j]);
                }
            } else {
                assert(all[j] == name[k]);
                if name[k] != ' ' {
                    assert(alphanumeric[k]);
                }
            }
        }
        if forall|i: int| 0 <= i < name.len() ==> #[trigger] alphanumeric[i] {
            assert forall|i: int| 0 <= i < rest_name.len() implies #[trigger] rest_flags[i] by {
                assert(alphanumeric[i]);
            }
            assert(alphanumeric[k]);
            assert(all =~= name);
        }
        if forall|i: int| 0 <= i < name.len() ==> !#[trigger] alphanumeric[i] && name[i] != ' ' {
            assert forall|i: int| 0 <= i < rest_name.len() implies !#[trigger] rest_flags[i] && rest_name[i] != ' ' by {
                assert(!alphanumeric[i] && name[i] != ' ');
            }
            assert(!alphanumeric[k] && name[k] != ' ');
        }
    }
}

pub open spec fn stats_suffix() -> Seq<char> {
    seq!['_', 's', 't', 'a', 't', 's', '.', 'j', 's', 'o', 'n']
}

/// Which characters of `name` are alphanumeric.
pub open spec fn alphanumeric_flags(name: Seq<char>) -> Seq<bool> {
    Seq::new(name.len(), |i: int| is_alphanumeric_char(name[i]))
}

/// The name of the file that stores the plays of the song `name`.
pub open spec fn stats_file_chars(name: Seq<char>) -> Seq<char> {
    kept_chars(name, alphanumeric_flags(name)) + stats_suffix()
}

/// The name of the stats file of a song, given which of the song name's
/// characters are alphanumeric: the alphanumerics and spaces of the name,
/// then `_stats.json`.
pub fn stats_file_name_from(song_name: &str, alphanumeric: &Vec<bool>) -> (file_name: String)
    requires
        alphanumeric@.len() == song_name@.len(),
    ensures
        file_name@ == kept_chars(song_name@, alphanumeric@) + stats_suffix(),
{
    let n = song_name.unicode_len();
    let mut out = String::new();
    let mut i: usize = 0;
    while i < n
        invariant
            n == song_name@.len(),
            alphanumeric@.len() == n,
            i <= n,
            out@ == kept_chars(song_name@.take(i as int), alphanumeric@.take(i as int)),
        decreases n - i,
    {
        let c = song_name.get_char(i);
        proof {
            let next = song_name@.take(i + 1);
            assert(next.drop_last() =~= song_name@.take(i as int));
            assert(alphanumeric@.take(i + 1).take(i as int) =~= alphanumeric@.take(i as int));
            assert(next.last() == c);
        }
        if alphanumeric[i] || c == ' ' {
            let one = song_name.substring_char(i, i + 1);
            out.append(one);
            assert(out@ =~= kept_chars(song_name@.take(i + 1), alphanumeric@.take(i + 1)));
        }
        i += 1;
    }
    assert(song_name@.take(n as int) =~= song_name@);
    assert(alphanumeric@.take(n as int) =~= alphanumeric@);
    proof {
        reveal_strlit("_stats.json");
        assert("_stats.json"@ =~= stats_suffix());
    }
    out.append("_stats.json");
    out
}

/// The name of the stats file of a song: the alphanumerics and spaces of its
/// name, then `_stats.json`.
pub fn stats_file_name(song_name: &str) -> (file_name: String)
    ensures
        file_name@ == stats_file_chars(song_name@),
{
    let n = song_name.unicode_len();
    let mut flags: Vec<bool> = Vec::new();
    let mut i: usize = 0;
    while i < n
        invariant
            n == song_name@.len(),
            i <= n,
            flags@ =~= alphanumeric_flags(song_name@).take(i as int),
        decreases n - i,
    {
        let c = song_name.get_char(i);
        flags.push(char_is_alphanumeric(c));
        i += 1;
    }
    assert(alphanumeric_flags(song_name@).take(n as int) =~= alphanumeric_flags(song_name@));
    stats_file_name_from(song_name, &flags)
}

} // verus!
