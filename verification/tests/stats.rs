use piano_waterfall::stats::{
    place_label, rank_best_first, row_background, stats_file_name, stats_file_name_from, Rgb,
    SavedStats, ScoredStats, Timestamp,
};

fn play(secs: i64, notes_hit: usize) -> SavedStats {
    SavedStats {
        date: Timestamp { secs, nanos: 0 },
        notes_hit,
        slow_hits: 0,
        wrong_notes: 0,
        correct_note_times: notes_hit,
    }
}

#[test]
fn record_of_a_play() {
    let date = Timestamp { secs: 1_700_000_000, nanos: 5 };
    let stats = SavedStats::from_play_along(date, 50, 8, 7, 3);
    assert_eq!(
        stats,
        SavedStats { date, notes_hit: 42, slow_hits: 7, wrong_notes: 3, correct_note_times: 50 }
    );
}

#[test]
fn best_score_first_and_stable() {
    let plays = vec![
        ScoredStats { score: 50, stats: play(1, 1) },
        ScoredStats { score: 90, stats: play(2, 2) },
        ScoredStats { score: 50, stats: play(3, 3) },
        ScoredStats { score: 100, stats: play(4, 4) },
        ScoredStats { score: 0, stats: play(5, 5) },
        ScoredStats { score: 90, stats: play(6, 6) },
    ];
    let ranking = rank_best_first(&plays);
    let order: Vec<i64> = ranking.iter().map(|p| p.stats.date.secs).collect();
    assert_eq!(order, vec![4, 2, 6, 1, 3, 5]);
    // The same as std's stable sort by descending score.
    let mut by_std = plays.clone();
    by_std.sort_by(|a, b| b.score.cmp(&a.score));
    assert_eq!(ranking, by_std);
}

#[test]
fn ranking_keeps_every_play() {
    let plays: Vec<ScoredStats> =
        (0..20).map(|i| ScoredStats { score: (i * 7) % 5, stats: play(i as i64, i) }).collect();
    let ranking = rank_best_first(&plays);
    assert_eq!(ranking.len(), plays.len());
    for p in &plays {
        assert_eq!(ranking.iter().filter(|r| *r == p).count(), 1);
    }
    assert!(rank_best_first(&vec![]).is_empty());
}

#[test]
fn places() {
    assert_eq!(place_label(0), "1st");
    assert_eq!(place_label(1), "2nd");
    assert_eq!(place_label(2), "3rd");
    assert_eq!(place_label(3), "4th");
    assert_eq!(place_label(10), "11th");
    assert_eq!(place_label(20), "21th");
    assert_eq!(place_label(99), "100th");
}

#[test]
fn rows_alternate() {
    assert_eq!(row_background(0), Rgb(32, 30, 40));
    assert_eq!(row_background(1), Rgb(26, 24, 34));
    assert_eq!(row_background(2), Rgb(32, 30, 40));
}

#[test]
fn stats_file_names() {
    assert_eq!(stats_file_name("My Song! #1"), "My Song 1_stats.json");
    assert_eq!(stats_file_name("Café/Ünïcode"), "CaféÜnïcode_stats.json");
    assert_eq!(stats_file_name("../x"), "x_stats.json");
    assert_eq!(stats_file_name(""), "_stats.json");
    assert_eq!(stats_file_name("日本 2"), "日本 2_stats.json");
}

#[test]
fn stats_file_name_keeps_marked_characters() {
    assert_eq!(stats_file_name_from("a-b c", &vec![true, true, false, false, true]), "a- c_stats.json");
    assert_eq!(stats_file_name_from("xy", &vec![false, false]), "_stats.json");
}

use chrono::{DateTime, Local};
use piano_waterfall::stats::{date_label, play_date_label, stats_title, LocalDateParts};

#[test]
fn score_page_titles() {
    assert_eq!(stats_title(None), "No Song Selected");
    assert_eq!(stats_title(Some("Für Elise")), "Für Elise");
    assert_eq!(stats_title(Some("")), "");
}

#[test]
fn date_labels() {
    let parts = LocalDateParts { year: 2024, month: 3, day: 7, hour: 9, minute: 5 };
    assert_eq!(date_label(parts), "07/03/24 09:05");
    let parts = LocalDateParts { year: 2000, month: 12, day: 31, hour: 23, minute: 59 };
    assert_eq!(date_label(parts), "31/12/00 23:59");
    let parts = LocalDateParts { year: -1, month: 1, day: 1, hour: 0, minute: 0 };
    assert_eq!(date_label(parts), "01/01/99 00:00");
    let parts = LocalDateParts { year: i32::MIN, month: 1, day: 1, hour: 0, minute: 0 };
    assert_eq!(date_label(parts), format!("01/01/{:02} 00:00", i32::MIN.rem_euclid(100)));
}

#[test]
fn play_dates_follow_the_local_time_zone() {
    for secs in [0i64, 1_700_000_000, 951_782_400, -86_400] {
        let expected = DateTime::from_timestamp(secs, 0)
            .unwrap()
            .with_timezone(&Local)
            .format("%d/%m/%y %H:%M")
            .to_string();
        assert_eq!(play_date_label(Timestamp { secs, nanos: 0 }), Some(expected));
    }
    assert_eq!(play_date_label(Timestamp { secs: i64::MAX, nanos: 0 }), None);
}

#[test]
fn play_dates_exist_exactly_inside_the_calendar() {
    let first = -8_334_601_228_800i64;
    let last = 8_210_266_876_799i64;
    assert!(play_date_label(Timestamp { secs: first, nanos: 0 }).is_some());
    assert_eq!(play_date_label(Timestamp { secs: first - 1, nanos: 0 }), None);
    assert!(play_date_label(Timestamp { secs: last, nanos: 999_999_999 }).is_some());
    assert_eq!(play_date_label(Timestamp { secs: last + 1, nanos: 0 }), None);
    assert_eq!(play_date_label(Timestamp { secs: i64::MIN, nanos: 0 }), None);
    assert!(play_date_label(Timestamp { secs: 59, nanos: 1_500_000_000 }).is_some());
    assert_eq!(play_date_label(Timestamp { secs: 58, nanos: 1_000_000_000 }), None);
    assert_eq!(play_date_label(Timestamp { secs: 59, nanos: 2_000_000_000 }), None);
    assert!(play_date_label(Timestamp { secs: -1, nanos: 1_999_999_999 }).is_some());
}

#[test]
fn play_date_stays_within_a_day_of_utc() {
    let label = play_date_label(Timestamp { secs: 1_700_000_000, nanos: 0 }).unwrap();
    let utc_day = ["13/11/23", "14/11/23", "15/11/23"];
    assert!(utc_day.iter().any(|d| label.starts_with(d)));
}
