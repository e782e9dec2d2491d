use piano_waterfall::tracks::{card_grid, GridCell};
use piano_waterfall::tracks::{
    apply_card_events, average_note, card_event, card_subtitle, hand_info_for, hidden_tracks,
    set_all_players, track_card_data, track_cards, track_color_slot, CardsLayout, PlayerConfig,
    TrackCardEvent, TrackConfig, TrackInfo,
};

fn track(id: usize, notes: Vec<u8>, program: Option<u8>, drums: bool, other: bool) -> TrackInfo {
    TrackInfo {
        track_id: id,
        track_color_id: id + 10,
        notes,
        last_program: program,
        has_drums: drums,
        has_other_than_drums: other,
    }
}

fn config(id: usize, visible: bool, player: PlayerConfig) -> TrackConfig {
    TrackConfig { track_id: id, visible, player }
}

#[test]
fn average_rounds_down_and_defaults_to_middle_c() {
    assert_eq!(average_note(&vec![]), 60);
    assert_eq!(average_note(&vec![59, 60]), 59);
    assert_eq!(average_note(&vec![127, 127, 126]), 126);
    assert_eq!(average_note(&vec![255; 1000]), 255);
}

#[test]
fn hand_of_piano_tracks() {
    assert_eq!(hand_info_for(0, false, &vec![40, 50]), " / Left Hand");
    assert_eq!(hand_info_for(7, false, &vec![60]), " / Right Hand");
    assert_eq!(hand_info_for(3, false, &vec![59, 60]), " / Left Hand");
    assert_eq!(hand_info_for(0, true, &vec![40]), "");
    assert_eq!(hand_info_for(8, false, &vec![40]), "");
    assert_eq!(hand_info_for(0, false, &vec![]), " / Right Hand");
}

#[test]
fn card_of_a_track() {
    let t = track(3, vec![36, 38], None, true, false);
    let card = track_card_data(&t, &config(3, false, PlayerConfig::Mute));
    assert_eq!(card.track_id, 3);
    assert_eq!(card.track_color_id, 13);
    assert!(!card.visible);
    assert_eq!(card.player, PlayerConfig::Mute);
    assert_eq!(card.instrument_id, 0);
    assert!(card.is_percussion);
    assert_eq!(card.notes_count, 2);
    assert_eq!(card.hand_info, "");
}

#[test]
fn left_hand_cards_come_first() {
    let tracks = vec![
        track(0, vec![72, 74, 76], Some(0), false, true),
        track(1, vec![], Some(0), false, true),
        track(2, vec![40, 45, 50], None, false, true),
        track(3, vec![36, 38], None, true, false),
        track(4, vec![60, 62], Some(40), false, true),
        track(5, vec![30], Some(5), false, true),
    ];
    let configs: Vec<TrackConfig> =
        (0..6).map(|i| config(i, i != 4, PlayerConfig::Auto)).collect();
    let cards = track_cards(&tracks, &configs);
    let ids: Vec<usize> = cards.iter().map(|c| c.track_id).collect();
    assert_eq!(ids, vec![2, 5, 0, 3, 4]);
    assert_eq!(cards[0].hand_info, " / Left Hand");
    assert_eq!(cards[2].hand_info, " / Right Hand");
    assert_eq!(cards[3].hand_info, "");
    assert!(cards[3].is_percussion);
    assert_eq!(cards[4].instrument_id, 40);
    assert!(!cards[4].visible);
    // One card per track with notes.
    assert_eq!(cards.len(), tracks.iter().filter(|t| !t.notes.is_empty()).count());
}

#[test]
fn no_tracks_no_cards() {
    let cards = track_cards(&vec![track(0, vec![], None, false, false)], &vec![]);
    assert!(cards.is_empty());
}

#[test]
fn layout_columns() {
    let l = CardsLayout::new(702, 5);
    assert_eq!((l.columns, l.width), (1, 344));
    let l = CardsLayout::new(703, 5);
    assert_eq!((l.columns, l.width), (2, 702));
    let l = CardsLayout::new(1060, 5);
    assert_eq!((l.columns, l.width), (2, 702));
    let l = CardsLayout::new(1061, 5);
    assert_eq!((l.columns, l.width), (3, 1060));
    let l = CardsLayout::new(1920, 2);
    assert_eq!((l.columns, l.width), (2, 702));
    let l = CardsLayout::new(1920, 0);
    assert_eq!((l.columns, l.width), (1, 344));
    let l = CardsLayout::new(0, 9);
    assert_eq!((l.columns, l.width), (1, 344));
}

#[test]
fn listen_only_and_play_along() {
    let mut configs = vec![
        config(0, true, PlayerConfig::Mute),
        config(1, false, PlayerConfig::Human),
    ];
    set_all_players(&mut configs, PlayerConfig::Auto);
    assert_eq!(configs, vec![config(0, true, PlayerConfig::Auto), config(1, false, PlayerConfig::Auto)]);
    set_all_players(&mut configs, PlayerConfig::Human);
    assert_eq!(configs, vec![config(0, true, PlayerConfig::Human), config(1, false, PlayerConfig::Human)]);
}

#[test]
fn card_events_apply_in_order() {
    let mut configs = vec![config(0, true, PlayerConfig::Auto), config(1, true, PlayerConfig::Auto)];
    let events = vec![
        (1, TrackCardEvent::PlayerConfig(PlayerConfig::Human)),
        (0, TrackCardEvent::SetVisible(false)),
        (1, TrackCardEvent::Idle),
        (1, TrackCardEvent::PlayerConfig(PlayerConfig::Mute)),
    ];
    apply_card_events(&mut configs, &events);
    assert_eq!(configs, vec![config(0, false, PlayerConfig::Auto), config(1, true, PlayerConfig::Mute)]);
}

#[test]
fn idle_events_change_nothing() {
    let mut configs = vec![config(0, true, PlayerConfig::Auto)];
    apply_card_events(&mut configs, &vec![(0, TrackCardEvent::Idle), (0, TrackCardEvent::Idle)]);
    assert_eq!(configs, vec![config(0, true, PlayerConfig::Auto)]);
}

#[test]
fn later_buttons_override_earlier_ones() {
    assert_eq!(card_event(false, false, false, false, true), TrackCardEvent::Idle);
    assert_eq!(card_event(true, false, false, false, true), TrackCardEvent::SetVisible(false));
    assert_eq!(card_event(true, false, false, false, false), TrackCardEvent::SetVisible(true));
    assert_eq!(card_event(true, true, false, false, true), TrackCardEvent::PlayerConfig(PlayerConfig::Mute));
    assert_eq!(card_event(false, true, true, false, true), TrackCardEvent::PlayerConfig(PlayerConfig::Auto));
    assert_eq!(card_event(true, true, true, true, true), TrackCardEvent::PlayerConfig(PlayerConfig::Human));
}

#[test]
fn color_slots() {
    assert_eq!(track_color_slot(false, 7, 0), None);
    assert_eq!(track_color_slot(true, 7, 3), Some(1));
    assert_eq!(track_color_slot(true, 2, 3), Some(2));
}

#[test]
fn subtitles() {
    assert_eq!(card_subtitle(12, " / Left Hand"), "12 Notes / Left Hand");
    assert_eq!(card_subtitle(0, ""), "0 Notes");
}

#[test]
fn hidden_track_ids() {
    let configs = vec![
        config(4, false, PlayerConfig::Auto),
        config(5, true, PlayerConfig::Auto),
        config(9, false, PlayerConfig::Mute),
    ];
    assert_eq!(hidden_tracks(&configs), vec![4, 9]);
    assert_eq!(hidden_tracks(&vec![]), Vec::<usize>::new());
}

use piano_waterfall::tracks::{card_title, CardTitle};

#[test]
fn card_titles() {
    assert_eq!(card_title(true, 5), CardTitle::Percussion);
    assert_eq!(card_title(false, 5), CardTitle::Instrument(5));
    assert_eq!(card_title(false, 0), CardTitle::Instrument(0));
}

#[test]
fn cards_fill_the_grid_row_by_row() {
    let cells = card_grid(7, 3);
    let expected: Vec<GridCell> = (0..7).map(|k| GridCell { column: k % 3, row: k / 3 }).collect();
    assert_eq!(cells, expected);
    assert_eq!(card_grid(3, 3)[2], GridCell { column: 2, row: 0 });
    assert_eq!(card_grid(2, 1), vec![GridCell { column: 0, row: 0 }, GridCell { column: 0, row: 1 }]);
    assert!(card_grid(0, 2).is_empty());
}
