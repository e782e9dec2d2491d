use piano_waterfall::bottom_bar::{bar_icon, library_bar, stats_bar, BarAction};
use piano_waterfall::icons::{folder_icon, left_arrow_icon, play_icon, trash_icon};

#[test]
fn library_bar_shows_play_only_with_a_song() {
    assert_eq!(library_bar(false), vec![BarAction::GoBack, BarAction::PickFolder]);
    assert_eq!(
        library_bar(true),
        vec![BarAction::GoBack, BarAction::PickFolder, BarAction::ChooseTracks]
    );
}

#[test]
fn stats_bar_shows_play_only_with_a_song() {
    assert_eq!(stats_bar(false), vec![BarAction::GoBack, BarAction::DeleteStats]);
    assert_eq!(
        stats_bar(true),
        vec![BarAction::GoBack, BarAction::DeleteStats, BarAction::StartPlaying]
    );
}

#[test]
fn bar_buttons_have_their_icons() {
    assert_eq!(bar_icon(BarAction::GoBack), left_arrow_icon());
    assert_eq!(bar_icon(BarAction::PickFolder), folder_icon());
    assert_eq!(bar_icon(BarAction::DeleteStats), trash_icon());
    assert_eq!(bar_icon(BarAction::ChooseTracks), play_icon());
    assert_eq!(bar_icon(BarAction::StartPlaying), "\u{f4f4}");
}
