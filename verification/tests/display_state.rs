use minecraft_timer::display::time_difference_after;
use minecraft_timer::message::message_from;
use minecraft_timer::{get_time_difference, message_for, Classified, DisplayState, Message};
use std::time::{Duration, SystemTime, UNIX_EPOCH};

const STATS: &str = r#"{"stats": {"minecraft:custom": {"minecraft:play_one_minute": 119}}}"#;

#[test]
fn new_world_message_has_no_player() {
    let t0 = UNIX_EPOCH + Duration::from_secs(1_600_000_000);
    let m = message_for(Classified::NewWorld, Some(t0), None).unwrap();
    assert!(m.player.is_none());
    assert_eq!(m.world.unwrap().last_modified, t0);
    let built = Message::new_world(t0);
    assert!(built.player.is_none());
    assert_eq!(built.world.unwrap().last_modified, t0);
}

#[test]
fn stats_message_has_player_and_world() {
    let t = UNIX_EPOCH + Duration::from_secs(1_600_000_300);
    let m = message_for(Classified::StatsWritten, Some(t), Some(STATS)).unwrap();
    assert_eq!(m.player.unwrap().ticks_played, 119);
    assert_eq!(m.world.unwrap().last_modified, t);
    let built = Message::stats_written(119, t);
    assert_eq!(built.player.unwrap().ticks_played, 119);
    assert_eq!(built.world.unwrap().last_modified, t);
}

#[test]
fn failed_reads_give_no_message() {
    let t = UNIX_EPOCH + Duration::from_secs(1_600_000_300);
    assert!(message_for(Classified::NewWorld, None, None).is_none());
    assert!(message_for(Classified::StatsWritten, None, Some(STATS)).is_none());
    assert!(message_for(Classified::StatsWritten, Some(t), None).is_none());
    assert!(message_for(Classified::StatsWritten, Some(t), Some("{}")).is_none());
    assert!(message_for(Classified::Ignored, Some(t), Some(STATS)).is_none());
}

#[test]
fn message_from_needs_what_the_event_needs() {
    let t = UNIX_EPOCH + Duration::from_secs(7);
    assert!(message_from(Classified::NewWorld, Some(t), Some(5)).unwrap().player.is_none());
    assert!(message_from(Classified::NewWorld, Some(t), None).is_some());
    assert!(message_from(Classified::NewWorld, None, Some(5)).is_none());
    assert_eq!(
        message_from(Classified::StatsWritten, Some(t), Some(5)).unwrap().player.unwrap().ticks_played,
        5
    );
    assert!(message_from(Classified::StatsWritten, Some(t), None).is_none());
    assert!(message_from(Classified::StatsWritten, None, Some(5)).is_none());
    assert!(message_from(Classified::Ignored, Some(t), Some(5)).is_none());
}

#[test]
fn duplicate_events_give_equal_messages() {
    let t = UNIX_EPOCH + Duration::from_secs(1_600_000_300);
    let a = message_for(Classified::StatsWritten, Some(t), Some(STATS)).unwrap();
    let b = message_for(Classified::StatsWritten, Some(t), Some(STATS)).unwrap();
    assert_eq!(a, b);
    assert_eq!(a, Message::stats_written(119, t));

    let mut once = DisplayState::new();
    once.receive(a);
    let mut twice = DisplayState::new();
    twice.receive(a);
    twice.receive(b);
    assert_eq!(once, twice);
    for elapsed in [Some(0), Some(42), None] {
        assert_eq!(once.text_after(elapsed), twice.text_after(elapsed));
    }
    assert_eq!(twice.text_after(Some(42)), Some(String::from("00:00:47")));
}

#[test]
fn last_message_wins() {
    let t = UNIX_EPOCH + Duration::from_secs(1_600_000_000);
    let mut state = DisplayState::new();
    state.receive(Message::stats_written(72000, t));
    assert_eq!(state.text_after(Some(0)), Some(String::from("01:00:00")));
    state.receive(Message::stats_written(1200, t));
    assert_eq!(state.text_after(Some(0)), Some(String::from("00:01:00")));
    assert_eq!(state.last_message.unwrap().player.unwrap().ticks_played, 1200);
}

#[test]
fn display_before_any_message() {
    let state = DisplayState::new();
    assert!(state.last_message.is_none());
    assert_eq!(state.text_after(None), Some(String::from("00:00:00")));
    assert_eq!(state.text_after(Some(99)), Some(String::from("00:00:00")));
    assert_eq!(state.text(), Some(String::from("00:00:00")));
}

#[test]
fn world_then_stats_scenario() {
    let t0 = UNIX_EPOCH + Duration::from_secs(1_600_000_000);
    let mut state = DisplayState::new();

    let created = message_for(Classified::NewWorld, Some(t0), None).unwrap();
    assert!(created.player.is_none());
    state.receive(created);
    assert_eq!(state.text_after(Some(0)), Some(String::from("00:00:00")));
    assert_eq!(state.text_after(Some(299)), Some(String::from("00:04:59")));

    let t1 = t0 + Duration::from_secs(300);
    let written =
        message_for(Classified::StatsWritten, Some(t1), Some(r#"{"play_one_minute": 0}"#)).unwrap();
    assert_eq!(written.player.unwrap().ticks_played, 0);
    assert_eq!(written.world.unwrap().last_modified, t1);
    state.receive(written);
    assert_eq!(state.text_after(Some(0)), Some(String::from("00:00:00")));
    assert_eq!(state.text_after(Some(1)), Some(String::from("00:00:01")));
    assert_eq!(state.text_after(Some(2)), Some(String::from("00:00:02")));
    assert_eq!(state.text_after(Some(3600)), Some(String::from("01:00:00")));
}

#[test]
fn message_without_world_shows_played_seconds_alone() {
    let mut state = DisplayState::new();
    state.receive(Message {
        player: Some(minecraft_timer::Player { ticks_played: 2540 }),
        world: None,
    });
    assert_eq!(state.text_after(Some(1000)), Some(String::from("00:02:07")));
    assert_eq!(state.text_after(None), Some(String::from("00:02:07")));
    assert_eq!(state.text(), Some(String::from("00:02:07")));
}

#[test]
fn time_difference_adds_elapsed_and_played() {
    assert_eq!(time_difference_after(Some(0), 0), Some(String::from("00:00:00")));
    assert_eq!(time_difference_after(Some(7), 2400), Some(String::from("00:02:07")));
    assert_eq!(time_difference_after(Some(6666), 19), Some(String::from("01:51:06")));
    assert_eq!(time_difference_after(None, 2400), None);
    assert_eq!(time_difference_after(Some(u64::MAX), 19), Some(String::from("5124095576030431:00:15")));
    assert_eq!(time_difference_after(Some(u64::MAX), 20), None);
    assert_eq!(time_difference_after(Some(u64::MAX - 5), 119), Some(String::from("5124095576030431:00:15")));
    assert_eq!(time_difference_after(Some(u64::MAX - 5), 120), None);
}

#[test]
fn time_difference_reads_the_clock() {
    let an_hour_ago = SystemTime::now() - Duration::from_secs(3600);
    let text = get_time_difference(an_hour_ago, 1200).unwrap();
    assert!(text == "01:01:00" || text == "01:01:01", "got {}", text);
}

#[test]
fn time_in_the_future_gives_no_text() {
    let later = SystemTime::now() + Duration::from_secs(3600);
    assert_eq!(get_time_difference(later, 1200), None);
    let mut state = DisplayState::new();
    state.receive(Message::new_world(later));
    assert_eq!(state.text(), None);
}

#[test]
fn display_text_follows_the_clock() {
    let two_minutes_ago = SystemTime::now() - Duration::from_secs(120);
    let mut state = DisplayState::new();
    state.receive(Message::stats_written(140, two_minutes_ago));
    let text = state.text().unwrap();
    assert!(text == "00:02:07" || text == "00:02:08", "got {}", text);
}
