use yah::clock::{END_OF_DAY, SECONDS_PER_DAY};
use yah::config::{collect_entries, load_config};
use yah::paths::{app_dir, channel_path, sound_path, StartupError};
use yah::playback::{channel_layout, Layout, PacketAction, Playback, PlaybackError, WARMUP_PACKETS};
use yah::scheduler::{next_phase, plan_tick, plan_tick_now, should_notify, Phase, TickOutcome};
use yah::status::{decimal_text, decode_status, status_bytes, status_line, ReadError, READ_LIMIT};
use yah::config::Entry;
use yah::timetable::{read_slots, resolve, resolve_slots, ActivityState, Slot};

fn entry(time: &str, label: &str) -> Entry {
    Entry { key: time.to_string(), value: label.to_string() }
}

fn hm(h: u32, m: u32) -> u32 {
    h * 3600 + m * 60
}

fn line_at(timetable: &Vec<Entry>, now: u32) -> String {
    status_line(&resolve(timetable, now))
}

#[test]
fn focus_then_lunch_at_half_past_ten() {
    let tt = vec![entry("08:00", "Focus"), entry("12:00", "Lunch")];
    assert_eq!(line_at(&tt, hm(10, 30)), "Focus +150 -90");
    let s = resolve(&tt, hm(10, 30));
    assert_eq!(s.activity_name, "Focus");
    assert_eq!(s.activity_time, hm(8, 0));
    assert_eq!(s.next_activity_time, hm(12, 0));
    assert_eq!(s.time_done, 150);
    assert_eq!(s.time_remaining, 90);
}

#[test]
fn listing_order_does_not_change_the_result() {
    let tt = vec![entry("12:00", "Lunch"), entry("08:00", "Focus")];
    assert_eq!(line_at(&tt, hm(10, 30)), "Focus +150 -90");
    assert_eq!(line_at(&tt, hm(12, 0)), "Lunch +0 -719");
}

#[test]
fn empty_timetable_gives_defaults() {
    let tt: Vec<Entry> = Vec::new();
    let s = resolve(&tt, hm(10, 30));
    assert_eq!(s.activity_name, "Unknown");
    assert_eq!(s.activity_time, 0);
    assert_eq!(s.next_activity_time, END_OF_DAY);
    assert_eq!(line_at(&tt, hm(10, 30)), "Unknown +630 -809");
    assert_eq!(line_at(&tt, 0), "Unknown +0 -1439");
    assert_eq!(line_at(&tt, END_OF_DAY), "Unknown +1439 -0");
    assert_eq!(line_at(&tt, hm(23, 59)), "Unknown +1439 -0");
}

#[test]
fn before_the_first_entry_is_unknown() {
    let tt = vec![entry("09:00", "Work"), entry("17:00", "Off")];
    let s = resolve(&tt, hm(8, 59));
    assert_eq!(s.activity_name, "Unknown");
    assert_eq!(s.activity_time, 0);
    assert_eq!(s.next_activity_time, hm(9, 0));
    assert_eq!(status_line(&s), "Unknown +539 -1");
}

#[test]
fn after_the_last_entry_runs_to_end_of_day() {
    let tt = vec![entry("09:00", "Work"), entry("17:00", "Off")];
    let s = resolve(&tt, hm(20, 0));
    assert_eq!(s.activity_name, "Off");
    assert_eq!(s.next_activity_time, END_OF_DAY);
    assert_eq!(status_line(&s), "Off +180 -239");
}

#[test]
fn activity_started_no_later_than_now() {
    let tt = vec![entry("06:15", "A"), entry("13:45", "B"), entry("22:00", "C")];
    let mut now: u32 = 0;
    while now < SECONDS_PER_DAY {
        let s = resolve(&tt, now);
        assert!(s.activity_time <= now);
        assert!(now < s.next_activity_time || s.next_activity_time == END_OF_DAY);
        now += 97;
    }
}

#[test]
fn minutes_add_up_on_minute_ticks() {
    let tt = vec![entry("08:00", "Focus"), entry("12:00", "Lunch")];
    for now in [hm(8, 0), hm(10, 30), hm(11, 59), hm(12, 0), hm(23, 0), hm(3, 0)] {
        let s = resolve(&tt, now);
        assert_eq!(
            s.time_done + s.time_remaining,
            (s.next_activity_time - s.activity_time) / 60
        );
    }
}

#[test]
fn malformed_times_are_skipped() {
    let tt = vec![
        entry("08:00", "Focus"),
        entry("8h00", "Bad"),
        entry("25:00", "Late"),
        entry("", "Empty"),
        entry("10:61", "Minute"),
        entry("12:00", "Lunch"),
    ];
    assert_eq!(line_at(&tt, hm(10, 30)), "Focus +150 -90");
    let slots = read_slots(&tt);
    assert_eq!(slots[0].start, Some(hm(8, 0)));
    assert_eq!(slots[1].start, None);
    assert_eq!(slots[2].start, None);
    assert_eq!(slots[3].start, None);
    assert_eq!(slots[4].start, None);
    assert_eq!(slots[5].start, Some(hm(12, 0)));
    let only_bad = vec![entry("nope", "X"), entry("99:99", "Y")];
    assert_eq!(line_at(&only_bad, hm(1, 0)), "Unknown +60 -1379");
}

#[test]
fn equal_starts_keep_the_first_listed() {
    let tt = vec![entry("08:00", "First"), entry("8:00", "Second")];
    assert_eq!(resolve(&tt, hm(9, 0)).activity_name, "First");
    let tt = vec![entry("8:00", "Second"), entry("08:00", "First")];
    assert_eq!(resolve(&tt, hm(9, 0)).activity_name, "Second");
}

#[test]
fn resolve_slots_on_given_starts() {
    let slots = vec![
        Slot { start: Some(100), label: "a".to_string() },
        Slot { start: None, label: "b".to_string() },
        Slot { start: Some(500), label: "c".to_string() },
    ];
    let s = resolve_slots(&slots, 130);
    assert_eq!(s.activity_name, "a");
    assert_eq!(s.activity_time, 100);
    assert_eq!(s.next_activity_time, 500);
    assert_eq!(s.time_done, 0);
    assert_eq!(s.time_remaining, 6);
}

#[test]
fn notifies_only_on_the_changing_tick() {
    let tt = vec![entry("09:00", "Work"), entry("17:00", "Off")];
    let fired: Vec<bool> = [hm(8, 59), hm(9, 0), hm(9, 1)]
        .iter()
        .map(|&now| plan_tick(&tt, now).notify)
        .collect();
    assert_eq!(fired, vec![false, true, false]);
    assert!(plan_tick(&tt, hm(17, 0)).notify);
    assert!(should_notify(hm(9, 0) + 30, hm(9, 0)));
    assert!(!should_notify(hm(9, 1), hm(9, 0)));
}

#[test]
fn tick_plan_publishes_the_status_bytes() {
    let tt = vec![entry("08:00", "Focus"), entry("12:00", "Lunch")];
    let plan = plan_tick(&tt, hm(10, 30));
    assert_eq!(plan.now, hm(10, 30));
    assert_eq!(plan.bytes, b"Focus +150 -90".to_vec());
    assert!(!plan.notify);
}

#[test]
fn tick_from_the_clock_is_within_the_day() {
    let tt = vec![entry("00:00", "Day")];
    let plan = plan_tick_now(&tt);
    assert!(plan.now < SECONDS_PER_DAY);
    assert_eq!(plan.state.activity_name, "Day");
    assert_eq!(plan.state.time_done, plan.now / 60);
}

#[test]
fn publishing_twice_gives_identical_bytes() {
    let tt = vec![entry("08:00", "Focus"), entry("12:00", "Lunch")];
    let a = resolve(&tt, hm(10, 30));
    let b = resolve(&tt, hm(10, 30));
    assert_eq!(status_bytes(&a), status_bytes(&b));
    assert_eq!(status_bytes(&a), status_bytes(&a));
}

#[test]
fn reader_sees_the_published_line() {
    let state = ActivityState {
        activity_name: "Lunch".to_string(),
        activity_time: hm(12, 0),
        next_activity_time: hm(14, 0),
        time_done: 5,
        time_remaining: 115,
    };
    let bytes = status_bytes(&state);
    assert_eq!(bytes, b"Lunch +5 -115".to_vec());
    assert_eq!(decode_status(&bytes), Ok("Lunch +5 -115".to_string()));
}

#[test]
fn reader_keeps_non_ascii_labels() {
    let state = ActivityState {
        activity_name: "Café ☕".to_string(),
        activity_time: 0,
        next_activity_time: 60,
        time_done: 0,
        time_remaining: 1,
    };
    assert_eq!(decode_status(&status_bytes(&state)), Ok("Café ☕ +0 -1".to_string()));
}

#[test]
fn reader_rejects_bytes_that_are_not_text() {
    assert_eq!(decode_status(&vec![0x66, 0xff, 0x66]), Err(ReadError::NotText));
    assert_eq!(decode_status(&vec![0xe2, 0x98]), Err(ReadError::NotText));
}

#[test]
fn reader_takes_at_most_the_limit() {
    let long = vec![b'a'; READ_LIMIT + 10];
    let text = decode_status(&long).unwrap();
    assert_eq!(text.len(), READ_LIMIT);
    assert_eq!(decode_status(&Vec::new()), Ok(String::new()));
}

#[test]
fn decimal_text_values() {
    assert_eq!(decimal_text(0), "0");
    assert_eq!(decimal_text(7), "7");
    assert_eq!(decimal_text(10), "10");
    assert_eq!(decimal_text(1439), "1439");
    assert_eq!(decimal_text(u32::MAX), "4294967295");
}

#[test]
fn loop_phase_transitions() {
    assert_eq!(next_phase(Phase::Active, TickOutcome::Published), Phase::Active);
    assert_eq!(next_phase(Phase::Active, TickOutcome::PublishFailed), Phase::Terminated);
    assert_eq!(next_phase(Phase::Terminated, TickOutcome::Published), Phase::Terminated);
}

#[test]
fn channel_layouts() {
    assert_eq!(channel_layout(1), Ok(Layout::Mono));
    assert_eq!(channel_layout(2), Ok(Layout::Stereo));
    assert_eq!(channel_layout(6), Err(PlaybackError::UnsupportedChannels(6)));
    assert_eq!(channel_layout(0), Err(PlaybackError::UnsupportedChannels(0)));
}

#[test]
fn playback_rejects_bad_headers() {
    assert!(matches!(Playback::new(3, 44100), Err(PlaybackError::UnsupportedChannels(3))));
    assert!(matches!(Playback::new(2, 0), Err(PlaybackError::ZeroSampleRate)));
}

#[test]
fn fast_decode_starts_playback_after_warmup() {
    let mut p = Playback::new(2, 1000).unwrap();
    // each packet holds one second of stereo audio
    for _ in 1..WARMUP_PACKETS {
        assert_eq!(p.on_packet(2000, 5), PacketAction::Queue);
    }
    assert_eq!(p.decoded_ms(), 99_000);
    assert_eq!(p.on_packet(2000, 50), PacketAction::QueueAndPlay);
    assert_eq!(p.started_at, Some(50));
    assert_eq!(p.on_packet(2000, 60), PacketAction::Queue);
    let plan = p.on_finish(1050);
    assert!(!plan.play_now);
    assert_eq!(plan.wait_ms, 101_000 - 1000);
}

#[test]
fn slow_decode_plays_after_full_decode() {
    let mut p = Playback::new(1, 100).unwrap();
    for _ in 1..WARMUP_PACKETS {
        assert_eq!(p.on_packet(10, 0), PacketAction::Queue);
    }
    // 100 packets of 0.1 s decoded in 20 s: slower than real time
    assert_eq!(p.on_packet(10, 20_000), PacketAction::Queue);
    assert_eq!(p.started_at, None);
    let plan = p.on_finish(20_500);
    assert!(plan.play_now);
    assert_eq!(plan.wait_ms, 10_000);
}

#[test]
fn short_clip_never_reaches_warmup() {
    let mut p = Playback::new(2, 48000).unwrap();
    assert_eq!(p.on_packet(96000, 1), PacketAction::Queue);
    let plan = p.on_finish(2);
    assert!(plan.play_now);
    assert_eq!(plan.wait_ms, 1000);
}

#[test]
fn wait_is_zero_once_playback_has_run_out() {
    let mut p = Playback::new(1, 1000).unwrap();
    for _ in 0..WARMUP_PACKETS {
        p.on_packet(10, 0);
    }
    assert_eq!(p.on_packet(0, 0), PacketAction::Queue);
    // started at 0 ms with 1 s decoded; finishing 5 s later leaves nothing to wait
    let mut q = Playback::new(1, 1000).unwrap();
    for _ in 1..WARMUP_PACKETS {
        q.on_packet(10, 0);
    }
    assert_eq!(q.on_packet(10, 0), PacketAction::QueueAndPlay);
    assert_eq!(q.on_finish(5000).wait_ms, 0);
}

#[test]
fn daemon_directory_and_files() {
    assert_eq!(app_dir(Some("/home/u/.config".to_string())), Ok("/home/u/.config/yah".to_string()));
    assert_eq!(app_dir(None), Err(StartupError::ConfigHomeUnset));
    assert_eq!(channel_path("/home/u/.config/yah"), "/home/u/.config/yah/cronux");
    assert_eq!(sound_path("/home/u/.config/yah"), "/home/u/.config/yah/sound.ogg");
}

#[test]
fn config_list_is_read() {
    let doc = r#"{"timetable": [
        {"key": "08:00", "value": "Focus"},
        {"key": "12:00", "value": "Lunch"},
        {"key": "08:00", "value": "Deep work"},
        {"key": "13:00"},
        {"value": "orphan"},
        {"key": 5, "value": "number"}
    ], "other": []}"#;
    let entries = load_config(doc, "timetable").unwrap();
    assert_eq!(entries.len(), 2);
    assert_eq!(entries[0].key, "08:00");
    assert_eq!(entries[0].value, "Deep work");
    assert_eq!(entries[1].key, "12:00");
    assert_eq!(entries[1].value, "Lunch");
    assert_eq!(load_config(doc, "other").unwrap().len(), 0);
    assert_eq!(load_config(doc, "missing").unwrap().len(), 0);
}

#[test]
fn config_that_is_not_json_fails() {
    assert!(load_config("{not json", "timetable").is_err());
}

#[test]
fn collect_entries_binds_in_order() {
    let pairs = vec![
        (Some("b".to_string()), Some("1".to_string())),
        (Some("a".to_string()), None),
        (Some("a".to_string()), Some("2".to_string())),
        (None, Some("3".to_string())),
        (Some("b".to_string()), Some("4".to_string())),
    ];
    let entries = collect_entries(&pairs);
    assert_eq!(entries.len(), 2);
    assert_eq!((entries[0].key.as_str(), entries[0].value.as_str()), ("b", "4"));
    assert_eq!((entries[1].key.as_str(), entries[1].value.as_str()), ("a", "2"));
}
