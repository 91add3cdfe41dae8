use kopeysk::player::{AppState, Control};
use kopeysk::position::SECOND;
use kopeysk::settings::load_settings;
use kopeysk::worker::{Answers, Ending, Observed, Opened, Worker, NO_INDEX, UNKNOWN_LENGTH};

fn player(list: &[&str]) -> AppState {
    AppState::new(
        load_settings(None),
        list.iter().map(|name| name.to_string()).collect(),
    )
}

#[test]
fn a_fresh_worker_rests_until_asked() {
    let s = player(&["a", "b"]);
    let w = Worker::new();
    assert_eq!(w.last_idx, NO_INDEX);
    assert_eq!(NO_INDEX, 99999);
    assert!(!w.must_reload(&s.command(), true));
    assert!(!w.must_reload(&s.command(), false));
}

#[test]
fn the_snapshot_copies_the_state() {
    let mut s = player(&["a", "b"]);
    s.slide_volume(0.25f32.to_bits(), true);
    s.slide_gain(9, 1.5f32.to_bits(), true, true);
    s.press(Control::Select(1));
    s.press(Control::Rewind(20.0f32.to_bits()));
    let cmd = s.command();
    assert!(cmd.playing);
    assert_eq!(cmd.cur_idx, 1);
    assert_eq!(cmd.music_folder, "C:/Users/delowar/Music");
    assert_eq!(cmd.vol, 0.25f32.to_bits());
    assert!(cmd.should_skip);
    assert_eq!(cmd.seek_request, Some(10.0f32.to_bits()));
    assert_eq!(cmd.target(), 10 * SECOND);
    assert_eq!(cmd.eq_gains[9], 1.5f32.to_bits());
    assert_eq!(player(&[]).command().target(), 0);
}

#[test]
fn each_reason_makes_a_reload_due() {
    let mut s = player(&["a", "b"]);
    let w = Worker { last_idx: 0 };
    assert!(!w.must_reload(&s.command(), true));
    s.playing = true;
    assert!(!w.must_reload(&s.command(), false));
    assert!(w.must_reload(&s.command(), true));
    s.settings.cur_idx = 1;
    assert!(w.must_reload(&s.command(), false));
    s.settings.cur_idx = 0;
    s.playing = false;
    s.should_skip = true;
    assert!(w.must_reload(&s.command(), false));
    s.should_skip = false;
    s.seek_request = Some(0);
    assert!(w.must_reload(&s.command(), false));
}

#[test]
fn a_dry_sink_moves_the_list_on() {
    let mut s = player(&["a", "b"]);
    s.playing = true;
    let cmd = s.command();
    assert_eq!(s.choose_track(&cmd, false), Some("a".to_string()));
    assert_eq!(s.choose_track(&cmd, true), Some("b".to_string()));
    assert_eq!(s.settings.cur_idx, 1);
    assert_eq!(s.choose_track(&cmd, true), Some("a".to_string()));
    assert_eq!(s.settings.cur_idx, 0);
}

#[test]
fn the_first_play_starts_behind_the_current_track() {
    let mut s = player(&["a", "b", "c"]);
    let w = Worker::new();
    s.press(Control::PlayPause);
    let cmd = s.command();
    assert!(w.must_reload(&cmd, true));
    assert_eq!(s.choose_track(&cmd, true), Some("b".to_string()));
}

#[test]
fn a_selected_track_is_opened() {
    let mut s = player(&["a", "b", "c"]);
    s.press(Control::Select(2));
    let cmd = s.command();
    assert!(Worker { last_idx: 2 }.must_reload(&cmd, false));
    assert_eq!(s.choose_track(&cmd, true), Some("c".to_string()));
    assert_eq!(s.settings.cur_idx, 2);
}

#[test]
fn a_stopped_player_does_not_move_on() {
    let mut s = player(&["a", "b"]);
    s.seek_request = Some(5);
    let cmd = s.command();
    assert_eq!(s.choose_track(&cmd, true), Some("a".to_string()));
}

#[test]
fn there_may_be_no_track_to_open() {
    let mut s = player(&[]);
    s.playing = true;
    let cmd = s.command();
    assert_eq!(s.choose_track(&cmd, true), None);
    let mut s = player(&["a", "b"]);
    s.settings.cur_idx = 2;
    s.should_skip = true;
    let cmd = s.command();
    assert_eq!(s.choose_track(&cmd, true), None);
    assert_eq!(s.settings.cur_idx, 2);
}

#[test]
fn a_queued_track_settles_the_requests() {
    let mut s = player(&["a", "b"]);
    let mut w = Worker::new();
    s.press(Control::Select(1));
    s.press(Control::Forward(30.0f32.to_bits()));
    let cmd = s.command();
    s.choose_track(&cmd, false);
    let opened = Opened { length: Some(200 * SECOND), now: 7 };
    w.conclude(&mut s, &cmd, Some(opened));
    assert_eq!(s.total_time, 200 * SECOND);
    assert_eq!(s.elapsed_time, 40 * SECOND);
    assert_eq!(s.start_instant, Some(7 - 40_000_000_000));
    assert!(!s.should_skip);
    assert_eq!(s.seek_request, None);
    assert!(s.playing);
    assert_eq!(w.last_idx, 1);
    assert!(!w.must_reload(&s.command(), false));
}

#[test]
fn a_track_of_unknown_length_shows_five_minutes() {
    let mut s = player(&["a"]);
    let mut w = Worker::new();
    s.press(Control::Select(0));
    let cmd = s.command();
    w.conclude(&mut s, &cmd, Some(Opened { length: None, now: 50 }));
    assert_eq!(s.total_time, UNKNOWN_LENGTH);
    assert_eq!(UNKNOWN_LENGTH, 300 * SECOND);
    assert_eq!(s.elapsed_time, 0);
    assert_eq!(s.start_instant, Some(50));
}

#[test]
fn a_failed_opening_keeps_the_requests() {
    let mut s = player(&["a", "b"]);
    let mut w = Worker::new();
    s.press(Control::Select(1));
    let cmd = s.command();
    s.choose_track(&cmd, true);
    w.conclude(&mut s, &cmd, None);
    assert!(s.should_skip);
    assert_eq!(s.total_time, SECOND);
    assert_eq!(s.start_instant, None);
    assert_eq!(w.last_idx, 1);
    assert!(w.must_reload(&s.command(), true));
    assert!(w.must_reload(&s.command(), false));
}

#[test]
fn unplayable_tracks_are_passed_over() {
    let mut s = player(&["a", "b", "c"]);
    let mut w = Worker::new();
    s.playing = true;
    let mut tried = Vec::new();
    for _ in 0..4 {
        let cmd = s.command();
        assert!(w.must_reload(&cmd, true));
        tried.push(s.choose_track(&cmd, true).unwrap());
        w.conclude(&mut s, &cmd, None);
    }
    assert_eq!(tried, ["b", "c", "a", "b"]);
}

#[test]
fn stop_cues_the_current_track() {
    let mut s = player(&["a", "b"]);
    let mut w = Worker { last_idx: 1 };
    s.press(Control::Select(1));
    s.should_skip = false;
    s.elapsed_time = 9 * SECOND;
    s.press(Control::Stop);
    let cmd = s.command();
    assert!(w.must_reload(&cmd, false));
    assert_eq!(s.choose_track(&cmd, true), Some("b".to_string()));
    w.conclude(&mut s, &cmd, Some(Opened { length: None, now: 0 }));
    assert_eq!(s.elapsed_time, 0);
    assert!(!w.must_reload(&s.command(), true));
    assert!(!w.must_reload(&s.command(), false));
}

#[test]
fn the_elapsed_time_follows_the_clock() {
    let mut s = player(&["a"]);
    let mut w = Worker::new();
    s.press(Control::Select(0));
    s.seek_request = Some(4.0f32.to_bits());
    let cmd = s.command();
    w.conclude(&mut s, &cmd, Some(Opened { length: None, now: 100 }));
    let cmd = s.command();
    let seen = s.observe(&cmd, false, false, 100 + 2_000_000_000);
    assert!(seen == Observed::Running);
    assert_eq!(s.elapsed_time, 6 * SECOND);
    s.start_instant = Some(1000);
    let seen = s.observe(&cmd, false, false, 999);
    assert!(seen == Observed::Running);
    assert_eq!(s.elapsed_time, 0);
}

#[test]
fn a_silent_sink_leaves_the_time_alone() {
    let mut s = player(&["a"]);
    s.elapsed_time = 5;
    let cmd = s.command();
    assert!(s.observe(&cmd, true, false, 9) == Observed::Silent);
    assert!(s.observe(&cmd, false, true, 9) == Observed::Silent);
    assert!(s.observe(&cmd, false, false, 9) == Observed::Unchanged);
    s.playing = true;
    let cmd = s.command();
    assert!(s.observe(&cmd, true, false, 9) == Observed::Silent);
    assert!(s.observe(&cmd, false, true, 9) == Observed::Silent);
    assert_eq!(s.elapsed_time, 5);
}

fn sounding_at(now: i128) -> Option<Ending> {
    Some(Ending { sink_empty: false, sink_paused: false, now })
}

fn silent_at(now: i128) -> Option<Ending> {
    Some(Ending { sink_empty: true, sink_paused: false, now })
}

#[test]
fn the_sink_plays_as_the_snapshot_says() {
    let mut s = player(&["a"]);
    let rest = s.command();
    assert!(!rest.plays());
    s.press(Control::PlayPause);
    assert!(s.command().plays());
    assert!(!rest.plays());
    s.press(Control::Stop);
    assert!(!s.command().plays());
}

#[test]
fn a_place_is_tested_before_it_is_sought() {
    let mut s = player(&["a"]);
    assert!(s.command().place_is_span());
    s.seek_request = Some(12.5f32.to_bits());
    assert!(s.command().place_is_span());
    s.seek_request = Some(0x5f7f_ffff);
    assert!(s.command().place_is_span());
    assert_eq!(s.command().target(), 18_446_742_974_197_923_840 * SECOND);
    s.seek_request = Some(18_446_744_073_709_551_616.0f32.to_bits());
    assert!(!s.command().place_is_span());
    s.seek_request = Some((-1.0f32).to_bits());
    assert!(!s.command().place_is_span());
    s.seek_request = Some(f32::NAN.to_bits());
    assert!(!s.command().place_is_span());
}

#[test]
fn a_round_without_reload_moves_the_time_alone() {
    let mut s = player(&["a", "b"]);
    s.playing = true;
    s.start_instant = Some(100);
    s.total_time = 7;
    let mut w = Worker { last_idx: 0 };
    let answers = Answers {
        sink_empty: false,
        after_stop: true,
        opened: Some(Opened { length: Some(9), now: 50 }),
        ending: sounding_at(350),
    };
    let report = w.replay(&mut s, &answers);
    assert!(!report.stops);
    assert_eq!(report.tried, None);
    assert!(report.plays);
    assert_eq!(report.volume, s.settings.vol);
    assert_eq!(report.seen, Some(Observed::Running));
    assert_eq!(w.last_idx, 0);
    assert_eq!(s.elapsed_time, 250);
    assert_eq!((s.total_time, s.start_instant, s.settings.cur_idx), (7, Some(100), 0));
}

#[test]
fn a_selected_track_is_tried_and_then_left_to_play() {
    let mut s = player(&["a", "b", "c"]);
    let mut w = Worker::new();
    s.press(Control::Select(2));
    s.press(Control::Forward(5.0f32.to_bits()));
    let second = SECOND as i128;
    let report = w.replay(&mut s, &Answers {
        sink_empty: true,
        after_stop: true,
        opened: Some(Opened { length: Some(60 * SECOND), now: 100 * second }),
        ending: sounding_at(101 * second),
    });
    assert!(report.stops);
    assert_eq!(report.tried, Some("c".to_string()));
    assert!(report.plays);
    assert_eq!(report.seen, Some(Observed::Running));
    assert_eq!(w.last_idx, 2);
    assert_eq!(s.start_instant, Some(85 * second));
    assert_eq!(s.elapsed_time, 16 * SECOND);
    assert_eq!(s.total_time, 60 * SECOND);
    assert!(!s.should_skip);
    assert_eq!(s.seek_request, None);

    let report = w.replay(&mut s, &Answers {
        sink_empty: false,
        after_stop: true,
        opened: None,
        ending: sounding_at(103 * second),
    });
    assert!(!report.stops);
    assert_eq!(report.tried, None);
    assert_eq!(w.last_idx, 2);
    assert_eq!(s.settings.cur_idx, 2);
    assert_eq!(s.elapsed_time, 18 * SECOND);
}

#[test]
fn a_stopped_round_changes_nothing() {
    let mut s = player(&["a"]);
    let mut w = Worker::new();
    s.elapsed_time = 5;
    let report = w.replay(&mut s, &Answers {
        sink_empty: true,
        after_stop: true,
        opened: Some(Opened { length: None, now: 0 }),
        ending: silent_at(0),
    });
    assert!(!report.stops);
    assert!(!report.plays);
    assert_eq!(report.seen, Some(Observed::Silent));
    assert_eq!(w.last_idx, NO_INDEX);
    assert_eq!((s.elapsed_time, s.start_instant), (5, None));
}

#[test]
fn dry_rounds_move_on_until_a_track_opens() {
    let mut s = player(&["a", "b", "c"]);
    let mut w = Worker::new();
    s.press(Control::PlayPause);
    let fruitless = Answers { sink_empty: true, after_stop: true, opened: None, ending: silent_at(0) };
    for name in ["b", "c", "a", "b"] {
        let report = w.replay(&mut s, &fruitless);
        assert!(report.stops);
        assert_eq!(report.tried, Some(name.to_string()));
        assert_eq!(report.seen, Some(Observed::Silent));
        assert_eq!(w.last_idx, s.settings.cur_idx);
        assert_eq!(s.start_instant, None);
    }
    let report = w.replay(&mut s, &Answers {
        opened: Some(Opened { length: None, now: 40 }),
        ending: None,
        ..fruitless
    });
    assert_eq!(report.tried, Some("c".to_string()));
    assert_eq!(report.seen, None);
    assert_eq!(s.start_instant, Some(40));
    assert_eq!(s.total_time, UNKNOWN_LENGTH);
}

#[test]
fn a_request_stays_open_through_a_fruitless_round() {
    let mut s = player(&["a", "b"]);
    let mut w = Worker { last_idx: 1 };
    s.press(Control::Select(1));
    let report = w.replay(&mut s, &Answers {
        sink_empty: false,
        after_stop: true,
        opened: None,
        ending: silent_at(0),
    });
    assert_eq!(report.tried, Some("b".to_string()));
    assert!(s.should_skip);
    assert_eq!(s.settings.cur_idx, 1);
    assert!(w.must_reload(&s.command(), false));
}

#[test]
fn a_round_on_an_empty_list_tries_nothing() {
    let mut s = player(&[]);
    let mut w = Worker::new();
    s.press(Control::PlayPause);
    let report = w.replay(&mut s, &Answers {
        sink_empty: true,
        after_stop: true,
        opened: Some(Opened { length: None, now: 0 }),
        ending: silent_at(0),
    });
    assert!(report.stops);
    assert_eq!(report.tried, None);
    assert_eq!(w.last_idx, 0);
    assert_eq!(s.start_instant, None);
}

#[test]
fn a_control_during_a_round_waits_for_the_next() {
    let mut s = player(&["a", "b"]);
    s.playing = true;
    s.start_instant = Some(0);
    let mut w = Worker { last_idx: 0 };
    let cmd = s.command();
    assert!(!w.must_reload(&cmd, false));
    s.press(Control::Stop);
    assert!(cmd.plays());
    assert_eq!(s.observe(&cmd, false, false, 30), Observed::Running);
    assert!(s.should_skip);
    let report = w.replay(&mut s, &Answers {
        sink_empty: false,
        after_stop: false,
        opened: Some(Opened { length: None, now: 60 }),
        ending: Some(Ending { sink_empty: false, sink_paused: true, now: 60 }),
    });
    assert!(report.stops);
    assert!(!report.plays);
    assert_eq!(report.tried, Some("a".to_string()));
    assert_eq!(report.seen, Some(Observed::Silent));
    assert_eq!(s.elapsed_time, 0);
}
