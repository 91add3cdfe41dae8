use kopeysk::player::{AppState, Control};
use kopeysk::position::{nanoseconds, ten_earlier, ten_later, SECOND};
use kopeysk::settings::load_settings;

fn names(list: &[&str]) -> Vec<String> {
    list.iter().map(|name| name.to_string()).collect()
}

fn player(list: &[&str]) -> AppState {
    AppState::new(load_settings(None), names(list))
}

#[test]
fn starts_stopped() {
    let s = player(&["a.mp3", "b.wav"]);
    assert!(!s.playing);
    assert!(!s.should_skip);
    assert_eq!(s.elapsed_time, 0);
    assert_eq!(s.total_time, SECOND);
    assert_eq!(s.start_instant, None);
    assert_eq!(s.seek_request, None);
    assert_eq!(s.settings.cur_idx, 0);
    assert_eq!(s.track_list, names(&["a.mp3", "b.wav"]));
}

#[test]
fn select_plays_the_row() {
    let mut s = player(&["a", "b", "c"]);
    s.press(Control::Select(2));
    assert_eq!(s.settings.cur_idx, 2);
    assert!(s.playing);
    assert!(s.should_skip);
}

#[test]
fn prev_stops_at_the_first_track() {
    let mut s = player(&["a", "b"]);
    s.press(Control::Prev);
    assert_eq!(s.settings.cur_idx, 0);
    assert!(!s.should_skip);
    s.settings.cur_idx = 1;
    s.press(Control::Prev);
    assert_eq!(s.settings.cur_idx, 0);
    assert!(s.should_skip);
}

#[test]
fn next_wraps_round() {
    let mut s = player(&["a", "b", "c"]);
    for expected in [1, 2, 0, 1] {
        s.press(Control::Next);
        assert_eq!(s.settings.cur_idx, expected);
        assert!(s.should_skip);
    }
}

#[test]
fn next_on_an_empty_list_does_nothing() {
    let mut s = player(&[]);
    s.settings.cur_idx = usize::MAX;
    s.press(Control::Next);
    assert_eq!(s.settings.cur_idx, usize::MAX);
    assert!(!s.should_skip);
}

#[test]
fn next_repairs_an_index_beyond_the_list() {
    let mut s = player(&["a", "b", "c"]);
    s.settings.cur_idx = 40;
    s.press(Control::Next);
    assert_eq!(s.settings.cur_idx, 2);
}

#[test]
fn prev_and_next_undo_each_other() {
    let mut s = player(&["a", "b", "c"]);
    s.settings.cur_idx = 1;
    s.press(Control::Next);
    s.press(Control::Prev);
    assert_eq!(s.settings.cur_idx, 1);
    s.press(Control::Prev);
    s.press(Control::Next);
    assert_eq!(s.settings.cur_idx, 1);
}

#[test]
fn play_pause_toggles() {
    let mut s = player(&["a"]);
    s.press(Control::PlayPause);
    assert!(s.playing);
    assert!(!s.should_skip);
    s.press(Control::PlayPause);
    assert!(!s.playing);
}

#[test]
fn stop_clears_the_elapsed_time() {
    let mut s = player(&["a", "b"]);
    s.press(Control::Select(1));
    s.should_skip = false;
    s.elapsed_time = 7 * SECOND;
    s.press(Control::Stop);
    assert!(!s.playing);
    assert!(s.should_skip);
    assert_eq!(s.elapsed_time, 0);
    assert_eq!(s.settings.cur_idx, 1);
}

#[test]
fn rewind_goes_back_ten_seconds() {
    let mut s = player(&["a"]);
    s.elapsed_time = 12_345_678_901;
    let place = std::time::Duration::from_nanos(12_345_678_901).as_secs_f32();
    s.press(Control::Rewind(place.to_bits()));
    assert_eq!(s.seek_request, Some((place - 10.0).to_bits()));
    assert_eq!(s.seek_request, Some(2.345_679_3f32.to_bits()));
    assert_eq!(s.elapsed_time, 12_345_678_901);
}

#[test]
fn rewind_stops_at_the_start() {
    let mut s = player(&["a"]);
    for place in [0.0f32, 4.0, 9.999_999, 10.0, 1e-30] {
        s.press(Control::Rewind(place.to_bits()));
        assert_eq!(s.seek_request, Some(0.0f32.to_bits()));
    }
}

#[test]
fn forward_goes_on_ten_seconds() {
    let mut s = player(&["a"]);
    s.press(Control::Forward(3.0f32.to_bits()));
    assert_eq!(s.seek_request, Some(13.0f32.to_bits()));
    s.press(Control::Rewind(13.0f32.to_bits()));
    assert_eq!(s.seek_request, Some(3.0f32.to_bits()));
    s.press(Control::Forward(0.1f32.to_bits()));
    assert_eq!(s.seek_request, Some((0.1f32 + 10.0).to_bits()));
}

fn places() -> Vec<f32> {
    let mut places = vec![
        0.0, 1e-45, 1e-38, 1e-12, 4.2e-7, 0.999e-9, 0.5e-9, 1.5e-9, 2.5e-9, 1e-9, 0.1, 2.7, 9.999_999,
        10.0, 10.000_001, 15.999_999, 16.0, 16_777_206.0, 16_777_205.0, 16_777_216.0, 33_554_432.0,
        33_554_436.0, 1e9, 1e12, 1.8e19, 18_446_742_974_197_923_840.0,
    ];
    let mut place = 1e-10f32;
    while place < 1e19 {
        places.push(place);
        place *= 1.013;
    }
    let mut bits = 0u32;
    while bits < 0x5f80_0000 {
        places.push(f32::from_bits(bits));
        bits += 777_777;
    }
    places
}

#[test]
fn seeks_are_those_of_singles() {
    for place in places() {
        let bits = place.to_bits();
        assert_eq!(ten_later(bits), (place + 10.0).to_bits());
        assert_eq!(ten_earlier(bits), (place - 10.0).max(0.0).to_bits());
    }
}

#[test]
fn places_are_rounded_to_nanoseconds() {
    for place in places() {
        let expected = std::time::Duration::from_secs_f32(place).as_nanos();
        assert_eq!(nanoseconds(place.to_bits()), expected);
    }
    assert_eq!(nanoseconds(2.7f32.to_bits()), 2_700_000_048);
    assert_eq!(nanoseconds(3.0f32.to_bits()), 3 * SECOND);
    assert_eq!(nanoseconds(1.0f32.to_bits() - (127 << 23) + (118 << 23)), 1_953_125);
}

#[test]
fn seeks_undo_each_other_where_nothing_is_rounded() {
    for place in [10.0f32, 12.5, 345.678, 3_600.1, 16_777_215.0] {
        let bits = place.to_bits();
        assert_eq!(ten_later(ten_earlier(bits)), bits);
    }
    for place in [0.0f32, 3.0, 5.5, 20.25] {
        let bits = place.to_bits();
        assert_eq!(ten_earlier(ten_later(bits)), bits);
    }
    let rounded = 1e-7f32.to_bits();
    assert!(ten_earlier(ten_later(rounded)) != rounded);
}

#[test]
fn controls_leave_the_rest_alone() {
    let mut s = player(&["a", "b"]);
    s.slide_volume(0.75f32.to_bits(), true);
    s.slide_gain(3, 2.5f32.to_bits(), true, false);
    for control in [
        Control::Select(1),
        Control::Prev,
        Control::Rewind(20.0f32.to_bits()),
        Control::PlayPause,
        Control::Stop,
        Control::Forward(20.0f32.to_bits()),
        Control::Next,
    ] {
        s.press(control);
        assert_eq!(s.settings.vol, 0.75f32.to_bits());
        assert_eq!(s.settings.eq_gains[3], 2.5f32.to_bits());
        assert_eq!(s.track_list, names(&["a", "b"]));
        assert_eq!(s.total_time, SECOND);
        assert_eq!(s.start_instant, None);
        assert!(s.settings.cur_idx < 2);
    }
}
