use kopeysk::equalizer::{band_label, live_gain, EQ_FREQS};
use kopeysk::panel::{title_line, track_label};
use kopeysk::player::AppState;
use kopeysk::position::SECOND;
use kopeysk::settings::{load_settings, Settings, BANDS};
use kopeysk::text::{decimal_string, two_digit_string};

fn player(list: &[&str]) -> AppState {
    AppState::new(
        load_settings(None),
        list.iter().map(|name| name.to_string()).collect(),
    )
}

#[test]
fn numbers_are_written_in_decimal() {
    for n in [0, 1, 9, 10, 42, 99, 100, 1000, 65535, usize::MAX] {
        assert_eq!(decimal_string(n), format!("{}", n));
        assert_eq!(two_digit_string(n), format!("{:02}", n));
    }
}

#[test]
fn tracks_are_numbered_from_one() {
    assert_eq!(track_label(0, "a.mp3"), "01. a.mp3");
    assert_eq!(track_label(8, "x"), "09. x");
    assert_eq!(track_label(9, "x"), "10. x");
    assert_eq!(track_label(99, "Песня"), "100. Песня");
}

#[test]
fn rows_mark_the_current_track() {
    let mut s = player(&["a", "b", "c"]);
    s.settings.cur_idx = 1;
    for (i, label) in ["01. a", "02. b", "03. c"].into_iter().enumerate() {
        let row = s.row(i);
        assert_eq!(row.label, label);
        assert_eq!(row.selected, i == 1);
    }
    s.settings.cur_idx = 3;
    assert!((0..3).all(|i| !s.row(i).selected));
}

#[test]
fn the_title_is_in_upper_case() {
    let mut s = player(&["a song.mp3", "straße.wav"]);
    assert_eq!(s.title(), "A SONG.MP3");
    s.settings.cur_idx = 1;
    assert_eq!(s.title(), "STRASSE.WAV");
    s.settings.cur_idx = 2;
    assert_eq!(s.title(), "NO TRACK");
    assert_eq!(title_line(None), "NO TRACK");
    assert_eq!(title_line(Some("X".to_string())), "X");
}

#[test]
fn the_play_button_says_what_it_does() {
    let mut s = player(&[]);
    assert_eq!(s.play_caption(), "PLAY");
    s.playing = true;
    assert_eq!(s.play_caption(), "PAUSE");
}

#[test]
fn the_progress_bar_spans_a_second_at_least() {
    let mut s = player(&[]);
    s.total_time = 0;
    assert_eq!(s.shown_total(), SECOND);
    s.total_time = SECOND - 1;
    assert_eq!(s.shown_total(), SECOND);
    s.total_time = SECOND + 1;
    assert_eq!(s.shown_total(), SECOND + 1);
}

#[test]
fn bands_are_labelled() {
    let labels: Vec<String> = (0..BANDS).map(band_label).collect();
    assert_eq!(
        labels,
        ["31", "62", "125", "250", "500", "1k", "2k", "4k", "8k", "16k"]
    );
    for band in 0..BANDS {
        let freq = EQ_FREQS[band] as f32;
        let expected = if freq >= 1000.0 {
            format!("{}k", freq / 1000.0)
        } else {
            format!("{}", freq)
        };
        assert_eq!(labels[band], expected);
    }
}

#[test]
fn levels_stand_for_gains() {
    assert_eq!(live_gain(20), 0);
    assert_eq!(live_gain(5), -15);
    assert_eq!(live_gain(35), 15);
    assert_eq!(live_gain(0), -20);
    assert_eq!(live_gain(i32::MAX as u32), i32::MAX - 20);
    assert_eq!(live_gain(u32::MAX), -21);
    assert_eq!(live_gain(0x8000_0014), i32::MIN);
    for level in [0, 7, 20, 35, 70_000, u32::MAX] {
        assert_eq!(live_gain(level), level as i32 - 20);
    }
}

#[test]
fn sliders_are_stored() {
    let mut s = player(&[]);
    s.slide_gain(0, (-3.5f32).to_bits(), true, false);
    s.slide_gain(9, 15.0f32.to_bits(), false, false);
    s.slide_volume(1.0f32.to_bits(), false);
    assert_eq!(f32::from_bits(s.settings.eq_gains[0]), -3.5);
    assert_eq!(f32::from_bits(s.settings.eq_gains[9]), 15.0);
    assert_eq!(f32::from_bits(s.settings.eq_gains[5]), 0.0);
    assert_eq!(f32::from_bits(s.settings.vol), 1.0);
}

#[test]
fn sliders_say_what_to_share_and_save() {
    let mut s = player(&[]);
    let gain = (-3.5f32).to_bits();
    assert_eq!(s.slide_gain(2, gain, false, false), (None, false));
    assert_eq!(s.slide_gain(2, gain, true, false), (Some(16), false));
    assert_eq!(s.slide_gain(2, gain, false, true), (None, true));
    assert_eq!(s.slide_gain(2, gain, true, true), (Some(16), true));
    assert!(s.slide_volume(gain, true));
    assert!(!s.slide_volume(gain, false));
}

#[test]
fn missing_settings_are_the_initial_ones() {
    let initial = load_settings(None);
    assert_eq!(f32::from_bits(initial.vol), 0.5);
    assert_eq!(initial.cur_idx, 0);
    assert_eq!(initial.music_folder, "C:/Users/delowar/Music");
    assert!(initial.eq_gains.iter().all(|gain| f32::from_bits(*gain) == 0.0));
}

#[test]
fn stored_settings_are_taken_as_they_are() {
    let stored = Settings {
        vol: 0.1f32.to_bits(),
        cur_idx: 12,
        music_folder: "/music".to_string(),
        eq_gains: [1.5f32.to_bits(); 10],
    };
    let kept = load_settings(Some(stored.clone()));
    assert_eq!(kept.vol, stored.vol);
    assert_eq!(kept.cur_idx, 12);
    assert_eq!(kept.music_folder, "/music");
    assert_eq!(kept.eq_gains, stored.eq_gains);
}
