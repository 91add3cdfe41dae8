use kopeysk::tracks::{extension, get_tracks, is_audio_extension, is_track};

fn entries(list: &[&str]) -> Vec<Option<String>> {
    list.iter().map(|name| Some(name.to_string())).collect()
}

#[test]
fn the_extension_stands_behind_the_last_dot() {
    assert_eq!(extension("song.mp3"), Some("mp3".to_string()));
    assert_eq!(extension("a.b.flac"), Some("flac".to_string()));
    assert_eq!(extension("song."), Some("".to_string()));
    assert_eq!(extension("song"), None);
    assert_eq!(extension(".mp3"), None);
    assert_eq!(extension(".a.mp3"), Some("mp3".to_string()));
    assert_eq!(extension(""), None);
    assert_eq!(extension("."), None);
    assert_eq!(extension(".."), None);
    assert_eq!(extension("..."), Some("".to_string()));
    assert_eq!(extension("п.вав"), Some("вав".to_string()));
}

#[test]
fn the_extension_is_that_of_the_path() {
    for name in ["song.mp3", "a.b.c", "x", ".x", ".x.y", "..", ".", "...", "a.", "ü.é", ""] {
        let expected = std::path::Path::new(name)
            .extension()
            .map(|ext| ext.to_str().unwrap().to_string());
        assert_eq!(extension(name), expected);
    }
}

#[test]
fn three_formats_are_playable() {
    for format in ["mp3", "wav", "flac"] {
        assert!(is_audio_extension(&format.to_string()));
    }
    for other in ["MP3", "ogg", "mp", "mp33", ""] {
        assert!(!is_audio_extension(&other.to_string()));
    }
}

#[test]
fn letter_case_does_not_matter() {
    for name in ["a.mp3", "a.MP3", "a.Mp3", "a.WAV", "a.wAv", "a.FLAC", "a.flaC"] {
        assert!(is_track(name));
    }
    for name in ["mp3", ".mp3", "a.mp4", "a.mp3.txt", "a", "a.flacc", "a.ФЛАК"] {
        assert!(!is_track(name));
    }
}

#[test]
fn the_list_holds_the_tracks_in_order() {
    let listing = Some(entries(&["b.wav", "cover.jpg", "a.MP3", "notes", "c.flac"]));
    assert_eq!(get_tracks(&listing), ["b.wav", "a.MP3", "c.flac"]);
}

#[test]
fn unreadable_entries_are_left_out() {
    let listing = Some(vec![None, Some("a.mp3".to_string()), None]);
    assert_eq!(get_tracks(&listing), ["a.mp3"]);
}

#[test]
fn an_unreadable_folder_has_no_tracks() {
    assert!(get_tracks(&None).is_empty());
    assert!(get_tracks(&Some(Vec::new())).is_empty());
}
