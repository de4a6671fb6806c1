use musicsync::playlist::{m3u_semantically_equal, normalise_m3u, Playlist};
use musicsync::track::Track;

fn make_track(id: &str, device_path: &str) -> Track {
    Track {
        id: id.into(),
        name: format!("track_{id}"),
        artist: "".into(),
        size: 0,
        local_path: "".into(),
        device_path: device_path.into(),
        on_device: false,
    }
}

#[test]
fn m3u_format_matches_ruby_output() {
    let p = Playlist {
        name: "Test".into(),
        playlist_id: "1".into(),
        track_ids: vec!["10".into(), "11".into()],
        checked: true,
    };
    let t1 = make_track("10", "/sdcard/Music/Artist/Album/A.mp3");
    let t2 = make_track("11", "/sdcard/Music/Artist/Album/B.mp3");
    let lookup = |id: &str| -> Option<&Track> {
        match id {
            "10" => Some(&t1),
            "11" => Some(&t2),
            _ => None,
        }
    };
    let out = p.generate_m3u("/sdcard/Music/", lookup);
    assert_eq!(out, "#EXTM3U\nArtist/Album/A.mp3\nArtist/Album/B.mp3\n");
}

#[test]
fn m3u_empty_playlist_is_just_header() {
    let p = Playlist {
        name: "Empty".into(),
        playlist_id: "1".into(),
        track_ids: vec![],
        checked: false,
    };
    assert_eq!(p.generate_m3u("/sdcard/Music/", |_| None), "#EXTM3U\n");
}

#[test]
fn m3u_skips_missing_tracks() {
    let p = Playlist {
        name: "P".into(),
        playlist_id: "1".into(),
        track_ids: vec!["10".into(), "missing".into(), "11".into()],
        checked: false,
    };
    let t1 = make_track("10", "/sdcard/Music/A.mp3");
    let t2 = make_track("11", "/sdcard/Music/B.mp3");
    let lookup = |id: &str| -> Option<&Track> {
        match id {
            "10" => Some(&t1),
            "11" => Some(&t2),
            _ => None,
        }
    };
    assert_eq!(p.generate_m3u("/sdcard/Music/", lookup), "#EXTM3U\nA.mp3\nB.mp3\n");
}

#[test]
fn semantic_equality_ignores_line_endings() {
    let lf = "#EXTM3U\nA.mp3\nB.mp3\n";
    let crlf = "#EXTM3U\r\nA.mp3\r\nB.mp3\r\n";
    assert!(m3u_semantically_equal(lf, crlf));
}

#[test]
fn semantic_equality_ignores_trailing_blank_lines() {
    let a = "#EXTM3U\nA.mp3\nB.mp3\n";
    let b = "#EXTM3U\nA.mp3\nB.mp3\n\n\n";
    assert!(m3u_semantically_equal(a, b));
}

#[test]
fn semantic_equality_detects_real_differences() {
    let a = "#EXTM3U\nA.mp3\nB.mp3\n";
    let b = "#EXTM3U\nA.mp3\nC.mp3\n";
    assert!(!m3u_semantically_equal(a, b));
}

#[test]
fn device_filename_appends_m3u() {
    let p = Playlist {
        name: "Favourites".into(),
        playlist_id: "1".into(),
        track_ids: vec![],
        checked: false,
    };
    assert_eq!(p.device_filename(), "Favourites.m3u");
}

#[test]
fn blank_lines_and_white_ends_do_not_count() {
    assert!(m3u_semantically_equal("a\n\nb\n", "a \nb\t\r\n"));
    assert!(m3u_semantically_equal("", "\n \r\n"));
    assert_eq!(normalise_m3u("a \r\n\nb\n"), vec!["a".to_string(), "b".to_string()]);
    assert!(!m3u_semantically_equal("a\n", " a\n"));
    assert!(!m3u_semantically_equal("a\nb\n", "b\na\n"));
}
