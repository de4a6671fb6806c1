use musicsync::library::Library;
use musicsync::logs::{log_device_manifest_playlists, log_library_inventory, text_lines};
use musicsync::matching::DeviceFile;
use musicsync::numbers::{decimal_text, parse_number, push_padded};
use musicsync::order::{order_texts, sorted_texts, TextOrder};
use musicsync::playlist::Playlist;
use musicsync::protocol::ManifestPlaylist;
use musicsync::scan_log::{log_matching, log_root_change, log_scan_start};
use musicsync::text::{find_text, chars_of, join_text, split_text, trim_white};
use musicsync::track::Track;
use musicsync::tracks::TrackMap;

fn texts(v: &[&str]) -> Vec<String> {
    v.iter().map(|s| s.to_string()).collect()
}

fn track(id: &str, size: u64, on_device: bool) -> Track {
    Track {
        id: id.into(),
        name: format!("Song \"{id}\""),
        artist: "".into(),
        size,
        local_path: format!("/l/{id}"),
        device_path: format!("/d/{id}"),
        on_device,
    }
}

#[test]
fn quiet_log_says_nothing() {
    let lib = Library { music_folder: "".into(), tracks: TrackMap::new(), playlists: vec![] };
    assert!(log_library_inventory(false, "L.xml", &lib).is_empty());
    let files = vec![ManifestPlaylist { name: "P.m3u".into(), mtime: 0, content: "".into() }];
    assert!(log_device_manifest_playlists(false, &files).is_empty());
}

#[test]
fn inventory_is_sorted() {
    let mut tracks = TrackMap::new();
    tracks.insert("2".into(), track("2", 20, false));
    tracks.insert("10".into(), track("10", 10, true));
    let playlist = Playlist {
        name: "P".into(),
        playlist_id: "5".into(),
        track_ids: texts(&["10", "x"]),
        checked: true,
    };
    let lib = Library { music_folder: "".into(), tracks, playlists: vec![playlist] };
    let lines = log_library_inventory(true, "L.xml", &lib);
    assert_eq!(lines[0], "=== library load start: path=\"L.xml\" tracks=2 playlists=1");
    let place = |needle: &str| lines.iter().position(|l| l.contains(needle)).unwrap();
    assert!(place("id=10 ") < place("id=2 "));
    assert!(lines.len() > 5);
}

#[test]
fn playlist_files_are_logged_line_by_line() {
    let files = vec![
        ManifestPlaylist { name: "Q.m3u".into(), mtime: -3, content: "".into() },
        ManifestPlaylist { name: "P.m3u".into(), mtime: 7, content: "a\r\nb\n".into() },
    ];
    let lines = log_device_manifest_playlists(true, &files);
    assert_eq!(lines[0], "=== device playlist manifest start: 2 playlist files");
    assert!(lines[1].starts_with("DEVICE_PLAYLIST name=\"P.m3u\""));
    assert_eq!(lines[2], "  DEVICE_PLAYLIST_LINE name=\"P.m3u\" line=0 text=\"a\"");
    assert_eq!(lines[3], "  DEVICE_PLAYLIST_LINE name=\"P.m3u\" line=1 text=\"b\"");
    assert_eq!(lines[4], "DEVICE_PLAYLIST name=\"P.m3u\" content_end");
    assert!(lines[5].contains("mtime=-3"));
    assert_eq!(lines[6], "  DEVICE_PLAYLIST_LINE name=\"Q.m3u\" EMPTY");
}

#[test]
fn scan_start_counts_sizes() {
    let files = vec![
        DeviceFile { path: "a".into(), size: 5 },
        DeviceFile { path: "b".into(), size: 5 },
        DeviceFile { path: "c".into(), size: 5 },
        DeviceFile { path: "d".into(), size: 6 },
    ];
    let lines = log_scan_start(3, &files);
    assert_eq!(lines[0], "=== scan_device start: 3 iTunes tracks, 4 device files");
    assert_eq!(lines[1], "device file size distribution: 2 unique sizes, 1 duplicates");
    assert_eq!(lines[2], "  device[0] size=5 path=\"a\"");
    assert_eq!(lines.len(), 6);
}

#[test]
fn matching_names_sizes_nearby() {
    let mut tracks = TrackMap::new();
    tracks.insert("1".into(), track("1", 5000, true));
    tracks.insert("2".into(), track("2", 9000, false));
    let files = vec![
        DeviceFile { path: "a".into(), size: 5000 },
        DeviceFile { path: "b".into(), size: 9001 },
        DeviceFile { path: "c".into(), size: 20000 },
    ];
    assert_eq!(
        log_matching(&tracks, &files),
        texts(&[
            "MATCHED  track id=1 size=5000 name=\"Song \\\"1\\\"\" -> some device file with size 5000",
            "MISSING  track id=2 size=9000 name=\"Song \\\"2\\\"\" local=\"/l/2\" | nearby device sizes (\u{b1}1KB): [9001]",
            "=== matching summary: 1 matched, 1 unmatched (out of 2)",
        ])
    );
    assert_eq!(
        log_root_change("/a", "/b", 2),
        "music_root changed: was \"/a\", now \"/b\" \u{2014} rebased 2 tracks"
    );
}

#[test]
fn lines_end_in_line_feeds() {
    assert_eq!(text_lines("a\r\nb\n\nc"), texts(&["a", "b", "", "c"]));
    assert_eq!(text_lines("a\r"), texts(&["a\r"]));
    assert!(text_lines("").is_empty());
}

#[test]
fn texts_are_ordered_like_their_bytes() {
    assert_eq!(order_texts("10", "2"), TextOrder::Before);
    assert_eq!(order_texts("a", "a"), TextOrder::Same);
    assert_eq!(order_texts("b", "a"), TextOrder::After);
    assert_eq!(order_texts("\u{ff61}", "\u{10000}"), TextOrder::Before);
    assert_eq!(order_texts("ab", "a"), TextOrder::After);
    assert_eq!(sorted_texts(&texts(&["b", "a", "b", "ab"])), texts(&["a", "ab", "b"]));
}

#[test]
fn numbers_are_read_and_written() {
    assert_eq!(decimal_text(0), "0");
    assert_eq!(decimal_text(u64::MAX), "18446744073709551615");
    let mut s = String::new();
    push_padded(&mut s, 7, 3);
    push_padded(&mut s, 12345, 3);
    assert_eq!(s, "00712345");
    assert_eq!(parse_number("18446744073709551615", u64::MAX), Some(u64::MAX));
    assert_eq!(parse_number("18446744073709551616", u64::MAX), None);
    assert_eq!(parse_number("+7", 9), Some(7));
    assert_eq!(parse_number("", 9), None);
    assert_eq!(parse_number("+", 9), None);
    assert_eq!(parse_number("-7", 9), None);
    assert_eq!(parse_number("10", 9), None);
}

#[test]
fn text_is_searched_split_and_joined() {
    assert_eq!(find_text(&chars_of("abcabc"), &chars_of("ca")), Some(2));
    assert_eq!(find_text(&chars_of("abc"), &chars_of("x")), None);
    assert_eq!(find_text(&chars_of("abc"), &chars_of("")), Some(0));
    assert_eq!(split_text("a/b//c", '/'), texts(&["a", "b", "", "c"]));
    assert_eq!(join_text(&texts(&["a", "b", "c"]), 1, "-"), "b-c");
    assert_eq!(trim_white("\u{a0} a b \t\u{3000}"), "a b");
}
