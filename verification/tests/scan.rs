use musicsync::cleanup::{device_path_by_size, tracks_to_delete};
use musicsync::library::Library;
use musicsync::matching::DeviceFile;
use musicsync::playlist::Playlist;
use musicsync::preview::{compute_preview, current_view, preview_songs};
use musicsync::protocol::ManifestPlaylist;
use musicsync::scan::{
    basename_of_playlist, count_entries, count_playlist_lines, evaluate_scan, is_m3u_path,
    orphan_paths, LastScan,
};
use musicsync::settings::{PlaylistAction, RememberedPlaylist, Settings};
use musicsync::track::Track;
use musicsync::tracks::TrackMap;
use musicsync::views::build_views_with_scan;

fn texts(v: &[&str]) -> Vec<String> {
    v.iter().map(|s| s.to_string()).collect()
}

fn track(id: &str, size: u64) -> Track {
    Track {
        id: id.into(),
        name: format!("Song {id}"),
        artist: format!("Artist {id}"),
        size,
        local_path: format!("/Users/u/{id}.mp3"),
        device_path: format!("/sdcard/Music/{id}.mp3"),
        on_device: false,
    }
}

fn playlist(name: &str, ids: &[&str], checked: bool) -> Playlist {
    Playlist {
        name: name.into(),
        playlist_id: format!("id-{name}"),
        track_ids: texts(ids),
        checked,
    }
}

fn file(path: &str, size: u64) -> DeviceFile {
    DeviceFile { path: path.into(), size }
}

fn playlist_file(name: &str, content: &str) -> ManifestPlaylist {
    ManifestPlaylist { name: name.into(), mtime: 0, content: content.into() }
}

fn library() -> Library {
    let mut tracks = TrackMap::new();
    for (id, size) in [("1", 10), ("2", 20), ("3", 30), ("4", 40)] {
        tracks.insert(id.into(), track(id, size));
    }
    Library {
        music_folder: "file:///Users/u/".into(),
        tracks,
        playlists: vec![
            playlist("P", &["1", "2", "4"], true),
            playlist("Q", &["2", "3"], false),
            playlist("R", &["1"], true),
        ],
    }
}

fn scanned(lib: &mut Library) -> LastScan {
    evaluate_scan(
        &mut lib.tracks,
        vec![
            file("1.mp3", 10),
            file("z.mp3", 99),
            file("3.mp3", 30),
            file("P.m3u", 7),
            file("a.mp3", 98),
            file("z.mp3", 99),
        ],
        &vec![playlist_file("P.m3u", "#EXTM3U\n1.mp3\n\n2.mp3\n")],
        "/sdcard/Music/".into(),
        1234,
    )
}

#[test]
fn entries_are_counted() {
    assert_eq!(count_entries("#EXTM3U\na.mp3\r\n  \n # note\nb.mp3"), 2);
    assert_eq!(count_entries(""), 0);
}

#[test]
fn playlist_files_have_names() {
    assert_eq!(basename_of_playlist("Music/Favourites.m3u"), "Favourites");
    assert_eq!(basename_of_playlist("Music/Favourites.m3u8"), "Music/Favourites.m3u8");
    let counts = count_playlist_lines(&vec![
        playlist_file("x/P.m3u", "a\nb\n"),
        playlist_file("P.m3u", "a\n"),
        playlist_file("Q.m3u", "#\n"),
    ]);
    assert_eq!(counts.get("P"), Some(&1));
    assert_eq!(counts.get("Q"), Some(&0));
    assert_eq!(counts.get("R"), None);
}

#[test]
fn playlist_paths_are_known_by_their_ending() {
    assert!(is_m3u_path("a.m3u"));
    assert!(is_m3u_path("a.M3U"));
    assert!(!is_m3u_path("a.m3u8"));
    assert!(!is_m3u_path("m3u"));
}

#[test]
fn orphans_have_the_size_of_no_track() {
    let lib = library();
    let files = vec![file("z.mp3", 99), file("x.mp3", 10), file("a.mp3", 98), file("p.M3u", 97)];
    assert_eq!(orphan_paths(&files, &lib.tracks), texts(&["a.mp3", "z.mp3"]));
}

#[test]
fn scan_marks_tracks_and_finds_orphans() {
    let mut lib = library();
    let scan = scanned(&mut lib);
    assert!(lib.tracks.get("1").unwrap().on_device);
    assert!(!lib.tracks.get("2").unwrap().on_device);
    assert!(lib.tracks.get("3").unwrap().on_device);
    assert_eq!(scan.unused_device_paths, texts(&["a.mp3", "z.mp3"]));
    assert_eq!(scan.device_playlist_line_counts.get("P"), Some(&2));
    let event = scan.result();
    assert_eq!((event.files, event.playlists, event.unused, event.timestamp_ms), (6, 0, 2, 1234));
}

#[test]
fn applied_scan_moves_and_marks() {
    let mut lib = library();
    let mut copy = library();
    scanned(&mut copy);
    lib.apply_scan(&copy.tracks, &Some("/sdcard/Music/".to_string()), "/storage/Music");
    let t = lib.tracks.get("1").unwrap();
    assert!(t.on_device);
    assert_eq!(t.device_path, "/storage/Music/1.mp3");
    assert!(!lib.tracks.get("2").unwrap().on_device);
}

#[test]
fn views_tell_what_a_scan_found() {
    let mut lib = library();
    let scan = scanned(&mut lib);
    let mut settings = Settings::default();
    settings.cleanup_playlist_ids = texts(&["id-Q"]);
    settings.remembered_playlists = vec![
        RememberedPlaylist { id: "id-P".into(), name: "P".into(), action: PlaylistAction::Delete },
        RememberedPlaylist { id: "gone".into(), name: "G".into(), action: PlaylistAction::Delete },
        RememberedPlaylist { id: "kept".into(), name: "K".into(), action: PlaylistAction::Ignore },
    ];
    let (rows, missing) = build_views_with_scan(&lib, &settings, Some(&scan));
    assert_eq!(rows.len(), 3);
    assert_eq!(rows[0].track_count, 3);
    assert_eq!(rows[0].device_tracks_count, Some(2));
    assert_eq!(rows[0].tracks_to_copy, Some(2));
    assert_eq!(rows[0].cleanup_count, None);
    assert!(!rows[0].cleanup_checked);
    assert_eq!(rows[1].device_tracks_count, None);
    assert_eq!(rows[1].tracks_to_copy, Some(1));
    // Track 2 is in a chosen playlist; track 3 is on the device.
    assert_eq!(rows[1].cleanup_count, Some(1));
    assert!(rows[1].cleanup_checked);
    assert_eq!(missing.len(), 2);
    assert_eq!((missing[0].id.as_str(), missing[0].action.as_str()), ("gone", "delete"));
    assert_eq!((missing[1].id.as_str(), missing[1].action.as_str()), ("kept", "ignore"));

    let (rows, _) = build_views_with_scan(&lib, &settings, None);
    assert_eq!(rows[0].device_tracks_count, None);
    assert_eq!(rows[0].tracks_to_copy, None);
    assert_eq!(rows[1].cleanup_count, None);
}

#[test]
fn only_what_is_asked_for_is_deleted() {
    let mut lib = library();
    let scan = scanned(&mut lib);
    let mut settings = Settings::default();
    assert!(tracks_to_delete(&lib, &settings, Some(&scan)).is_empty());
    settings.delete_unused_songs = true;
    assert!(tracks_to_delete(&lib, &settings, None).is_empty());
    assert_eq!(tracks_to_delete(&lib, &settings, Some(&scan)), texts(&["a.mp3", "z.mp3"]));
    settings.cleanup_playlist_ids = texts(&["id-Q", "id-P"]);
    // Track 2 of Q is in a chosen playlist, and P is chosen itself.
    assert_eq!(
        tracks_to_delete(&lib, &settings, Some(&scan)),
        texts(&["3.mp3", "a.mp3", "z.mp3"])
    );
}

#[test]
fn first_file_of_a_size_counts() {
    let files = vec![file("l.m3u", 5), file("a.mp3", 5), file("b.mp3", 5)];
    let by_size = device_path_by_size(&files);
    assert_eq!(by_size.get(&5), Some(&"a.mp3".to_string()));
    assert_eq!(by_size.len(), 1);
}

#[test]
fn preview_parts_what_can_be_read() {
    let mut lib = library();
    let scan = scanned(&mut lib);
    let mut settings = Settings::default();
    settings.cleanup_playlist_ids = texts(&["id-Q"]);
    settings.remembered_playlists = vec![
        RememberedPlaylist { id: "gone".into(), name: "G".into(), action: PlaylistAction::Delete },
        RememberedPlaylist { id: "kept".into(), name: "K".into(), action: PlaylistAction::Ignore },
        RememberedPlaylist { id: "id-P".into(), name: "P".into(), action: PlaylistAction::Delete },
    ];
    let songs: Vec<String> = preview_songs(&lib).into_iter().map(|s| s.path).collect();
    assert_eq!(songs, texts(&["/Users/u/2.mp3", "/Users/u/4.mp3"]));
    let p = compute_preview(&lib, &settings, &scan, &texts(&["/Users/u/2.mp3"]));
    assert_eq!(p.new_songs, 1);
    assert_eq!(p.new_song_items[0].name, "Song 2");
    assert_eq!(p.new_song_items[0].device_path, "/sdcard/Music/2.mp3");
    assert_eq!(p.missing_files.len(), 1);
    assert_eq!(p.missing_files[0].path, "/Users/u/4.mp3");
    // The device has P and lacks R.
    assert_eq!(p.new_playlists, 1);
    assert_eq!(p.new_playlist_items[0].filename, "R.m3u");
    // Both files are deleted, though P is in the library.
    assert_eq!(p.remove_playlists, 2);
    assert_eq!(p.remove_playlist_items[0].filename, "G.m3u");
    assert_eq!(p.remove_playlist_items[1].filename, "P.m3u");
    assert_eq!(settings.playlists_to_delete(), texts(&["G.m3u", "P.m3u"]));
    assert_eq!(p.delete_songs, 1);
    assert_eq!(p.delete_song_items[0].path, "3.mp3");
    assert_eq!(p.delete_song_items[0].artist, "Artist 3");
    assert_eq!(p.delete_song_items[0].device_path, "");
}

#[test]
fn current_view_has_a_preview_after_a_scan() {
    let mut lib = library();
    let scan = scanned(&mut lib);
    let mut settings = Settings::default();
    settings.library_path = Some("L.xml".into());
    let v = current_view(&lib, &settings, None, Some(5), &vec![]);
    assert_eq!(v.track_count, 4);
    assert_eq!(v.orphan_count, None);
    assert_eq!(v.preview, None);
    assert_eq!(v.library_path, "L.xml");
    assert_eq!(v.library_mtime_ms, Some(5));
    let v = current_view(&lib, &settings, Some(&scan), None, &vec![]);
    assert_eq!(v.orphan_count, Some(2));
    assert_eq!(v.preview.unwrap().missing_files.len(), 2);
    assert_eq!(v.playlists.len(), 3);
}

#[test]
fn track_that_is_listed_twice_is_copied_once() {
    let mut lib = library();
    lib.playlists = vec![playlist("P", &["2", "2"], true), playlist("Q", &["1", "1"], false)];
    let scan = scanned(&mut lib);
    let (rows, missing) = build_views_with_scan(&lib, &Settings::default(), Some(&scan));
    assert_eq!(rows[0].track_count, 2);
    assert_eq!(rows[0].tracks_to_copy, Some(1));
    assert_eq!(rows[0].cleanup_count, None);
    assert_eq!(rows[1].tracks_to_copy, Some(0));
    // The entries of the playlist are counted here, as in `track_count`.
    assert_eq!(rows[1].track_count, 2);
    assert_eq!(rows[1].cleanup_count, Some(2));
    assert!(missing.is_empty());
}
