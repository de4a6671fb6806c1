use musicsync::track::{device_path_for_location, join_path, strip_leading_dir, Track};

// Music folder URLs as iTunes records them.
const MUSIC_FOLDER: &str = "file://localhost/Users/andrew/Music/iTunes/iTunes%20Media/";
const DEVICE_ROOT: &str = "/sdcard/Music/";

fn track_at(device_path: &str) -> Track {
    Track {
        id: "1".into(),
        name: "x".into(),
        size: 0,
        artist: "".into(),
        local_path: "".into(),
        device_path: device_path.into(),
        on_device: false,
    }
}

#[test]
fn device_path_strips_music_folder_prefix() {
    let location =
        "file://localhost/Users/andrew/Music/iTunes/iTunes%20Media/Music/Artist/Album/01%20Track.mp3";
    let path = device_path_for_location(location, MUSIC_FOLDER, DEVICE_ROOT);
    // The Music/ subfolder is stripped too.
    assert_eq!(path, "/sdcard/Music/Artist/Album/01 Track.mp3");
}

#[test]
fn device_path_strips_leading_mp3_dir() {
    let location =
        "file://localhost/Users/andrew/Music/iTunes/iTunes%20Media/mp3/Artist/Album/Track.mp3";
    let path = device_path_for_location(location, MUSIC_FOLDER, DEVICE_ROOT);
    assert_eq!(path, "/sdcard/Music/Artist/Album/Track.mp3");
}

#[test]
fn device_path_falls_back_to_last_three_components() {
    let location = "file:///some/random/place/Band/Album/Song.mp3";
    let path = device_path_for_location(location, MUSIC_FOLDER, DEVICE_ROOT);
    assert_eq!(path, "/sdcard/Music/Band/Album/Song.mp3");
}

#[test]
fn device_path_unescapes_percent_utf8() {
    // Artist name with combining diaeresis.
    let location =
        "file://localhost/Users/andrew/Music/iTunes/iTunes%20Media/Music/Crumba%CC%88cher/Album/Song.mp3";
    let path = device_path_for_location(location, MUSIC_FOLDER, DEVICE_ROOT);
    assert_eq!(path, "/sdcard/Music/Crumba\u{0308}cher/Album/Song.mp3");
}

#[test]
fn device_path_handles_device_root_without_trailing_slash() {
    let location =
        "file://localhost/Users/andrew/Music/iTunes/iTunes%20Media/Music/A/B/C.mp3";
    let path = device_path_for_location(location, MUSIC_FOLDER, "/sdcard/Music");
    assert_eq!(path, "/sdcard/Music/A/B/C.mp3");
}

#[test]
fn playlist_path_strips_root_and_leading_slash() {
    let t = track_at("/sdcard/Music/Artist/Album/Track.mp3");
    assert_eq!(
        t.playlist_path("/sdcard/Music/"),
        "Artist/Album/Track.mp3"
    );
    // Also works when root has no trailing slash.
    assert_eq!(
        t.playlist_path("/sdcard/Music"),
        "Artist/Album/Track.mp3"
    );
}

#[test]
fn from_xml_fields_populates_both_paths() {
    let t = Track::from_xml_fields(
        "42".into(),
        "Test".into(),
        "Some Artist".into(),
        12345,
        "file://localhost/Users/andrew/Music/iTunes/iTunes%20Media/Music/A/B/C.mp3",
        MUSIC_FOLDER,
        DEVICE_ROOT,
    );
    assert_eq!(t.id, "42");
    assert_eq!(t.artist, "Some Artist");
    assert_eq!(t.size, 12345);
    assert_eq!(t.device_path, "/sdcard/Music/A/B/C.mp3");
    assert_eq!(t.local_path, "/Users/andrew/Music/iTunes/iTunes Media/Music/A/B/C.mp3");
    assert!(!t.on_device);
}

#[test]
fn short_location_outside_the_folder_gives_the_bare_root() {
    for location in ["Song.mp3", "Album/Song.mp3", ""] {
        assert_eq!(
            device_path_for_location(location, "file:///lib/", "/sdcard/Music/"),
            "/sdcard/Music/"
        );
    }
}

#[test]
fn three_components_outside_the_folder_are_taken_whole() {
    assert_eq!(
        device_path_for_location("Band/Album/Song.mp3", "file:///lib/", "/sdcard/Music/"),
        "/sdcard/Music/Band/Album/Song.mp3"
    );
    // The scheme and the empty authority are components too.
    assert_eq!(
        device_path_for_location("file:///Song.mp3", MUSIC_FOLDER, DEVICE_ROOT),
        "/sdcard/Music/Song.mp3"
    );
}

#[test]
fn playlist_path_outside_the_root_loses_its_slashes() {
    let t = track_at("//other/Track.mp3");
    assert_eq!(t.playlist_path("/sdcard/Music/"), "other/Track.mp3");
}

#[test]
fn rebased_track_moves_below_the_new_root() {
    let mut t = track_at("/sdcard/Music/A/B.mp3");
    t.rebase_device_path("/sdcard/Music/", "/storage/0/Music");
    assert_eq!(t.device_path, "/storage/0/Music/A/B.mp3");
    t.rebase_device_path("/storage/0/Music", "/sdcard/Music/");
    assert_eq!(t.device_path, "/sdcard/Music/A/B.mp3");
}

#[test]
fn joined_paths_have_one_slash_between() {
    assert_eq!(join_path("/a/", "/b"), "/a/b");
    assert_eq!(join_path("/a", "b"), "/a/b");
    assert_eq!(strip_leading_dir("Music/A.mp3", "Music"), "A.mp3");
    assert_eq!(strip_leading_dir("Musicals/A.mp3", "Music"), "Musicals/A.mp3");
}
