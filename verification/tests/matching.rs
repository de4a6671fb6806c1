use musicsync::matching::{
    clear_marks, mark_on_device_loose, mark_on_device_strict, track_basename, tracks_by_size,
    tracks_to_upload, DeviceFile,
};
use musicsync::playlist::Playlist;
use musicsync::track::Track;
use musicsync::tracks::TrackMap;

fn make_track(id: &str, size: u64, device_path: &str) -> Track {
    Track {
        id: id.into(),
        name: format!("track_{id}"),
        size,
        artist: "".into(),
        local_path: "".into(),
        device_path: device_path.into(),
        on_device: false,
    }
}

fn marked(tracks: &TrackMap, id: &str) -> bool {
    tracks.get(id).unwrap().on_device
}

#[test]
fn loose_marks_all_same_sized_tracks() {
    let mut tracks = TrackMap::new();
    tracks.insert("1".into(), make_track("1", 1000, "/sdcard/Music/A.mp3"));
    tracks.insert("2".into(), make_track("2", 1000, "/sdcard/Music/B.mp3"));
    tracks.insert("3".into(), make_track("3", 2000, "/sdcard/Music/C.mp3"));
    let device = vec![DeviceFile { path: "/sdcard/Music/A.mp3".into(), size: 1000 }];
    mark_on_device_loose(&mut tracks, &device);
    assert!(marked(&tracks, "1"));
    assert!(marked(&tracks, "2"), "loose mode marks both same-sized tracks");
    assert!(!marked(&tracks, "3"));
}

#[test]
fn strict_uses_filename_to_disambiguate() {
    let mut tracks = TrackMap::new();
    tracks.insert("1".into(), make_track("1", 1000, "/sdcard/Music/A.mp3"));
    tracks.insert("2".into(), make_track("2", 1000, "/sdcard/Music/B.mp3"));
    let device = vec![DeviceFile { path: "/sdcard/Music/A.mp3".into(), size: 1000 }];
    mark_on_device_strict(&mut tracks, &device);
    assert!(marked(&tracks, "1"));
    assert!(!marked(&tracks, "2"), "strict mode disambiguates by filename");
}

#[test]
fn strict_falls_back_to_loose_when_no_filename_match() {
    let mut tracks = TrackMap::new();
    tracks.insert("1".into(), make_track("1", 1000, "/sdcard/Music/A.mp3"));
    tracks.insert("2".into(), make_track("2", 1000, "/sdcard/Music/B.mp3"));
    // Device has a same-sized file with a name matching neither track.
    let device = vec![DeviceFile { path: "/sdcard/Music/Other.mp3".into(), size: 1000 }];
    mark_on_device_strict(&mut tracks, &device);
    assert!(marked(&tracks, "1"));
    assert!(marked(&tracks, "2"));
}

#[test]
fn marks_clear_on_re_run() {
    let mut tracks = TrackMap::new();
    tracks.insert("1".into(), make_track("1", 1000, "/sdcard/Music/A.mp3"));
    tracks.set_on_device("1", true);
    mark_on_device_loose(&mut tracks, &[]);
    assert!(!marked(&tracks, "1"), "empty device should clear marks");
}

#[test]
fn tracks_to_upload_dedups_and_filters_on_device() {
    let mut tracks = TrackMap::new();
    tracks.insert("1".into(), make_track("1", 1, "/sdcard/Music/A.mp3"));
    tracks.insert("2".into(), make_track("2", 2, "/sdcard/Music/B.mp3"));
    tracks.insert("3".into(), make_track("3", 3, "/sdcard/Music/C.mp3"));
    tracks.set_on_device("2", true);

    let p1 = Playlist {
        name: "P1".into(),
        playlist_id: "p1".into(),
        track_ids: vec!["1".into(), "2".into()],
        checked: true,
    };
    let p2 = Playlist {
        name: "P2".into(),
        playlist_id: "p2".into(),
        track_ids: vec!["2".into(), "3".into(), "1".into()],
        checked: true,
    };
    let upload = tracks_to_upload(&[&p1, &p2], &tracks);
    // 1 first (from P1), 3 next (first new in P2). 2 filtered (on device).
    assert_eq!(upload, vec!["1".to_string(), "3".to_string()]);
}

#[test]
fn track_ids_that_no_track_has_are_not_uploaded() {
    let mut tracks = TrackMap::new();
    tracks.insert("1".into(), make_track("1", 1, "/sdcard/Music/A.mp3"));
    let p = Playlist {
        name: "P".into(),
        playlist_id: "p".into(),
        track_ids: vec!["9".into(), "1".into(), "1".into()],
        checked: true,
    };
    assert_eq!(tracks_to_upload(&[&p], &tracks), vec!["1".to_string()]);
}

#[test]
fn strict_marks_are_among_loose_marks() {
    let mut loose = TrackMap::new();
    loose.insert("1".into(), make_track("1", 5, "/m/A.mp3"));
    loose.insert("2".into(), make_track("2", 5, "/m/B.mp3"));
    loose.insert("3".into(), make_track("3", 7, "/m/A.mp3"));
    let mut strict = loose.clone();
    let device = vec![
        DeviceFile { path: "/elsewhere/B.mp3".into(), size: 5 },
        DeviceFile { path: "/elsewhere/A.mp3".into(), size: 8 },
    ];
    mark_on_device_loose(&mut loose, &device);
    mark_on_device_strict(&mut strict, &device);
    assert!(marked(&loose, "1") && marked(&loose, "2") && !marked(&loose, "3"));
    assert!(!marked(&strict, "1") && marked(&strict, "2") && !marked(&strict, "3"));
    assert_eq!(loose.count_on_device(), 2);
    assert_eq!(strict.count_on_device(), 1);
}

#[test]
fn tracks_are_grouped_by_size() {
    let mut tracks = TrackMap::new();
    tracks.insert("1".into(), make_track("1", 5, "/m/A.mp3"));
    tracks.insert("2".into(), make_track("2", 5, "/m/B.mp3"));
    tracks.insert("3".into(), make_track("3", 7, "/m/C.mp3"));
    let by_size = tracks_by_size(&tracks);
    assert_eq!(by_size.len(), 2);
    let mut five = by_size[&5].clone();
    five.sort();
    assert_eq!(five, vec!["1".to_string(), "2".to_string()]);
    assert_eq!(by_size[&7], vec!["3".to_string()]);
    tracks.set_on_device("1", true);
    clear_marks(&mut tracks);
    assert_eq!(tracks.count_on_device(), 0);
}

#[test]
fn basename_is_what_follows_the_last_slash() {
    assert_eq!(track_basename("/a/b.mp3"), "b.mp3");
    assert_eq!(track_basename("b.mp3"), "b.mp3");
    assert_eq!(DeviceFile { path: "/a/c.mp3".into(), size: 1 }.basename(), "c.mp3");
}
