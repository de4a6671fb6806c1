use musicsync::choices::toggle_playlist;
use musicsync::devices::MAX_RECENT;
use musicsync::library::Library;
use musicsync::pair::PairOutcome;
use musicsync::playlist::Playlist;
use musicsync::settings::{PlaylistAction, Settings, SettingsSource};
use musicsync::tracks::TrackMap;

fn texts(v: &[&str]) -> Vec<String> {
    v.iter().map(|s| s.to_string()).collect()
}

fn playlist(id: &str, name: &str, checked: bool) -> Playlist {
    Playlist { name: name.into(), playlist_id: id.into(), track_ids: vec![], checked }
}

fn library(playlists: Vec<Playlist>) -> Library {
    Library { music_folder: "file:///m/".into(), tracks: TrackMap::new(), playlists }
}

#[test]
fn is_playlist_checked_matches_id_or_name() {
    let mut s = Settings::default();
    s.checked_playlist_ids = vec!["106".into(), "My Playlist".into()];
    assert!(s.is_playlist_checked("106", "Anything"));
    assert!(s.is_playlist_checked("999", "My Playlist"));
    assert!(!s.is_playlist_checked("999", "Other"));
}

#[test]
fn settings_file_comes_before_older_files() {
    assert_eq!(Settings::load_with_migration(true, &[true]), SettingsSource::Current);
    assert_eq!(
        Settings::load_with_migration(false, &[false, true, true]),
        SettingsSource::Legacy(1)
    );
    assert_eq!(Settings::load_with_migration(false, &[false]), SettingsSource::Initial);
    assert_eq!(Settings::load_with_migration(false, &[]), SettingsSource::Initial);
}

#[test]
fn first_start_has_nothing_chosen() {
    let s = Settings::default();
    assert!(s.checked_playlist_ids.is_empty());
    assert_eq!(s.device_token, None);
    assert!(!s.delete_unused_songs);
    assert_eq!(s.clone(), s);
    assert_eq!(s.session_token(), "");
    assert_eq!(s.device_root(), "/sdcard/Music/");
    assert_eq!(s.library_location(), Err("library_path not set in settings".to_string()));
}

#[test]
fn known_locations_are_told() {
    let mut s = Settings::default();
    s.library_path = Some("L.xml".into());
    s.ftp_path = Some("/storage/Music".into());
    s.device_token = Some("tok".into());
    assert_eq!(s.library_location(), Ok("L.xml".to_string()));
    assert_eq!(s.device_root(), "/storage/Music");
    assert_eq!(s.session_token(), "tok");
}

#[test]
fn toggling_saves_and_remembers() {
    let mut lib = library(vec![playlist("1", "A", false), playlist("2", "B", true)]);
    let mut s = Settings::default();
    s.checked_playlist_ids = texts(&["gone", "2"]);
    toggle_playlist(&mut lib, &mut s, "1");
    assert!(lib.playlists[0].checked);
    assert_eq!(s.checked_playlist_ids, texts(&["gone", "1", "2"]));
    assert_eq!(s.remembered_playlists.len(), 1);
    assert_eq!(s.remembered_playlists[0].name, "A");
    assert_eq!(s.remembered_playlists[0].action, PlaylistAction::Ignore);
    toggle_playlist(&mut lib, &mut s, "1");
    assert!(!lib.playlists[0].checked);
    assert_eq!(s.checked_playlist_ids, texts(&["gone", "2"]));
    // Remembered all the same.
    assert_eq!(s.remembered_playlists.len(), 1);
    assert!(!s.is_playlist_checked("1", "A"));
}

#[test]
fn toggling_what_is_not_there_remembers_nothing() {
    let mut lib = library(vec![playlist("1", "A", true)]);
    let mut s = Settings::default();
    toggle_playlist(&mut lib, &mut s, "9");
    assert_eq!(s.checked_playlist_ids, texts(&["1"]));
    assert!(s.remembered_playlists.is_empty());
}

#[test]
fn forgotten_playlist_is_neither_chosen_nor_remembered() {
    let mut lib = library(vec![playlist("1", "A", false), playlist("2", "B", false)]);
    let mut s = Settings::default();
    toggle_playlist(&mut lib, &mut s, "1");
    toggle_playlist(&mut lib, &mut s, "2");
    s.forget_playlist("1");
    assert_eq!(s.checked_playlist_ids, texts(&["2"]));
    assert_eq!(s.remembered_playlists.len(), 1);
    assert_eq!(s.remembered_playlists[0].id, "2");
}

#[test]
fn only_delete_deletes() {
    let mut lib = library(vec![playlist("1", "A", false), playlist("2", "B", false)]);
    let mut s = Settings::default();
    toggle_playlist(&mut lib, &mut s, "1");
    toggle_playlist(&mut lib, &mut s, "2");
    assert!(s.playlists_to_delete().is_empty());
    s.set_playlist_action("2", "delete");
    assert_eq!(s.playlists_to_delete(), texts(&["B.m3u"]));
    s.set_playlist_action("2", "DELETE");
    assert!(s.playlists_to_delete().is_empty());
}

#[test]
fn cleanup_choice_flips() {
    let mut s = Settings::default();
    s.toggle_cleanup_playlist("1".into());
    s.toggle_cleanup_playlist("2".into());
    assert_eq!(s.cleanup_playlist_ids, texts(&["1", "2"]));
    s.toggle_cleanup_playlist("1".into());
    assert_eq!(s.cleanup_playlist_ids, texts(&["2"]));
}

#[test]
fn imported_choices_come_behind() {
    let mut s = Settings::default();
    s.set_checked_playlist_ids(texts(&["a", "b"]));
    assert_eq!(s.import_checked_ids(&texts(&["b", "c", "d"])), 2);
    assert_eq!(s.checked_playlist_ids, texts(&["a", "b", "c", "d"]));
}

#[test]
fn recent_devices_are_few_and_the_last_is_first() {
    let mut s = Settings::default();
    s.record_recent_device("", "nameless", "ws://h:1", 1);
    assert!(s.recent_devices.is_empty());
    for i in 0..12u64 {
        s.record_recent_device(&format!("id{i}"), "P", "ws://h:1", i);
    }
    assert_eq!(s.recent_devices.len(), MAX_RECENT);
    assert_eq!(s.recent_devices[0].device_id, "id11");
    assert_eq!(s.recent_devices[9].device_id, "id2");
    s.record_recent_device("id5", "Q", "ws://k:2", 99);
    assert_eq!(s.recent_devices.len(), MAX_RECENT);
    assert_eq!(s.recent_devices[0].device_name, "Q");
    assert_eq!(s.recent_devices.iter().filter(|d| d.device_id == "id5").count(), 1);
}

#[test]
fn only_the_paired_device_is_renamed() {
    let mut s = Settings::default();
    s.paired_device_name = Some("Old".into());
    assert!(!s.handle_device_renamed("", "New"));
    assert!(!s.handle_device_renamed("id", ""));
    assert!(s.handle_device_renamed("id", "New"));
    assert_eq!(s.paired_device_id, Some("id".to_string()));
    assert_eq!(s.paired_device_name, Some("New".to_string()));
    assert!(!s.handle_device_renamed("id", "New"));
    assert!(!s.handle_device_renamed("other", "Thief"));
    assert_eq!(s.paired_device_name, Some("New".to_string()));
}

#[test]
fn pairing_is_taken_over_and_forgotten() {
    let mut s = Settings::default();
    s.paired_device_id = Some("before".into());
    let mut outcome = PairOutcome {
        token: "t".into(),
        device_id: "".into(),
        device_name: "Phone".into(),
        music_root: "/sdcard/Music".into(),
    };
    s.apply_pairing(&outcome);
    assert_eq!(s.device_token, Some("t".to_string()));
    assert_eq!(s.ftp_path, Some("/sdcard/Music".to_string()));
    assert_eq!(s.paired_device_id, Some("before".to_string()));
    outcome.device_id = "id".into();
    s.apply_pairing(&outcome);
    assert_eq!(s.paired_device_id, Some("id".to_string()));
    s.forget_pairing();
    assert_eq!(s.device_token, None);
    assert_eq!(s.paired_device_name, None);
    assert_eq!(s.paired_device_id, None);
    assert_eq!(s.ftp_path, Some("/sdcard/Music".to_string()));
}

#[test]
fn ignored_devices_are_noted_once() {
    let mut s = Settings::default();
    s.add_ignored_device("P".into(), Some("id".into()));
    s.add_ignored_device("P".into(), Some("id".into()));
    s.add_ignored_device("Q".into(), Some("".into()));
    s.add_ignored_device("R".into(), None);
    assert_eq!(s.ignored_devices, texts(&["P", "Q", "R"]));
    assert_eq!(s.ignored_device_ids, texts(&["id"]));
}

#[test]
fn another_music_root_is_adopted() {
    let mut s = Settings::default();
    assert_eq!(s.adopt_music_root("/a"), None);
    assert_eq!(s.ftp_path, None);
    s.ftp_path = Some("/a".into());
    assert_eq!(s.adopt_music_root("/a"), None);
    assert_eq!(s.adopt_music_root("/b"), Some("/a".to_string()));
    assert_eq!(s.ftp_path, Some("/b".to_string()));
}

#[test]
fn playlist_chosen_by_name_can_be_unchosen() {
    let mut lib = library(vec![playlist("100", "My Playlist", true), playlist("7", "B", true)]);
    let mut s = Settings::default();
    s.checked_playlist_ids = texts(&["My Playlist", "elsewhere", "B"]);
    toggle_playlist(&mut lib, &mut s, "100");
    assert!(!s.is_playlist_checked("100", "My Playlist"));
    // The choice of B is kept, by its ID.
    assert_eq!(s.checked_playlist_ids, texts(&["elsewhere", "7"]));

    let mut lib = library(vec![playlist("100", "My Playlist", true)]);
    let mut s = Settings::default();
    s.checked_playlist_ids = texts(&["My Playlist"]);
    toggle_playlist(&mut lib, &mut s, "100");
    assert!(s.checked_playlist_ids.is_empty());
}

#[test]
fn playlist_chosen_by_name_can_be_forgotten() {
    let mut lib = library(vec![playlist("1", "A", false), playlist("2", "B", false)]);
    let mut s = Settings::default();
    toggle_playlist(&mut lib, &mut s, "1");
    toggle_playlist(&mut lib, &mut s, "2");
    s.set_checked_playlist_ids(texts(&["A", "1", "B", "other"]));
    s.forget_playlist("1");
    assert_eq!(s.checked_playlist_ids, texts(&["B", "other"]));
    assert!(!s.is_playlist_checked("1", "A"));
    assert!(s.is_playlist_checked("2", "B"));
    assert_eq!(s.remembered_playlists.len(), 1);
}
