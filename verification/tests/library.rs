use musicsync::library::{Library, LibraryError};
use musicsync::settings::Settings;
use musicsync::watch::{FileTime, LibraryWatch};

const MINIMAL_XML: &str = r#"<?xml version="1.0" encoding="UTF-8"?>
<!DOCTYPE plist PUBLIC "-//Apple//DTD PLIST 1.0//EN" "http://www.apple.com/DTDs/PropertyList-1.0.dtd">
<plist version="1.0">
<dict>
    <key>Music Folder</key><string>file://localhost/Users/u/Music/iTunes/iTunes%20Media/</string>
    <key>Tracks</key>
    <dict>
        <key>10</key>
        <dict>
            <key>Track ID</key><integer>10</integer>
            <key>Name</key><string>Song A</string>
            <key>Size</key><integer>1000</integer>
            <key>Location</key><string>file://localhost/Users/u/Music/iTunes/iTunes%20Media/Music/Artist/Album/A.mp3</string>
        </dict>
        <key>11</key>
        <dict>
            <key>Track ID</key><integer>11</integer>
            <key>Name</key><string>Song B</string>
            <key>Size</key><integer>2000</integer>
            <key>Location</key><string>file://localhost/Users/u/Music/iTunes/iTunes%20Media/Music/Artist/Album/B.mp3</string>
        </dict>
        <key>12</key>
        <dict>
            <key>Track ID</key><integer>12</integer>
            <key>Name</key><string>Cloud Only</string>
            <key>Size</key><integer>3000</integer>
        </dict>
    </dict>
    <key>Playlists</key>
    <array>
        <dict>
            <key>Name</key><string>My Playlist</string>
            <key>Playlist ID</key><integer>100</integer>
            <key>Playlist Items</key>
            <array>
                <dict><key>Track ID</key><integer>10</integer></dict>
                <dict><key>Track ID</key><integer>11</integer></dict>
                <dict><key>Track ID</key><integer>12</integer></dict>
            </array>
        </dict>
        <dict>
            <key>Name</key><string>Smart Playlist</string>
            <key>Playlist ID</key><integer>200</integer>
        </dict>
    </array>
</dict>
</plist>"#;

fn failure(xml: &str) -> String {
    match Library::parse_xml(xml, "/sdcard/Music/", &Settings::default()) {
        Ok(_) => "ok".to_string(),
        Err(e) => e.message(),
    }
}

#[test]
fn parses_minimal_library() {
    let s = Settings::default();
    let lib = Library::parse_xml(MINIMAL_XML, "/sdcard/Music/", &s).ok().expect("parse");
    assert_eq!(lib.music_folder, "file://localhost/Users/u/Music/iTunes/iTunes%20Media/");
    // Track 12 had no Location: skipped.
    assert_eq!(lib.tracks.len(), 2);
    assert!(lib.tracks.contains_key("10"));
    assert!(lib.tracks.contains_key("11"));
    let t = lib.tracks.get("10").unwrap();
    assert_eq!(t.name, "Song A");
    assert_eq!(t.size, 1000);
    assert_eq!(t.device_path, "/sdcard/Music/Artist/Album/A.mp3");
}

#[test]
fn parses_playlists_filtering_missing_tracks_and_smart_playlists() {
    let s = Settings::default();
    let lib = Library::parse_xml(MINIMAL_XML, "/sdcard/Music/", &s).ok().expect("parse");
    // Only "My Playlist" should appear: "Smart Playlist" had no items.
    assert_eq!(lib.playlists.len(), 1);
    let p = &lib.playlists[0];
    assert_eq!(p.name, "My Playlist");
    assert_eq!(p.playlist_id, "100");
    // Track 12 referenced in items but absent from Tracks dict: filtered.
    assert_eq!(p.track_ids, vec!["10".to_string(), "11".to_string()]);
    assert!(!p.checked);
}

#[test]
fn checked_state_picks_up_from_settings_by_id() {
    let mut s = Settings::default();
    s.checked_playlist_ids = vec!["100".into()];
    let lib = Library::parse_xml(MINIMAL_XML, "/sdcard/Music/", &s).ok().expect("parse");
    assert!(lib.playlists[0].checked);
}

#[test]
fn checked_state_picks_up_from_settings_by_name() {
    let mut s = Settings::default();
    s.checked_playlist_ids = vec!["My Playlist".into()];
    let lib = Library::parse_xml(MINIMAL_XML, "/sdcard/Music/", &s).ok().expect("parse");
    assert!(lib.playlists[0].checked, "name-based match should set checked");
}

#[test]
fn every_way_to_end_early_has_its_message() {
    let top = "<plist><dict><key>Music Folder</key><string>file:///m/</string>";
    let cases = [
        ("<plist></plist>".to_string(), "Library.xml missing Music Folder key"),
        ("<plist><dict><key>Mus".to_string(), "unexpected EOF reading <key>"),
        (format!("{top}<key>x</key><string>y"), "unexpected EOF reading <string>"),
        (format!("{top}<key>Tracks</key><dict>"), "unexpected EOF in Tracks dict"),
        (format!("{top}<key>Tracks</key><dict><key>1</key><dict>"), "unexpected EOF in track dict"),
        (format!("{top}<key>Playlists</key><array>"), "unexpected EOF in Playlists array"),
        (format!("{top}<key>Playlists</key><array><dict>"), "unexpected EOF in playlist dict"),
        (
            format!("{top}<key>Playlists</key><array><dict><key>Playlist Items</key><array>"),
            "EOF in playlist items array",
        ),
        (
            format!("{top}<key>Playlists</key><array><dict><key>Playlist Items</key><array><dict>"),
            "EOF in playlist item dict",
        ),
    ];
    for (xml, message) in cases {
        assert_eq!(failure(&xml), message, "{xml}");
    }
}

#[test]
fn broken_xml_is_refused() {
    let s = Settings::default();
    let mismatched = Library::parse_xml("<plist><dict></plist>", "/m", &s);
    assert!(matches!(mismatched, Err(LibraryError::Xml(_))));
    let bad_entity = Library::parse_xml("<plist><dict><key>&nope;</key></dict></plist>", "/m", &s);
    assert!(matches!(bad_entity, Err(LibraryError::Xml(_))));
}

#[test]
fn entities_and_cdata_are_resolved() {
    let xml = "<plist><dict><key>Music Folder</key><string>file:///m/</string>\
               <key>Tracks</key><dict><key>1</key><dict>\
               <key>Name</key><string>A &amp; B<![CDATA[ & <C>]]></string>\
               <key>Artist</key><string>  X &#233; </string>\
               <key>Compilation</key><true/>\
               <key>Size</key><integer>+7</integer>\
               <key>Location</key><string>file:///m/a%20b.mp3</string>\
               </dict></dict></dict></plist>";
    let lib = Library::parse_xml(xml, "/sdcard/Music/", &Settings::default()).ok().unwrap();
    let t = lib.tracks.get("1").unwrap();
    assert_eq!(t.name, "A & B & <C>");
    assert_eq!(t.artist, "X \u{e9}");
    assert_eq!(t.size, 7);
    assert_eq!(t.local_path, "/m/a b.mp3");
    assert_eq!(t.device_path, "/sdcard/Music/a b.mp3");
}

#[test]
fn size_that_is_no_number_counts_as_zero() {
    let xml = "<plist><dict><key>Music Folder</key><string>file:///m/</string>\
               <key>Tracks</key><dict><key>1</key><dict>\
               <key>Size</key><integer>99999999999999999999</integer>\
               <key>Location</key><string>file:///m/a.mp3</string>\
               </dict></dict></dict></plist>";
    let lib = Library::parse_xml(xml, "/m", &Settings::default()).ok().unwrap();
    let t = lib.tracks.get("1").unwrap();
    assert_eq!(t.size, 0);
    assert_eq!(t.name, "");
}

#[test]
fn second_track_with_an_id_takes_the_place_of_the_first() {
    let xml = "<plist><dict><key>Music Folder</key><string>file:///m/</string>\
               <key>Tracks</key><dict>\
               <key>1</key><dict><key>Name</key><string>A</string><key>Location</key><string>file:///m/a.mp3</string></dict>\
               <key>1</key><dict><key>Name</key><string>B</string><key>Location</key><string>file:///m/b.mp3</string></dict>\
               </dict></dict></plist>";
    let lib = Library::parse_xml(xml, "/m", &Settings::default()).ok().unwrap();
    assert_eq!(lib.tracks.len(), 1);
    assert_eq!(lib.tracks.get("1").unwrap().name, "B");
}

#[test]
fn empty_list_of_items_makes_an_empty_playlist() {
    let xml = "<plist><dict><key>Music Folder</key><string>file:///m/</string>\
               <key>Playlists</key><array>\
               <dict><key>Name</key><string>P</string><key>Playlist ID</key><integer>5</integer>\
               <key>Playlist Items</key><array></array></dict>\
               <dict><key>Playlist ID</key><integer>6</integer><key>Playlist Items</key><array></array></dict>\
               </array></dict></plist>";
    let lib = Library::parse_xml(xml, "/m", &Settings::default()).ok().unwrap();
    assert_eq!(lib.playlists.len(), 1);
    assert_eq!(lib.playlists[0].playlist_id, "5");
    assert!(lib.playlists[0].track_ids.is_empty());
}

#[test]
fn watch_tells_of_changes_after_the_first_look() {
    let at = |secs: u64| FileTime { before_1970: false, secs, nanos: 5 };
    let mut watch = LibraryWatch::new();
    assert!(!watch.look("a.xml".into(), at(1)));
    assert!(!watch.look("a.xml".into(), at(1)));
    assert!(watch.look("a.xml".into(), at(2)));
    assert!(watch.look("b.xml".into(), at(2)));
    assert!(!watch.look("b.xml".into(), at(2)));
    assert!(watch.look("b.xml".into(), FileTime { before_1970: true, secs: 2, nanos: 5 }));
}
