use musicsync::library::Library;
use musicsync::playlist::Playlist;
use musicsync::protocol::{ClientMessage, ManifestFile, ManifestPlaylist, ServerMessage};
use musicsync::run::{begin_sync, OpOutcome, OpVerdict, SyncRun, SyncStep};
use musicsync::sync::{checked_playlists, plan_sync, playlist_content, SyncOp};
use musicsync::track::Track;
use musicsync::tracks::TrackMap;

const ROOT: &str = "/sdcard/Music";

fn track(id: &str, size: u64) -> Track {
    Track {
        id: id.into(),
        name: format!("Song {id}"),
        artist: "".into(),
        size,
        local_path: format!("/Users/u/{id}.mp3"),
        device_path: format!("{ROOT}/A/{id}.mp3"),
        on_device: false,
    }
}

fn playlist(name: &str, ids: &[&str], checked: bool) -> Playlist {
    Playlist {
        name: name.into(),
        playlist_id: format!("id-{name}"),
        track_ids: ids.iter().map(|s| s.to_string()).collect(),
        checked,
    }
}

fn library() -> Library {
    let mut tracks = TrackMap::new();
    tracks.insert("1".into(), track("1", 10));
    tracks.insert("2".into(), track("2", 20));
    tracks.insert("3".into(), track("3", 30));
    Library {
        music_folder: "file:///Users/u/".into(),
        tracks,
        playlists: vec![
            playlist("P", &["1", "2"], true),
            playlist("Q", &["3"], false),
            playlist("R", &["2", "1"], true),
        ],
    }
}

fn file(path: &str, size: u64) -> ManifestFile {
    ManifestFile { path: path.into(), size, mtime: 0 }
}

fn playlist_file(name: &str, content: &str) -> ManifestPlaylist {
    ManifestPlaylist { name: name.into(), mtime: 0, content: content.into() }
}

fn copy(id: &str) -> SyncOp {
    SyncOp::CopyTrack {
        name: format!("Song {id}"),
        local_path: format!("/Users/u/{id}.mp3"),
        dest: format!("A/{id}.mp3"),
    }
}

fn write(name: &str, content: &str) -> SyncOp {
    SyncOp::WritePlaylist {
        name: name.into(),
        filename: format!("{name}.m3u"),
        content: content.into(),
    }
}

#[test]
fn plan_deletes_then_copies_then_writes() {
    let lib = library();
    let ops = plan_sync(
        &lib.tracks,
        &lib.playlists,
        &vec![playlist_file("R.m3u", "#EXTM3U\r\nA/2.mp3\r\nA/1.mp3\r\n\r\n")],
        ROOT,
        &vec!["Old.m3u".to_string()],
        &vec!["A/9.mp3".to_string()],
    );
    assert_eq!(
        ops,
        vec![
            SyncOp::DeletePlaylist { name: "Old.m3u".into() },
            SyncOp::DeleteTrack { path: "A/9.mp3".into() },
            copy("1"),
            copy("2"),
            write("P", "#EXTM3U\nA/1.mp3\nA/2.mp3\n"),
        ]
    );
}

#[test]
fn changed_playlist_is_written_again() {
    let lib = library();
    let ops = plan_sync(
        &lib.tracks,
        &lib.playlists,
        &vec![
            playlist_file("R.m3u", "#EXTM3U\nA/2.mp3\n"),
            playlist_file("P.m3u", "#EXTM3U\nA/1.mp3\nA/2.mp3\n"),
        ],
        ROOT,
        &vec![],
        &vec![],
    );
    assert_eq!(ops, vec![copy("1"), copy("2"), write("R", "#EXTM3U\nA/2.mp3\nA/1.mp3\n")]);
}

#[test]
fn what_is_synced_needs_no_other_sync() {
    let mut lib = library();
    let files = vec![file("A/1.mp3", 10), file("A/2.mp3", 20)];
    let written = vec![
        playlist_file("P.m3u", &playlist_content(&lib.playlists[0], ROOT, &lib.tracks)),
        playlist_file("R.m3u", &playlist_content(&lib.playlists[2], ROOT, &lib.tracks)),
    ];
    let mut run =
        begin_sync(&mut lib.tracks, &lib.playlists, &files, &written, ROOT, &vec![], &vec![]);
    assert!(lib.tracks.get("1").unwrap().on_device);
    assert!(!lib.tracks.get("3").unwrap().on_device);
    assert!(run.current().is_none());
    assert_eq!(run.advance(false), SyncStep::StartCopying);
    assert_eq!(run.advance(false), SyncStep::Finished);
    let report = run.into_report();
    assert_eq!(report.already_present, 2);
    assert_eq!(report.uploaded_tracks + report.uploaded_playlists + report.deleted_files, 0);
    assert!(report.errors.is_empty());
}

#[test]
fn chosen_playlists_stay_in_order() {
    let lib = library();
    let names: Vec<&str> = checked_playlists(&lib.playlists).iter().map(|p| p.name.as_str()).collect();
    assert_eq!(names, vec!["P", "R"]);
}

fn run_of_four() -> SyncRun {
    SyncRun::new(
        vec![
            SyncOp::DeletePlaylist { name: "Old.m3u".into() },
            copy("1"),
            copy("2"),
            write("P", "#EXTM3U\n"),
        ],
        4,
    )
}

#[test]
fn run_counts_what_was_done_and_what_failed() {
    let mut run = run_of_four();
    assert_eq!(run.advance(false), SyncStep::Perform { step: 1, total: 4 });
    run.record(OpOutcome::Failed("gone".into()));
    assert_eq!(run.advance(false), SyncStep::StartCopying);
    assert_eq!(run.advance(false), SyncStep::Perform { step: 2, total: 4 });
    run.record(OpOutcome::Done);
    assert_eq!(run.advance(false), SyncStep::Perform { step: 3, total: 4 });
    run.record(OpOutcome::Failed("disk full".into()));
    assert_eq!(run.advance(false), SyncStep::Perform { step: 4, total: 4 });
    run.record(OpOutcome::Failed("no".into()));
    assert_eq!(run.advance(false), SyncStep::Finished);
    let report = run.into_report();
    assert_eq!(report.deleted_files, 0);
    assert_eq!(report.uploaded_tracks, 1);
    assert_eq!(report.uploaded_playlists, 0);
    assert_eq!(report.already_present, 4);
    assert_eq!(
        report.errors,
        vec!["Song 2: disk full".to_string(), "playlist P: no".to_string()]
    );
}

#[test]
fn abort_ends_the_run_at_the_next_file() {
    let mut run = run_of_four();
    assert_eq!(run.advance(true), SyncStep::Perform { step: 1, total: 4 });
    run.record(OpOutcome::Done);
    assert_eq!(run.advance(true), SyncStep::StartCopying);
    assert_eq!(run.advance(false), SyncStep::Perform { step: 2, total: 4 });
    run.record(OpOutcome::Done);
    assert_eq!(run.advance(true), SyncStep::Aborted);
    assert_eq!(run.current(), None);
    assert_eq!(run.advance(true), SyncStep::Finished);
    assert_eq!(run.advance(false), SyncStep::Finished);
    let report = run.into_report();
    assert_eq!(report.deleted_files, 1);
    assert_eq!(report.uploaded_tracks, 1);
    assert_eq!(report.uploaded_playlists, 0);
    assert_eq!(report.errors, vec!["aborted by user".to_string()]);
}

#[test]
fn abort_in_front_of_a_playlist_writes_none() {
    let mut run = SyncRun::new(vec![write("P", "#EXTM3U\n"), write("Q", "#EXTM3U\n")], 0);
    assert_eq!(run.advance(true), SyncStep::StartCopying);
    assert_eq!(run.advance(false), SyncStep::Perform { step: 1, total: 2 });
    run.record(OpOutcome::Done);
    assert_eq!(run.advance(true), SyncStep::Aborted);
    assert_eq!(run.advance(true), SyncStep::Finished);
    let report = run.into_report();
    assert_eq!(report.uploaded_playlists, 1);
    assert_eq!(report.errors, vec!["aborted by user".to_string()]);
}

#[test]
fn abort_before_the_first_file_sends_nothing() {
    let mut run = SyncRun::new(vec![copy("1"), write("P", "#EXTM3U\n")], 3);
    assert_eq!(run.advance(true), SyncStep::StartCopying);
    assert_eq!(run.advance(true), SyncStep::Aborted);
    assert_eq!(run.advance(true), SyncStep::Finished);
    let report = run.into_report();
    assert_eq!(report.uploaded_tracks, 0);
    assert_eq!(report.uploaded_playlists, 0);
    assert_eq!(report.errors, vec!["aborted by user".to_string()]);
}

#[test]
fn steps_tell_what_they_do() {
    let op = SyncOp::CopyTrack { name: "n".into(), local_path: "/a \"b\"".into(), dest: "c".into() };
    assert_eq!(
        op.progress_message(3, 7, 42),
        "[3/7, 42%] Copying \"/a \\\"b\\\"\" -> \"c\""
    );
    let op = SyncOp::DeletePlaylist { name: "Old.m3u".into() };
    assert_eq!(op.progress_message(1, 7, 0), "[1/7, 0%] Deleting playlist \"Old.m3u\"");
    let op = SyncOp::DeleteTrack { path: "A\\B".into() };
    assert_eq!(op.progress_message(2, 7, 14), "[2/7, 14%] Deleting unused \"A\\\\B\"");
    let op = write("P", "");
    assert_eq!(op.progress_message(7, 7, 100), "[7/7, 100%] Writing playlist P");
}

#[test]
fn steps_ask_the_phone() {
    assert_eq!(
        copy("1").request(77),
        ClientMessage::FilePut { path: "A/1.mp3".into(), size: 77 }
    );
    assert_eq!(
        SyncOp::DeleteTrack { path: "p".into() }.request(0),
        ClientMessage::FileDelete { path: "p".into() }
    );
    assert_eq!(
        SyncOp::DeletePlaylist { name: "x.m3u".into() }.request(0),
        ClientMessage::FileDelete { path: "x.m3u".into() }
    );
    assert_eq!(
        write("P", "c").request(0),
        ClientMessage::PlaylistPut { name: "P.m3u".into(), content: "c".into() }
    );
}

#[test]
fn answers_fit_their_steps() {
    let err = || ServerMessage::FileErr { path: "p".into(), message: "full".into() };
    let ok = || ServerMessage::FileOk { path: "p".into() };
    assert_eq!(copy("1").verdict(&ok()), OpVerdict::Done);
    assert_eq!(copy("1").verdict(&err()), OpVerdict::Refused("full".into()));
    assert_eq!(copy("1").verdict(&ServerMessage::Bye), OpVerdict::Unexpected);
    let p = write("P", "c");
    assert_eq!(p.verdict(&ServerMessage::PlaylistOk { name: "P".into() }), OpVerdict::Done);
    assert_eq!(
        p.verdict(&ServerMessage::PlaylistErr { name: "P".into(), message: "no".into() }),
        OpVerdict::Refused("no".into())
    );
    assert_eq!(p.verdict(&ok()), OpVerdict::Unexpected);
    let d = SyncOp::DeleteTrack { path: "p".into() };
    assert_eq!(d.verdict(&ServerMessage::FileDeleteOk { path: "p".into() }), OpVerdict::Done);
    assert_eq!(
        d.verdict(&ServerMessage::FileDeleteErr { path: "p".into(), message: "no".into() }),
        OpVerdict::Unexpected
    );
}
