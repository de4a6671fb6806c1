//! Laws on what the models of the values say: each field of a value is in its
//! model, as it is, and a list is modelled one for one.
use vstd::prelude::*;

use crate::discovery::{opt_found, DiscoveryFoundEvent};
use crate::library::Library;
use crate::matching::{file_views, DeviceFile};
use crate::playlist::{playlist_models, Playlist};
use crate::preview::{playlist_refs, song_rows, PreviewPlaylist, PreviewSong};
use crate::protocol::{
    manifest_file_views, manifest_playlist_views, ManifestFile, ManifestPlaylist,
};
use crate::run::{OpOutcome, OpOutcomeView, SyncReport};
use crate::scan::LastScan;
use crate::settings::{recent_views, remembered_views, RecentDevice, RememberedPlaylist, Settings};
use crate::sync::{op_views, SyncOp, SyncOpView};
use crate::text::{opt_text, texts};
use crate::track::Track;
use crate::views::{missing_rows, opt_nat, rows, MissingPlaylistView, PlaylistView};
use crate::xml::{tokens, XmlEvent, XmlToken};

verus! {

/// A list of strings is modelled by their characters, and a string that may be
/// absent by its characters where it is there.
pub proof fn strings_are_modelled(v: Seq<String>, i: int, o: Option<String>, s: String, n: usize)
    ensures
        texts(v).len() == v.len(),
        0 <= i < v.len() ==> texts(v)[i] == v[i]@,
        opt_text(Some(s)) == Some(s@),
        opt_text(None) is None,
        opt_nat(Some(n)) == Some(n as nat),
        opt_nat(None) is None,
{
}

/// A track is modelled by all its fields.
pub proof fn tracks_are_modelled(t: Track)
    ensures
        t@.id == t.id@,
        t@.name == t.name@,
        t@.artist == t.artist@,
        t@.size == t.size,
        t@.local_path == t.local_path@,
        t@.device_path == t.device_path@,
        t@.on_device == t.on_device,
{
}

/// A playlist and a library are modelled by all their fields.
pub proof fn libraries_are_modelled(p: Playlist, v: Seq<Playlist>, i: int, lib: Library)
    ensures
        p@.name == p.name@,
        p@.playlist_id == p.playlist_id@,
        p@.track_ids == texts(p.track_ids@),
        p@.checked == p.checked,
        playlist_models(v).len() == v.len(),
        0 <= i < v.len() ==> playlist_models(v)[i] == v[i]@,
        lib@.music_folder == lib.music_folder@,
        lib@.tracks == lib.tracks@,
        lib@.playlists == playlist_models(lib.playlists@),
{
}

/// The files and the playlist files of a device are modelled by all their
/// fields.
pub proof fn device_files_are_modelled(
    f: DeviceFile,
    fs: Seq<DeviceFile>,
    m: ManifestFile,
    ms: Seq<ManifestFile>,
    p: ManifestPlaylist,
    ps: Seq<ManifestPlaylist>,
    i: int,
)
    ensures
        f@.path == f.path@,
        f@.size == f.size,
        file_views(fs).len() == fs.len(),
        0 <= i < fs.len() ==> file_views(fs)[i] == fs[i]@,
        m@.path == m.path@,
        m@.size == m.size,
        m@.mtime == m.mtime,
        manifest_file_views(ms).len() == ms.len(),
        0 <= i < ms.len() ==> manifest_file_views(ms)[i] == ms[i]@,
        p@.name == p.name@,
        p@.mtime == p.mtime,
        p@.content == p.content@,
        manifest_playlist_views(ps).len() == ps.len(),
        0 <= i < ps.len() ==> manifest_playlist_views(ps)[i] == ps[i]@,
{
}

/// A scan is modelled by all its fields.
pub proof fn scans_are_modelled(s: LastScan, name: Seq<char>)
    ensures
        s@.files == file_views(s.device_files@),
        s@.unused == texts(s.unused_device_paths@),
        s@.line_counts.contains_key(name) == s.device_playlist_line_counts@.contains_key(name),
        s.device_playlist_line_counts@.contains_key(name) ==> s@.line_counts[name]
            == s.device_playlist_line_counts@[name],
        s@.timestamp_ms == s.timestamp_ms,
        s@.music_root == s.music_root@,
{
}

/// The settings are modelled by all their fields.
pub proof fn settings_are_modelled(
    s: Settings,
    r: RememberedPlaylist,
    rs: Seq<RememberedPlaylist>,
    d: RecentDevice,
    ds: Seq<RecentDevice>,
    i: int,
)
    ensures
        s@.library_path == opt_text(s.library_path),
        s@.ftp_username == opt_text(s.ftp_username),
        s@.ftp_password == opt_text(s.ftp_password),
        s@.ftp_ip == opt_text(s.ftp_ip),
        s@.ftp_port == opt_text(s.ftp_port),
        s@.ftp_path == opt_text(s.ftp_path),
        s@.checked_playlist_ids == texts(s.checked_playlist_ids@),
        s@.device_token == opt_text(s.device_token),
        s@.paired_device_name == opt_text(s.paired_device_name),
        s@.paired_device_id == opt_text(s.paired_device_id),
        s@.remembered_playlists == remembered_views(s.remembered_playlists@),
        s@.delete_unused_songs == s.delete_unused_songs,
        s@.cleanup_playlist_ids == texts(s.cleanup_playlist_ids@),
        s@.ignored_devices == texts(s.ignored_devices@),
        s@.ignored_device_ids == texts(s.ignored_device_ids@),
        s@.recent_devices == recent_views(s.recent_devices@),
        s@.verbose_logging == s.verbose_logging,
        r@.id == r.id@,
        r@.name == r.name@,
        r@.action == r.action,
        remembered_views(rs).len() == rs.len(),
        0 <= i < rs.len() ==> remembered_views(rs)[i] == rs[i]@,
        d@.device_id == d.device_id@,
        d@.device_name == d.device_name@,
        d@.ws_url == d.ws_url@,
        d@.last_seen_ms == d.last_seen_ms,
        recent_views(ds).len() == ds.len(),
        0 <= i < ds.len() ==> recent_views(ds)[i] == ds[i]@,
{
}

/// The steps of a sync, what came of them and the report are modelled by all
/// their fields.
pub proof fn syncs_are_modelled(
    op: SyncOp,
    ops: Seq<SyncOp>,
    i: int,
    o: OpOutcome,
    r: SyncReport,
)
    ensures
        op matches SyncOp::DeletePlaylist { name } ==> op@ == (SyncOpView::DeletePlaylist {
            name: name@,
        }),
        op matches SyncOp::DeleteTrack { path } ==> op@ == (SyncOpView::DeleteTrack {
            path: path@,
        }),
        op matches SyncOp::CopyTrack { name, local_path, dest } ==> op@ == (SyncOpView::CopyTrack {
            name: name@,
            local_path: local_path@,
            dest: dest@,
        }),
        op matches SyncOp::WritePlaylist { name, filename, content } ==> op@ == (
        SyncOpView::WritePlaylist { name: name@, filename: filename@, content: content@ }),
        op_views(ops).len() == ops.len(),
        0 <= i < ops.len() ==> op_views(ops)[i] == ops[i]@,
        o is Done ==> o@ == OpOutcomeView::Done,
        o matches OpOutcome::Failed(m) ==> o@ == OpOutcomeView::Failed(m@),
        r@.uploaded_tracks == r.uploaded_tracks,
        r@.uploaded_playlists == r.uploaded_playlists,
        r@.already_present == r.already_present,
        r@.deleted_files == r.deleted_files,
        r@.errors == texts(r.errors@),
{
}

/// What the user is shown is modelled by all its fields.
pub proof fn shown_values_are_modelled(
    p: PlaylistView,
    ps: Seq<PlaylistView>,
    m: MissingPlaylistView,
    ms: Seq<MissingPlaylistView>,
    s: PreviewSong,
    ss: Seq<PreviewSong>,
    q: PreviewPlaylist,
    qs: Seq<PreviewPlaylist>,
    i: int,
)
    ensures
        p@.playlist_id == p.playlist_id@,
        p@.name == p.name@,
        p@.track_count == p.track_count,
        p@.device_tracks_count == opt_nat(p.device_tracks_count),
        p@.tracks_to_copy == opt_nat(p.tracks_to_copy),
        p@.checked == p.checked,
        p@.cleanup_count == opt_nat(p.cleanup_count),
        p@.cleanup_checked == p.cleanup_checked,
        rows(ps).len() == ps.len(),
        0 <= i < ps.len() ==> rows(ps)[i] == ps[i]@,
        m@.id == m.id@,
        m@.name == m.name@,
        m@.action == m.action@,
        missing_rows(ms).len() == ms.len(),
        0 <= i < ms.len() ==> missing_rows(ms)[i] == ms[i]@,
        s@.name == s.name@,
        s@.artist == s.artist@,
        s@.path == s.path@,
        s@.device_path == s.device_path@,
        song_rows(ss).len() == ss.len(),
        0 <= i < ss.len() ==> song_rows(ss)[i] == ss[i]@,
        q@.name == q.name@,
        q@.filename == q.filename@,
        playlist_refs(qs).len() == qs.len(),
        0 <= i < qs.len() ==> playlist_refs(qs)[i] == qs[i]@,
{
}

/// A phone that was found is modelled by all its fields.
pub proof fn found_phones_are_modelled(e: DiscoveryFoundEvent)
    ensures
        e@.ws_url == e.ws_url@,
        e@.device_id == e.device_id@,
        e@.device_name == e.device_name@,
        e@.host == e.host@,
        e@.port == e.port,
        opt_found(Some(e)) == Some(e@),
        opt_found(None) is None,
{
}

/// The events of a document are modelled one for one.
pub proof fn events_are_modelled(e: XmlEvent, es: Seq<XmlEvent>, i: int)
    ensures
        e matches XmlEvent::Start(n) ==> e@ == XmlToken::Start(n@),
        e matches XmlEvent::End(n) ==> e@ == XmlToken::End(n@),
        e is Empty ==> e@ == XmlToken::Empty,
        e matches XmlEvent::Text(t) ==> e@ == XmlToken::Text(t@),
        e matches XmlEvent::BadText(t) ==> e@ == XmlToken::BadText(t@),
        e matches XmlEvent::CData(t) ==> e@ == XmlToken::CData(t@),
        e is Other ==> e@ == XmlToken::Other,
        e matches XmlEvent::Failed(t) ==> e@ == XmlToken::Failed(t@),
        tokens(es).len() == es.len(),
        0 <= i < es.len() ==> tokens(es)[i] == es[i]@,
{
}

} // verus!
