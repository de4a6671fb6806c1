//! The plan of a sync: what has to be done, and in which order.
use vstd::prelude::*;

use crate::matching::{
    all_track_ids, has_own_file, has_size_and_name, is_missing, missing_ids, missing_ids_are_exact,
    referenced_playlists, remarked, stands_for, tracks_to_upload, DeviceFileView,
};
use crate::playlist::{
    m3u_entries, m3u_filename, m3u_semantically_equal, m3u_text, playlist_models, Playlist,
    PlaylistModel,
};
use crate::protocol::{
    manifest_playlist_views, ManifestPlaylist, ManifestPlaylistView,
};
use crate::run::{is_delete, is_ordered};
use crate::text::{behind_last, same_text, texts, trimmed_end, trimmed_start};
use crate::track::{
    is_plain_root, joined_path_is_relative_to_root, path_joined, Track, TrackView,
};
use crate::tracks::TrackMap;

verus! {

// ---------------------------------------------------------------------------
// The plan
// ---------------------------------------------------------------------------

/// One step of a sync.
#[derive(Debug, PartialEq, Eq)]
pub enum SyncOp {
    /// Delete a playlist file from the device.
    DeletePlaylist { name: String },
    /// Delete a music file from the device.
    DeleteTrack { path: String },
    /// Copy a file of the desktop to a path below the music root.
    CopyTrack { name: String, local_path: String, dest: String },
    /// Write a playlist file.
    WritePlaylist { name: String, filename: String, content: String },
}

/// One step of a sync, over characters.
#[verifier::ext_equal]
pub enum SyncOpView {
    DeletePlaylist { name: Seq<char> },
    DeleteTrack { path: Seq<char> },
    CopyTrack { name: Seq<char>, local_path: Seq<char>, dest: Seq<char> },
    WritePlaylist { name: Seq<char>, filename: Seq<char>, content: Seq<char> },
}

impl View for SyncOp {
    type V = SyncOpView;

    open spec fn view(&self) -> SyncOpView {
        match self {
            SyncOp::DeletePlaylist { name } => SyncOpView::DeletePlaylist { name: name@ },
            SyncOp::DeleteTrack { path } => SyncOpView::DeleteTrack { path: path@ },
            SyncOp::CopyTrack { name, local_path, dest } => SyncOpView::CopyTrack {
                name: name@,
                local_path: local_path@,
                dest: dest@,
            },
            SyncOp::WritePlaylist { name, filename, content } => SyncOpView::WritePlaylist {
                name: name@,
                filename: filename@,
                content: content@,
            },
        }
    }
}

/// The steps of a list, over characters.
pub open spec fn op_views(v: Seq<SyncOp>) -> Seq<SyncOpView> {
    v.map_values(|o: SyncOp| o@)
}

/// The playlists that are chosen.
pub open spec fn checked_of(playlists: Seq<PlaylistModel>) -> Seq<PlaylistModel> {
    playlists.filter(|p: PlaylistModel| p.checked)
}

/// The content of the last playlist file of a name.
pub open spec fn content_of(files: Seq<ManifestPlaylistView>, name: Seq<char>) -> Option<Seq<char>>
    decreases files.len(),
{
    if files.len() == 0 {
        None
    } else if files.last().name == name {
        Some(files.last().content)
    } else {
        content_of(files.drop_last(), name)
    }
}

/// Whether the device lacks a playlist's file, or has one with other lines.
pub open spec fn is_outdated(
    p: PlaylistModel,
    tracks: Map<Seq<char>, TrackView>,
    root: Seq<char>,
    files: Seq<ManifestPlaylistView>,
) -> bool {
    match content_of(files, m3u_filename(p.name)) {
        Some(content) => m3u_entries(content) != m3u_entries(m3u_text(p.track_ids, root, tracks)),
        None => true,
    }
}

/// The step that copies a track.
pub open spec fn copy_op(t: TrackView, root: Seq<char>) -> SyncOpView {
    SyncOpView::CopyTrack {
        name: t.name,
        local_path: t.local_path,
        dest: t.relative_path(root),
    }
}

/// The step that writes a playlist.
pub open spec fn write_op(
    p: PlaylistModel,
    tracks: Map<Seq<char>, TrackView>,
    root: Seq<char>,
) -> SyncOpView {
    SyncOpView::WritePlaylist {
        name: p.name,
        filename: m3u_filename(p.name),
        content: m3u_text(p.track_ids, root, tracks),
    }
}

/// The steps that delete playlist files, then music files.
pub open spec fn delete_ops(
    playlists: Seq<Seq<char>>,
    tracks: Seq<Seq<char>>,
) -> Seq<SyncOpView> {
    playlists.map_values(|n: Seq<char>| SyncOpView::DeletePlaylist { name: n })
        + tracks.map_values(|p: Seq<char>| SyncOpView::DeleteTrack { path: p })
}

/// The steps that copy the missing tracks of the chosen playlists.
pub open spec fn copy_ops(
    playlists: Seq<PlaylistModel>,
    tracks: Map<Seq<char>, TrackView>,
    root: Seq<char>,
) -> Seq<SyncOpView> {
    missing_ids(all_track_ids(checked_of(playlists)), tracks).map_values(
        |id: Seq<char>| copy_op(tracks[id], root),
    )
}

/// The steps that write the outdated ones of the chosen playlists.
pub open spec fn write_ops(
    playlists: Seq<PlaylistModel>,
    tracks: Map<Seq<char>, TrackView>,
    root: Seq<char>,
    files: Seq<ManifestPlaylistView>,
) -> Seq<SyncOpView> {
    checked_of(playlists).filter(
        |p: PlaylistModel| is_outdated(p, tracks, root, files),
    ).map_values(|p: PlaylistModel| write_op(p, tracks, root))
}

/// All steps of a sync: first what is deleted, then what is copied, then what
/// is written.
pub open spec fn planned_ops(
    playlists: Seq<PlaylistModel>,
    tracks: Map<Seq<char>, TrackView>,
    root: Seq<char>,
    files: Seq<ManifestPlaylistView>,
    playlists_to_delete: Seq<Seq<char>>,
    tracks_to_delete: Seq<Seq<char>>,
) -> Seq<SyncOpView> {
    delete_ops(playlists_to_delete, tracks_to_delete) + copy_ops(playlists, tracks, root)
        + write_ops(playlists, tracks, root, files)
}

/// The chosen playlists of a list.
pub fn checked_playlists<'a>(playlists: &'a Vec<Playlist>) -> (r: Vec<&'a Playlist>)
    ensures
        referenced_playlists(r@) == checked_of(playlist_models(playlists@)),
{
    let mut r: Vec<&'a Playlist> = Vec::new();
    let n: usize = playlists.len();
    let mut i: usize = 0;
    let ghost all = playlist_models(playlists@);
    let ghost f = |p: PlaylistModel| p.checked;
    proof {
        reveal(Seq::filter);
        assert(referenced_playlists(r@) =~= all.take(0).filter(f));
    }
    while i < n
        invariant
            n == playlists@.len(),
            all == playlist_models(playlists@),
            f == |p: PlaylistModel| p.checked,
            i <= n,
            referenced_playlists(r@) == all.take(i as int).filter(f),
        decreases n - i,
    {
        let ghost had = referenced_playlists(r@);
        proof {
            reveal(Seq::filter);
            assert(all.take(i + 1).drop_last() =~= all.take(i as int));
            assert(all.take(i + 1).last() == playlists@[i as int]@);
        }
        if playlists[i].checked {
            r.push(&playlists[i]);
            assert(referenced_playlists(r@) =~= had.push(playlists@[i as int]@));
        }
        i = i + 1;
    }
    assert(all.take(n as int) =~= all);
    r
}

/// The content of the last playlist file of a name.
fn find_content<'a>(files: &'a Vec<ManifestPlaylist>, name: &str) -> (r: Option<&'a String>)
    ensures
        match r {
            Some(c) => content_of(manifest_playlist_views(files@), name@) == Some(c@),
            None => content_of(manifest_playlist_views(files@), name@) is None,
        },
{
    let mut i: usize = files.len();
    let ghost all = manifest_playlist_views(files@);
    assert(all.take(i as int) =~= all);
    while i > 0
        invariant
            i <= files@.len(),
            all == manifest_playlist_views(files@),
            content_of(all.take(i as int), name@) == content_of(all, name@),
        decreases i,
    {
        i = i - 1;
        proof {
            assert(all.take(i + 1).drop_last() =~= all.take(i as int));
            assert(all.take(i + 1).last() == files@[i as int]@);
        }
        if same_text(files[i].name.as_str(), name) {
            return Some(&files[i].content);
        }
    }
    None
}

/// The content that a playlist's file should have.
pub fn playlist_content(p: &Playlist, root: &str, tracks: &TrackMap) -> (s: String)
    ensures
        s@ == m3u_text(p@.track_ids, root@, tracks@),
{
    let lookup = |id: &str| -> (r: Option<&Track>)
        ensures
            match r {
                Some(t) => tracks@.contains_key(id@) && t@ == tracks@[id@],
                None => !tracks@.contains_key(id@),
            },
        { tracks.get(id) };
    assert(crate::playlist::is_lookup(lookup, tracks@));
    p.generate_m3u(root, lookup)
}

/// Adds the steps that delete files.
fn add_deletes(ops: &mut Vec<SyncOp>, playlists: &Vec<String>, tracks: &Vec<String>)
    ensures
        op_views(final(ops)@) == op_views(old(ops)@) + delete_ops(
            texts(playlists@),
            texts(tracks@),
        ),
{
    let ghost before = op_views(ops@);
    let ghost f = |n: Seq<char>| SyncOpView::DeletePlaylist { name: n };
    let ghost g = |p: Seq<char>| SyncOpView::DeleteTrack { path: p };
    let ghost a = texts(playlists@).map_values(f);
    let ghost b = texts(tracks@).map_values(g);
    let n: usize = playlists.len();
    let mut i: usize = 0;
    assert(op_views(ops@) =~= before + a.take(0));
    while i < n
        invariant
            n == playlists@.len(),
            i <= n,
            f == (|n: Seq<char>| (SyncOpView::DeletePlaylist { name: n })),
            a == texts(playlists@).map_values(f),
            op_views(ops@) == before + a.take(i as int),
        decreases n - i,
    {
        let ghost had = op_views(ops@);
        let op = SyncOp::DeletePlaylist { name: playlists[i].clone() };
        let ghost ov = op@;
        ops.push(op);
        proof {
            assert(op_views(ops@) =~= had.push(ov));
            assert(a[i as int] == ov);
            assert(before + a.take(i + 1) =~= had.push(ov));
        }
        i = i + 1;
    }
    let ghost middle = op_views(ops@);
    let m: usize = tracks.len();
    let mut j: usize = 0;
    assert(middle =~= before + a);
    assert(op_views(ops@) =~= middle + b.take(0));
    while j < m
        invariant
            m == tracks@.len(),
            j <= m,
            g == (|p: Seq<char>| (SyncOpView::DeleteTrack { path: p })),
            b == texts(tracks@).map_values(g),
            op_views(ops@) == middle + b.take(j as int),
        decreases m - j,
    {
        let ghost had = op_views(ops@);
        let op = SyncOp::DeleteTrack { path: tracks[j].clone() };
        let ghost ov = op@;
        ops.push(op);
        proof {
            assert(op_views(ops@) =~= had.push(ov));
            assert(b[j as int] == ov);
            assert(middle + b.take(j + 1) =~= had.push(ov));
        }
        j = j + 1;
    }
    assert(op_views(ops@) =~= before + delete_ops(texts(playlists@), texts(tracks@)));
}

/// Adds the steps that copy tracks.
fn add_copies(ops: &mut Vec<SyncOp>, ids: &Vec<String>, tracks: &TrackMap, root: &str)
    requires
        forall|i: int| 0 <= i < ids@.len() ==> tracks@.contains_key((#[trigger] ids@[i])@),
    ensures
        op_views(final(ops)@) == op_views(old(ops)@) + texts(ids@).map_values(
            |id: Seq<char>| copy_op(tracks@[id], root@),
        ),
{
    let ghost before = op_views(ops@);
    let ghost f = |id: Seq<char>| copy_op(tracks@[id], root@);
    let ghost a = texts(ids@).map_values(f);
    let n: usize = ids.len();
    let mut i: usize = 0;
    assert(op_views(ops@) =~= before + a.take(0));
    while i < n
        invariant
            n == ids@.len(),
            i <= n,
            forall|j: int| 0 <= j < ids@.len() ==> tracks@.contains_key((#[trigger] ids@[j])@),
            f == |id: Seq<char>| copy_op(tracks@[id], root@),
            a == texts(ids@).map_values(f),
            op_views(ops@) == before + a.take(i as int),
        decreases n - i,
    {
        let ghost had = op_views(ops@);
        assert(tracks@.contains_key(ids@[i as int]@));
        if let Some(t) = tracks.get(ids[i].as_str()) {
            let op = SyncOp::CopyTrack {
                name: t.name.clone(),
                local_path: t.local_path.clone(),
                dest: t.playlist_path(root),
            };
            let ghost ov = op@;
            ops.push(op);
            proof {
                assert(op_views(ops@) =~= had.push(ov));
                assert(a[i as int] == ov);
                assert(before + a.take(i + 1) =~= had.push(ov));
            }
        }
        i = i + 1;
    }
    assert(op_views(ops@) =~= before + a);
}

/// Adds the steps that write playlists.
fn add_writes(
    ops: &mut Vec<SyncOp>,
    checked: &Vec<&Playlist>,
    tracks: &TrackMap,
    root: &str,
    files: &Vec<ManifestPlaylist>,
)
    ensures
        op_views(final(ops)@) == op_views(old(ops)@) + referenced_playlists(checked@).filter(
            |p: PlaylistModel|
                is_outdated(p, tracks@, root@, manifest_playlist_views(files@)),
        ).map_values(|p: PlaylistModel| write_op(p, tracks@, root@)),
{
    let ghost before = op_views(ops@);
    let ghost fv = manifest_playlist_views(files@);
    let ghost keep = |p: PlaylistModel| is_outdated(p, tracks@, root@, fv);
    let ghost f = |p: PlaylistModel| write_op(p, tracks@, root@);
    let ghost all = referenced_playlists(checked@);
    let n: usize = checked.len();
    let mut i: usize = 0;
    proof {
        reveal(Seq::filter);
        assert(all.take(0).filter(keep).map_values(f) =~= Seq::empty());
        assert(op_views(ops@) =~= before + all.take(0).filter(keep).map_values(f));
    }
    while i < n
        invariant
            n == checked@.len(),
            i <= n,
            fv == manifest_playlist_views(files@),
            keep == |p: PlaylistModel| is_outdated(p, tracks@, root@, fv),
            f == |p: PlaylistModel| write_op(p, tracks@, root@),
            all == referenced_playlists(checked@),
            op_views(ops@) == before + all.take(i as int).filter(keep).map_values(f),
        decreases n - i,
    {
        let ghost had = op_views(ops@);
        let p: &Playlist = checked[i];
        let ghost pv = p@;
        proof {
            reveal(Seq::filter);
            assert(all.take(i + 1).drop_last() =~= all.take(i as int));
            assert(all.take(i + 1).last() == pv);
        }
        let content: String = playlist_content(p, root, tracks);
        let filename: String = p.device_filename();
        let outdated: bool = match find_content(files, filename.as_str()) {
            Some(existing) => !m3u_semantically_equal(existing.as_str(), content.as_str()),
            None => true,
        };
        assert(outdated == is_outdated(pv, tracks@, root@, fv));
        let ghost old_kept = all.take(i as int).filter(keep);
        if outdated {
            let op = SyncOp::WritePlaylist { name: p.name.clone(), filename, content };
            let ghost ov = op@;
            ops.push(op);
            proof {
                assert(ov == f(pv));
                assert(op_views(ops@) =~= had.push(ov));
                assert(all.take(i + 1).filter(keep) == old_kept.push(pv));
                assert(old_kept.push(pv).map_values(f) =~= old_kept.map_values(f).push(ov));
                assert(before + old_kept.map_values(f).push(ov) =~= had.push(ov));
            }
        } else {
            assert(all.take(i + 1).filter(keep) == old_kept);
        }
        i = i + 1;
    }
    assert(all.take(n as int) =~= all);
}

/// Plans a sync: `tracks` are marked with what the device has, `device_playlists`
/// are its playlist files and `music_root` is its music root.
pub fn plan_sync(
    tracks: &TrackMap,
    playlists: &Vec<Playlist>,
    device_playlists: &Vec<ManifestPlaylist>,
    music_root: &str,
    playlists_to_delete: &Vec<String>,
    tracks_to_delete: &Vec<String>,
) -> (ops: Vec<SyncOp>)
    ensures
        op_views(ops@) == planned_ops(
            playlist_models(playlists@),
            tracks@,
            music_root@,
            manifest_playlist_views(device_playlists@),
            texts(playlists_to_delete@),
            texts(tracks_to_delete@),
        ),
{
    let checked: Vec<&Playlist> = checked_playlists(playlists);
    let ids: Vec<String> = tracks_to_upload(checked.as_slice(), tracks);
    let ghost all = all_track_ids(checked_of(playlist_models(playlists@)));
    proof {
        missing_ids_are_exact(all, tracks@);
        assert forall|i: int| 0 <= i < ids@.len() implies tracks@.contains_key(
            (#[trigger] ids@[i])@,
        ) by {
            assert(texts(ids@)[i] == ids@[i]@);
            assert(missing_ids(all, tracks@).contains(ids@[i]@));
        }
    }
    let mut ops: Vec<SyncOp> = Vec::new();
    assert(op_views(ops@) =~= Seq::empty());
    add_deletes(&mut ops, playlists_to_delete, tracks_to_delete);
    add_copies(&mut ops, &ids, tracks, music_root);
    add_writes(&mut ops, &checked, tracks, music_root, device_playlists);
    proof {
        let d = delete_ops(texts(playlists_to_delete@), texts(tracks_to_delete@));
        assert(Seq::<SyncOpView>::empty() + d =~= d);
    }
    ops
}

// ---------------------------------------------------------------------------
// Laws
// ---------------------------------------------------------------------------

/// In every plan what is deleted comes first and what is written last.
pub proof fn plan_is_ordered(
    playlists: Seq<PlaylistModel>,
    tracks: Map<Seq<char>, TrackView>,
    root: Seq<char>,
    files: Seq<ManifestPlaylistView>,
    playlists_to_delete: Seq<Seq<char>>,
    tracks_to_delete: Seq<Seq<char>>,
)
    ensures
        is_ordered(
            planned_ops(
                playlists,
                tracks,
                root,
                files,
                playlists_to_delete,
                tracks_to_delete,
            ),
        ),
{
    let d = delete_ops(playlists_to_delete, tracks_to_delete);
    let c = copy_ops(playlists, tracks, root);
    let w = write_ops(playlists, tracks, root, files);
    let ops = d + c + w;
    assert forall|i: int| 0 <= i < ops.len() implies is_delete(#[trigger] ops[i]) == (i < d.len())
        by {
        if i < d.len() {
            assert(ops[i] == d[i]);
        } else if i < d.len() + c.len() {
            assert(ops[i] == c[i - d.len()]);
        } else {
            assert(ops[i] == w[i - d.len() - c.len()]);
        }
    }
    assert forall|i: int| 0 <= i < ops.len() implies ((#[trigger] ops[i]) is WritePlaylist) == (i
        >= d.len() + c.len()) by {
        if i < d.len() {
            assert(ops[i] == d[i]);
        } else if i < d.len() + c.len() {
            assert(ops[i] == c[i - d.len()]);
        } else {
            assert(ops[i] == w[i - d.len() - c.len()]);
        }
    }
}

/// The last component of a path is that of what follows a slash in it.
proof fn last_component_of_tail(base: Seq<char>, tail: Seq<char>)
    ensures
        behind_last(base + seq!['/'] + tail, '/') == behind_last(tail, '/'),
    decreases tail.len(),
{
    let p = base + seq!['/'] + tail;
    if tail.len() == 0 {
        assert(p.last() == '/');
    } else {
        assert(p.last() == tail.last());
        assert(p.drop_last() =~= base + seq!['/'] + tail.drop_last());
        last_component_of_tail(base, tail.drop_last());
    }
}

/// A track below the music root has, on the device, the last component that
/// its path relative to the root has.
pub proof fn relative_path_keeps_name(t: TrackView, root: Seq<char>, rest: Seq<char>)
    requires
        is_plain_root(root),
        t.device_path == path_joined(root, rest),
    ensures
        behind_last(t.relative_path(root), '/') == behind_last(t.device_path, '/'),
{
    joined_path_is_relative_to_root(root, rest, t);
    last_component_of_tail(trimmed_end(root, '/'), trimmed_start(rest, '/'));
}

/// Whether a track lies below the music root.
pub open spec fn is_below(t: TrackView, root: Seq<char>) -> bool {
    exists|rest: Seq<char>| t.device_path == #[trigger] path_joined(root, rest)
}

/// Whether a list of files has the file that copying a track makes.
pub open spec fn has_copy_of(files: Seq<DeviceFileView>, t: TrackView, root: Seq<char>) -> bool {
    exists|i: int|
        0 <= i < files.len() && (#[trigger] files[i]).size == t.size && files[i].path
            == t.relative_path(root)
}

/// A track is recognised by the file that copying it makes.
pub proof fn copied_track_is_recognised(
    tracks: Map<Seq<char>, TrackView>,
    t: TrackView,
    root: Seq<char>,
    files: Seq<DeviceFileView>,
)
    requires
        is_plain_root(root),
        is_below(t, root),
        has_copy_of(files, t, root),
    ensures
        has_own_file(tracks, t, files),
{
    let rest = choose|rest: Seq<char>| t.device_path == #[trigger] path_joined(root, rest);
    relative_path_keeps_name(t, root, rest);
    let i = choose|i: int|
        0 <= i < files.len() && (#[trigger] files[i]).size == t.size && files[i].path
            == t.relative_path(root);
    assert(has_size_and_name(t, files[i]));
    assert(stands_for(tracks, t, files[i]));
}

/// A sync leaves nothing to do: where the device has the file of every known
/// track of the chosen playlists, and of every chosen playlist the file that a
/// sync writes, the next plan is empty.
pub proof fn synced_device_needs_nothing(
    playlists: Seq<PlaylistModel>,
    tracks: Map<Seq<char>, TrackView>,
    root: Seq<char>,
    device_files: Seq<DeviceFileView>,
    device_playlists: Seq<ManifestPlaylistView>,
)
    requires
        is_plain_root(root),
        forall|id: Seq<char>| #[trigger]
            all_track_ids(checked_of(playlists)).contains(id) && tracks.contains_key(id)
                ==> is_below(tracks[id], root) && has_copy_of(device_files, tracks[id], root),
        forall|i: int|
            0 <= i < checked_of(playlists).len() ==> content_of(
                device_playlists,
                m3u_filename((#[trigger] checked_of(playlists)[i]).name),
            ) == Some(
                m3u_text(
                    checked_of(playlists)[i].track_ids,
                    root,
                    remarked(
                        tracks,
                        |k: Seq<char>| has_own_file(tracks, tracks[k], device_files),
                    ),
                ),
            ),
    ensures
        planned_ops(
            playlists,
            remarked(tracks, |k: Seq<char>| has_own_file(tracks, tracks[k], device_files)),
            root,
            device_playlists,
            Seq::empty(),
            Seq::empty(),
        ) == Seq::<SyncOpView>::empty(),
{
    let marked = remarked(tracks, |k: Seq<char>| has_own_file(tracks, tracks[k], device_files));
    let checked = checked_of(playlists);
    let ids = all_track_ids(checked);
    let missing = missing_ids(ids, marked);
    missing_ids_are_exact(ids, marked);
    if missing.len() > 0 {
        let id = missing[0];
        assert(missing.contains(id));
        assert(ids.contains(id) && is_missing(marked, id));
        assert(tracks.contains_key(id));
        copied_track_is_recognised(tracks, tracks[id], root, device_files);
        assert(false);
    }
    let keep = |p: PlaylistModel| is_outdated(p, marked, root, device_playlists);
    let outdated = checked.filter(keep);
    if outdated.len() > 0 {
        checked.lemma_filter_pred(keep, 0);
        let p = outdated[0];
        assert(outdated.contains(p));
        checked.lemma_filter_contains_rev(keep, p);
        let i = choose|i: int| 0 <= i < checked.len() && checked[i] == p;
        assert(content_of(device_playlists, m3u_filename(checked[i].name)) is Some);
        assert(false);
    }
    let none = Seq::<Seq<char>>::empty();
    assert(delete_ops(none, none) =~= Seq::empty());
    assert(copy_ops(playlists, marked, root) =~= Seq::empty());
    assert(write_ops(playlists, marked, root, device_playlists) =~= Seq::empty());
    assert(planned_ops(playlists, marked, root, device_playlists, none, none) =~= Seq::empty());
}

} // verus!
