//! Laws on the plan of a sync and on the run of its steps.
use vstd::prelude::*;

use crate::laws::deletions::{
    chosen_ids_are_those_of_chosen_playlists, is_in_a_chosen_playlist,
};
use crate::laws::marks::chosen_playlists_are_the_marked_ones;
use crate::matching::{all_track_ids, missing_ids, missing_ids_are_exact};
use crate::numbers::decimal;
use crate::playlist::{m3u_entries, m3u_text, PlaylistModel};
use crate::protocol::{ManifestFileView, ManifestPlaylistView};
use crate::run::{initial_run, step_label, OpOutcomeView, RunState, SyncStep};
use crate::session::files_of_manifest;
use crate::sync::{
    checked_of, content_of, copy_ops, delete_ops, is_outdated, planned_ops, write_ops, SyncOpView,
};
use crate::text::quoted;
use crate::track::TrackView;

verus! {

/// The content of a playlist file on the device is that of the last file of
/// its name, and there is none where no file has the name.
pub proof fn last_file_of_a_name(files: Seq<ManifestPlaylistView>, name: Seq<char>, i: int)
    ensures
        0 <= i < files.len() && files[i].name == name && (forall|j: int|
            i < j < files.len() ==> (#[trigger] files[j]).name != name) ==> content_of(files, name)
            == Some(files[i].content),
        (forall|j: int| 0 <= j < files.len() ==> (#[trigger] files[j]).name != name) ==> content_of(
            files,
            name,
        ) is None,
    decreases files.len(),
{
    if files.len() > 0 {
        let front = files.drop_last();
        last_file_of_a_name(front, name, i);
        assert(files[files.len() - 1] == files.last());
        if 0 <= i < front.len() && files[i].name == name && (forall|j: int|
            i < j < files.len() ==> (#[trigger] files[j]).name != name) {
            assert forall|j: int| i < j < front.len() implies (#[trigger] front[j]).name
                != name by {
                assert(front[j] == files[j]);
            }
            assert(front[i] == files[i]);
        }
        if forall|j: int| 0 <= j < files.len() ==> (#[trigger] files[j]).name != name {
            assert forall|j: int| 0 <= j < front.len() implies (#[trigger] front[j]).name
                != name by {
                assert(front[j] == files[j]);
            }
        }
    }
}

/// A plan begins with the deletions that were asked for, in order, playlists
/// before music, and deletes nothing else.
pub proof fn plan_deletes_what_was_asked(
    playlists: Seq<PlaylistModel>,
    tracks: Map<Seq<char>, TrackView>,
    root: Seq<char>,
    files: Seq<ManifestPlaylistView>,
    names: Seq<Seq<char>>,
    paths: Seq<Seq<char>>,
    i: int,
)
    ensures
        ({
            let ops = planned_ops(playlists, tracks, root, files, names, paths);
            &&& ops.len() >= names.len() + paths.len()
            &&& 0 <= i < names.len() ==> ops[i] == (SyncOpView::DeletePlaylist { name: names[i] })
            &&& names.len() <= i < names.len() + paths.len() ==> ops[i]
                == (SyncOpView::DeleteTrack { path: paths[i - names.len()] })
            &&& names.len() + paths.len() <= i < ops.len() ==> ops[i] is CopyTrack
                || ops[i] is WritePlaylist
        }),
{
    let d = delete_ops(names, paths);
    let c = copy_ops(playlists, tracks, root);
    let w = write_ops(playlists, tracks, root, files);
    let ops = d + c + w;
    assert(d.len() == names.len() + paths.len());
    if d.len() <= i < ops.len() {
        if i < d.len() + c.len() {
            assert(ops[i] == c[i - d.len()]);
        } else {
            assert(ops[i] == w[i - d.len() - c.len()]);
        }
    }
}

/// A plan copies the tracks that have to be sent, each once and in their
/// order, from where they lie on this computer to their path below the music
/// root, and no others.
pub proof fn plan_copies_the_missing_tracks(
    playlists: Seq<PlaylistModel>,
    tracks: Map<Seq<char>, TrackView>,
    root: Seq<char>,
    files: Seq<ManifestPlaylistView>,
    names: Seq<Seq<char>>,
    paths: Seq<Seq<char>>,
    i: int,
)
    ensures
        ({
            let ops = planned_ops(playlists, tracks, root, files, names, paths);
            let start = names.len() + paths.len();
            let ids = missing_ids(all_track_ids(checked_of(playlists)), tracks);
            &&& ops.len() >= start + ids.len()
            &&& 0 <= i < ids.len() ==> ops[start + i] == (SyncOpView::CopyTrack {
                name: tracks[ids[i]].name,
                local_path: tracks[ids[i]].local_path,
                dest: tracks[ids[i]].relative_path(root),
            })
            &&& start + ids.len() <= i < ops.len() ==> !(ops[i] is CopyTrack)
        }),
{
    let d = delete_ops(names, paths);
    let c = copy_ops(playlists, tracks, root);
    let w = write_ops(playlists, tracks, root, files);
    let ops = d + c + w;
    let ids = missing_ids(all_track_ids(checked_of(playlists)), tracks);
    assert(d.len() == names.len() + paths.len());
    assert(c.len() == ids.len());
    if 0 <= i < ids.len() {
        assert(ops[d.len() + i] == c[i]);
    }
    if d.len() + c.len() <= i < ops.len() {
        assert(ops[i] == w[i - d.len() - c.len()]);
    }
}

/// Every known track of a chosen playlist that is not on the device is copied.
pub proof fn missing_track_is_copied(
    playlists: Seq<PlaylistModel>,
    tracks: Map<Seq<char>, TrackView>,
    root: Seq<char>,
    files: Seq<ManifestPlaylistView>,
    names: Seq<Seq<char>>,
    paths: Seq<Seq<char>>,
    id: Seq<char>,
)
    requires
        is_in_a_chosen_playlist(playlists, id),
        tracks.contains_key(id),
        !tracks[id].on_device,
    ensures
        planned_ops(playlists, tracks, root, files, names, paths).contains(
            SyncOpView::CopyTrack {
                name: tracks[id].name,
                local_path: tracks[id].local_path,
                dest: tracks[id].relative_path(root),
            },
        ),
{
    let all = all_track_ids(checked_of(playlists));
    let ids = missing_ids(all, tracks);
    chosen_ids_are_those_of_chosen_playlists(playlists, id);
    missing_ids_are_exact(all, tracks);
    assert(ids.contains(id));
    let i = choose|i: int| 0 <= i < ids.len() && ids[i] == id;
    plan_copies_the_missing_tracks(playlists, tracks, root, files, names, paths, i);
    let ops = planned_ops(playlists, tracks, root, files, names, paths);
    assert(ops[names.len() + paths.len() + i] is CopyTrack);
}

/// Whether a playlist's file on the device is missing or holds other lines
/// than the playlist.
pub open spec fn needs_writing(
    p: PlaylistModel,
    tracks: Map<Seq<char>, TrackView>,
    root: Seq<char>,
    files: Seq<ManifestPlaylistView>,
) -> bool {
    ||| content_of(files, p.name + ".m3u"@) is None
    ||| m3u_entries(content_of(files, p.name + ".m3u"@)->0) != m3u_entries(
        m3u_text(p.track_ids, root, tracks),
    )
}

/// A plan ends with the files of the chosen playlists that the device lacks or
/// has with other lines, written whole under the playlists' names, and of no
/// other playlists.
pub proof fn plan_writes_outdated_playlists(
    playlists: Seq<PlaylistModel>,
    tracks: Map<Seq<char>, TrackView>,
    root: Seq<char>,
    files: Seq<ManifestPlaylistView>,
    names: Seq<Seq<char>>,
    paths: Seq<Seq<char>>,
    op: SyncOpView,
)
    requires
        op is WritePlaylist,
    ensures
        planned_ops(playlists, tracks, root, files, names, paths).contains(op) <==> exists|i: int|
            0 <= i < playlists.len() && (#[trigger] playlists[i]).checked && needs_writing(
                playlists[i],
                tracks,
                root,
                files,
            ) && op == (SyncOpView::WritePlaylist {
                name: playlists[i].name,
                filename: playlists[i].name + ".m3u"@,
                content: m3u_text(playlists[i].track_ids, root, tracks),
            }),
{
    let d = delete_ops(names, paths);
    let c = copy_ops(playlists, tracks, root);
    let w = write_ops(playlists, tracks, root, files);
    let ops = d + c + w;
    let chosen = checked_of(playlists);
    let f = |p: PlaylistModel| is_outdated(p, tracks, root, files);
    let due = chosen.filter(f);
    if ops.contains(op) {
        let k = choose|k: int| 0 <= k < ops.len() && ops[k] == op;
        if k < d.len() {
            assert(ops[k] == d[k]);
        } else if k < d.len() + c.len() {
            assert(ops[k] == c[k - d.len()]);
        }
        let m = k - d.len() - c.len();
        assert(w[m] == op);
        let p = due[m];
        assert(due.contains(p));
        chosen.lemma_filter_pred(f, m);
        chosen.lemma_filter_contains_rev(f, p);
        chosen_playlists_are_the_marked_ones(playlists, p);
        let i = choose|i: int| 0 <= i < playlists.len() && playlists[i] == p;
        assert(playlists[i].checked);
    }
    if exists|i: int|
        0 <= i < playlists.len() && (#[trigger] playlists[i]).checked && needs_writing(
            playlists[i],
            tracks,
            root,
            files,
        ) && op == (SyncOpView::WritePlaylist {
            name: playlists[i].name,
            filename: playlists[i].name + ".m3u"@,
            content: m3u_text(playlists[i].track_ids, root, tracks),
        }) {
        let i = choose|i: int|
            0 <= i < playlists.len() && (#[trigger] playlists[i]).checked && needs_writing(
                playlists[i],
                tracks,
                root,
                files,
            ) && op == (SyncOpView::WritePlaylist {
                name: playlists[i].name,
                filename: playlists[i].name + ".m3u"@,
                content: m3u_text(playlists[i].track_ids, root, tracks),
            });
        let p = playlists[i];
        assert(playlists.contains(p));
        chosen_playlists_are_the_marked_ones(playlists, p);
        let k = choose|k: int| 0 <= k < chosen.len() && chosen[k] == p;
        chosen.lemma_filter_contains(f, k);
        let m = choose|m: int| 0 <= m < due.len() && due[m] == p;
        assert(w[m] == op);
        assert(ops[d.len() + c.len() + m] == op);
    }
}

/// Behind the copies a plan holds the playlists to be written and nothing else,
/// in the order of the playlists, each once for each playlist.
pub proof fn playlists_are_written_in_order(
    playlists: Seq<PlaylistModel>,
    p: PlaylistModel,
    tracks: Map<Seq<char>, TrackView>,
    root: Seq<char>,
    files: Seq<ManifestPlaylistView>,
    names: Seq<Seq<char>>,
    paths: Seq<Seq<char>>,
)
    ensures
        planned_ops(playlists, tracks, root, files, names, paths).skip(
            names.len() + paths.len() + missing_ids(
                all_track_ids(checked_of(playlists)),
                tracks,
            ).len() as int,
        ) == write_ops(playlists, tracks, root, files),
        write_ops(Seq::empty(), tracks, root, files).len() == 0,
        write_ops(playlists.push(p), tracks, root, files) == (if p.checked && needs_writing(
            p,
            tracks,
            root,
            files,
        ) {
            write_ops(playlists, tracks, root, files).push(
                SyncOpView::WritePlaylist {
                    name: p.name,
                    filename: p.name + ".m3u"@,
                    content: m3u_text(p.track_ids, root, tracks),
                },
            )
        } else {
            write_ops(playlists, tracks, root, files)
        }),
{
    reveal(Seq::filter);
    let d = delete_ops(names, paths);
    let c = copy_ops(playlists, tracks, root);
    let w = write_ops(playlists, tracks, root, files);
    assert((d + c + w).skip((d + c).len() as int) =~= w);
    chosen_playlists_are_the_marked_ones(playlists, p);
    let chosen = checked_of(playlists);
    assert(chosen.push(p).drop_last() =~= chosen);
    let more = write_ops(playlists.push(p), tracks, root, files);
    if p.checked && needs_writing(p, tracks, root, files) {
        assert(more =~= w.push(
            SyncOpView::WritePlaylist {
                name: p.name,
                filename: p.name + ".m3u"@,
                content: m3u_text(p.track_ids, root, tracks),
            },
        ));
    } else {
        assert(more =~= w);
    }
}

/// A run begins with nothing done and nothing reported but how many tracks the
/// device had.
pub proof fn run_begins_with_nothing(ops: Seq<SyncOpView>, present: nat)
    ensures
        ({
            let r = initial_run(ops, present);
            &&& r.ops == ops
            &&& r.next == 0
            &&& r.completed == 0
            &&& !r.copying
            &&& !r.aborted
            &&& r.report.already_present == present
            &&& r.report.uploaded_tracks == 0
            &&& r.report.uploaded_playlists == 0
            &&& r.report.deleted_files == 0
            &&& r.report.errors.len() == 0
        }),
{
}

/// What a run does next: it tells of the copying once, in front of the first
/// step that deletes nothing or at the end; it performs the steps one by one,
/// numbered from 1; an abort takes effect in front of a step that sends
/// something; and behind the last step it is over.
pub proof fn steps_are_performed_in_turn(st: RunState, abort: bool)
    requires
        st.is_valid(),
        st.ops.len() < usize::MAX,
    ensures
        ({
            let (after, step) = st.advanced(abort);
            let at_end = st.next == st.ops.len();
            let deletes = !at_end && (st.ops[st.next as int] is DeletePlaylist
                || st.ops[st.next as int] is DeleteTrack);
            &&& step is StartCopying <==> !st.copying && !deletes
            &&& step is Finished <==> st.copying && at_end
            &&& step is Aborted <==> st.copying && !at_end && !deletes && abort
            &&& deletes || (st.copying && !at_end && !abort) ==> step == (SyncStep::Perform {
                step: (st.completed + 1) as usize,
                total: st.ops.len() as usize,
            })
            &&& step is StartCopying ==> after == (RunState { copying: true, ..st })
            &&& step is Finished || step is Perform ==> after == st
            &&& step is Aborted ==> after.aborted && after.next == st.ops.len() && after.completed
                == st.completed && after.report.errors == st.report.errors.push(
                "aborted by user"@,
            )
        }),
{
}

/// A step that was performed is counted under what it did, a failed copy or
/// playlist is reported with its name and the reason, a failed deletion is not
/// reported, and nothing else of the report changes.
pub proof fn outcomes_are_counted(st: RunState, outcome: OpOutcomeView)
    requires
        st.is_valid(),
        st.next < st.ops.len(),
    ensures
        ({
            let after = st.recorded(outcome);
            let r = st.report;
            let op = st.ops[st.next as int];
            let done = outcome is Done;
            &&& after.next == st.next + 1
            &&& after.completed == st.completed + 1
            &&& after.ops == st.ops
            &&& after.copying == st.copying
            &&& after.aborted == st.aborted
            &&& after.report.already_present == r.already_present
            &&& after.report.uploaded_tracks == r.uploaded_tracks + (if done && op is CopyTrack {
                1int
            } else {
                0
            })
            &&& after.report.uploaded_playlists == r.uploaded_playlists + (if done
                && op is WritePlaylist {
                1int
            } else {
                0
            })
            &&& after.report.deleted_files == r.deleted_files + (if done && (op is DeletePlaylist
                || op is DeleteTrack) {
                1int
            } else {
                0
            })
            &&& done || op is DeletePlaylist || op is DeleteTrack ==> after.report.errors
                == r.errors
            &&& outcome matches OpOutcomeView::Failed(m) ==> {
                &&& op matches SyncOpView::CopyTrack { name, .. } ==> after.report.errors
                    == r.errors.push(name + ": "@ + m)
                &&& op matches SyncOpView::WritePlaylist { name, .. } ==> after.report.errors
                    == r.errors.push("playlist "@ + name + ": "@ + m)
            }
        }),
{
}

/// A step is announced with its number, the number of all steps, how far the
/// run is, and what it does to which file or playlist.
pub proof fn steps_are_announced(
    step: nat,
    total: nat,
    percent: nat,
    name: Seq<char>,
    path: Seq<char>,
    dest: Seq<char>,
)
    ensures
        step_label(step, total, percent) == "["@ + decimal(step) + "/"@ + decimal(total) + ", "@
            + decimal(percent) + "%] "@,
        (SyncOpView::DeletePlaylist { name }).description() == "Deleting playlist "@ + quoted(name),
        (SyncOpView::DeleteTrack { path }).description() == "Deleting unused "@ + quoted(path),
        (SyncOpView::CopyTrack { name, local_path: path, dest }).description() == "Copying "@
            + quoted(path) + " -> "@ + quoted(dest),
        (SyncOpView::WritePlaylist { name, filename: path, content: dest }).description()
            == "Writing playlist "@ + name,
{
}

/// The files of a manifest are files of the device of the same paths and
/// sizes, in the same order.
pub proof fn manifest_lists_the_files(v: Seq<ManifestFileView>, i: int)
    ensures
        files_of_manifest(v).len() == v.len(),
        0 <= i < v.len() ==> files_of_manifest(v)[i].path == v[i].path,
        0 <= i < v.len() ==> files_of_manifest(v)[i].size == v[i].size,
{
}

} // verus!
