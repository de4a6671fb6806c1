//! Laws on what the user is shown.
use vstd::prelude::*;

use crate::cleanup::unwanted_paths;
use crate::laws::deletions::{
    chosen_ids_are_those_of_chosen_playlists, is_in_a_chosen_playlist,
};
use crate::laws::marks::{chosen_playlists_are_the_marked_ones, tracks_are_sent_in_order};
use crate::library::LibraryModel;
use crate::matching::{all_track_ids, missing_ids, DeviceFileView};
use crate::playlist::PlaylistModel;
use crate::preview::{
    doomed_song, is_readable, new_playlists, playlist_refs, previews, removed_playlists,
    size_of_path, song_paths, song_rows, songs_to_copy, track_of_size, PlaylistRef, SongRow,
    SyncPreview,
};
use crate::scan::ScanModel;
use crate::settings::{PlaylistAction, RememberedView, SettingsView};
use crate::sync::checked_of;
use crate::track::TrackView;
use crate::views::{can_be_cleaned, missing_list, playlist_ids, row_of, MissingRow};

verus! {

/// A row shows its playlist, how many tracks it has, whether it is chosen and
/// whether it is ticked for cleaning up; how many entries its file on the
/// device has is shown where a scan found the file, and what is counted of the
/// device only after a scan.
pub proof fn row_shows_its_playlist(
    p: PlaylistModel,
    lib: LibraryModel,
    settings: SettingsView,
    scan: Option<ScanModel>,
)
    ensures
        ({
            let r = row_of(p, lib, settings, scan);
            &&& r.playlist_id == p.playlist_id
            &&& r.name == p.name
            &&& r.track_count == p.track_ids.len()
            &&& r.checked == p.checked
            &&& r.cleanup_checked == settings.cleanup_playlist_ids.contains(p.playlist_id)
            &&& scan is None ==> r.device_tracks_count is None && r.tracks_to_copy is None
                && r.cleanup_count is None
            &&& scan matches Some(s) ==> {
                &&& r.tracks_to_copy is Some
                &&& r.cleanup_count is Some <==> !p.checked
                &&& s.line_counts.contains_key(p.name) ==> r.device_tracks_count == Some(
                    s.line_counts[p.name],
                )
                &&& !s.line_counts.contains_key(p.name) ==> r.device_tracks_count is None
            }
        }),
{
}

/// A row counts each track of the playlist once that is known and not on the
/// device, and, of a playlist that is not chosen, the tracks as often as they
/// stand in it that are known, in no chosen playlist, and have a file of their
/// size on the device.
pub proof fn row_counts_its_tracks(
    p: PlaylistModel,
    id: Seq<char>,
    lib: LibraryModel,
    settings: SettingsView,
    scan: ScanModel,
)
    ensures
        ({
            let none = PlaylistModel { track_ids: Seq::empty(), ..p };
            let more = PlaylistModel { track_ids: p.track_ids.push(id), ..p };
            let a = row_of(p, lib, settings, Some(scan));
            let b = row_of(more, lib, settings, Some(scan));
            let is_sent = lib.tracks.contains_key(id) && !lib.tracks[id].on_device
                && !p.track_ids.contains(id);
            let is_stale = lib.tracks.contains_key(id) && !is_in_a_chosen_playlist(
                lib.playlists,
                id,
            ) && exists|i: int|
                0 <= i < scan.files.len() && (#[trigger] scan.files[i]).size
                    == lib.tracks[id].size;
            &&& row_of(none, lib, settings, Some(scan)).tracks_to_copy == Some(0nat)
            &&& !p.checked ==> row_of(none, lib, settings, Some(scan)).cleanup_count == Some(0nat)
            &&& b.tracks_to_copy->0 == a.tracks_to_copy->0 + (if is_sent {
                1nat
            } else {
                0nat
            })
            &&& !p.checked ==> b.cleanup_count->0 == a.cleanup_count->0 + (if is_stale {
                1nat
            } else {
                0nat
            })
        }),
{
    reveal(Seq::filter);
    tracks_are_sent_in_order(p.track_ids, id, lib.tracks);
    chosen_ids_are_those_of_chosen_playlists(lib.playlists, id);
    let f = |id: Seq<char>|
        can_be_cleaned(id, lib.tracks, all_track_ids(checked_of(lib.playlists)), scan.files);
    assert(p.track_ids.push(id).drop_last() =~= p.track_ids);
    assert(Seq::<Seq<char>>::empty().filter(f).len() == 0);
}

/// The list of missing playlists holds the remembered playlists whose ID no
/// playlist of the library has, in order, each with what is to be done with
/// it.
pub proof fn missing_playlists_are_listed(
    lib: LibraryModel,
    settings: SettingsView,
    r: RememberedView,
)
    ensures
        missing_list(
            lib,
            SettingsView { remembered_playlists: Seq::empty(), ..settings },
        ).len() == 0,
        missing_list(
            lib,
            SettingsView {
                remembered_playlists: settings.remembered_playlists.push(r),
                ..settings
            },
        ) == (if exists|i: int|
            0 <= i < lib.playlists.len() && (#[trigger] lib.playlists[i]).playlist_id == r.id {
            missing_list(lib, settings)
        } else {
            missing_list(lib, settings).push(
                MissingRow {
                    id: r.id,
                    name: r.name,
                    action: if r.action == PlaylistAction::Delete {
                        "delete"@
                    } else {
                        "ignore"@
                    },
                },
            )
        }),
{
    reveal(Seq::filter);
    let old = settings.remembered_playlists;
    let more = SettingsView { remembered_playlists: old.push(r), ..settings };
    assert(old.push(r).drop_last() =~= old);
    let ids = playlist_ids(lib.playlists);
    if ids.contains(r.id) {
        let i = choose|i: int| 0 <= i < ids.len() && ids[i] == r.id;
        assert(lib.playlists[i].playlist_id == r.id);
    }
    if exists|i: int|
        0 <= i < lib.playlists.len() && (#[trigger] lib.playlists[i]).playlist_id == r.id {
        let i = choose|i: int|
            0 <= i < lib.playlists.len() && (#[trigger] lib.playlists[i]).playlist_id == r.id;
        assert(ids[i] == r.id);
        assert(missing_list(lib, more) =~= missing_list(lib, settings));
    } else {
        let row = MissingRow {
            id: r.id,
            name: r.name,
            action: if r.action == PlaylistAction::Delete {
                "delete"@
            } else {
                "ignore"@
            },
        };
        assert(missing_list(lib, more) =~= missing_list(lib, settings).push(row));
    }
}

/// The songs to copy are the tracks that have to be sent, in their order, each
/// with its name, its artist and its two paths.
pub proof fn songs_to_copy_are_the_missing_tracks(lib: LibraryModel, i: int)
    ensures
        ({
            let ids = missing_ids(all_track_ids(checked_of(lib.playlists)), lib.tracks);
            &&& songs_to_copy(lib).len() == ids.len()
            &&& 0 <= i < ids.len() ==> songs_to_copy(lib)[i] == (SongRow {
                name: lib.tracks[ids[i]].name,
                artist: lib.tracks[ids[i]].artist,
                path: lib.tracks[ids[i]].local_path,
                device_path: lib.tracks[ids[i]].device_path,
            })
        }),
{
}

/// A song that has to be sent is shown as new where its file has a path that
/// can be read, and as missing where not; nothing else is shown as either.
pub proof fn songs_are_shown(
    p: SyncPreview,
    lib: LibraryModel,
    tracks: Seq<TrackView>,
    settings: SettingsView,
    scan: ScanModel,
    readable: Seq<Seq<char>>,
    s: SongRow,
)
    requires
        previews(p, lib, tracks, settings, scan, readable),
    ensures
        song_rows(p.new_song_items@).contains(s) <==> songs_to_copy(lib).contains(s) && s.path.len()
            > 0 && readable.contains(s.path),
        song_rows(p.missing_files@).contains(s) <==> songs_to_copy(lib).contains(s) && !(
        s.path.len() > 0 && readable.contains(s.path)),
        song_rows(p.new_song_items@) == songs_to_copy(lib).filter(
            |x: SongRow| x.path.len() > 0 && readable.contains(x.path),
        ),
        song_rows(p.missing_files@) == songs_to_copy(lib).filter(
            |x: SongRow| !(x.path.len() > 0 && readable.contains(x.path)),
        ),
        forall|i: int|
            0 <= i < p.delete_song_items@.len() ==> (#[trigger] p.delete_song_items@[i])@
                == doomed_song(p.delete_song_items@[i]@.path, scan.files, tracks),
        song_paths(song_rows(p.delete_song_items@)).contains(s.path) <==> unwanted_paths(
            lib,
            settings,
            scan,
        ).contains(s.path),
        p.new_songs == p.new_song_items@.len(),
        p.delete_songs == p.delete_song_items@.len(),
        p.new_playlists == p.new_playlist_items@.len(),
        p.remove_playlists == p.remove_playlist_items@.len(),
        playlist_refs(p.new_playlist_items@) == new_playlists(lib, scan),
        playlist_refs(p.remove_playlist_items@) == removed_playlists(settings),
{
    let all = songs_to_copy(lib);
    let f = |s: SongRow| is_readable(s, readable);
    let g = |s: SongRow| !is_readable(s, readable);
    filter_members(all, f, s);
    filter_members(all, g, s);
    assert(f =~= (|x: SongRow| x.path.len() > 0 && readable.contains(x.path)));
    assert(g =~= (|x: SongRow| !(x.path.len() > 0 && readable.contains(x.path))));
    let rows = song_rows(p.delete_song_items@);
    assert forall|i: int| 0 <= i < p.delete_song_items@.len() implies (
    #[trigger] p.delete_song_items@[i])@ == doomed_song(
        p.delete_song_items@[i]@.path,
        scan.files,
        tracks,
    ) by {
        assert(rows[i] == p.delete_song_items@[i]@);
        assert(song_paths(rows)[i] == rows[i].path);
    }
}

/// What is left of a list by a filter.
pub(crate) proof fn filter_members<A>(v: Seq<A>, f: spec_fn(A) -> bool, x: A)
    ensures
        v.filter(f).contains(x) <==> v.contains(x) && f(x),
{
    if v.contains(x) && f(x) {
        let i = choose|i: int| 0 <= i < v.len() && v[i] == x;
        v.lemma_filter_contains(f, i);
    }
    if v.filter(f).contains(x) {
        let i = choose|i: int| 0 <= i < v.filter(f).len() && v.filter(f)[i] == x;
        v.lemma_filter_pred(f, i);
        v.lemma_filter_contains_rev(f, x);
    }
}

/// A chosen playlist is shown as new exactly where the scan found no file of
/// its name on the device.
pub proof fn new_playlists_are_shown(lib: LibraryModel, scan: ScanModel, p: PlaylistModel)
    ensures
        ({
            let more = LibraryModel { playlists: lib.playlists.push(p), ..lib };
            let none = LibraryModel { playlists: Seq::empty(), ..lib };
            &&& new_playlists(none, scan).len() == 0
            &&& new_playlists(more, scan) == (if p.checked && !scan.line_counts.contains_key(
                p.name,
            ) {
                new_playlists(lib, scan).push(
                    PlaylistRef { name: p.name, filename: p.name + ".m3u"@ },
                )
            } else {
                new_playlists(lib, scan)
            })
        }),
{
    reveal(Seq::filter);
    chosen_playlists_are_the_marked_ones(lib.playlists, p);
    let more = LibraryModel { playlists: lib.playlists.push(p), ..lib };
    let c = checked_of(lib.playlists);
    assert(c.push(p).drop_last() =~= c);
    if p.checked && !scan.line_counts.contains_key(p.name) {
        assert(new_playlists(more, scan) =~= new_playlists(lib, scan).push(
            PlaylistRef { name: p.name, filename: p.name + ".m3u"@ },
        ));
    } else {
        assert(new_playlists(more, scan) =~= new_playlists(lib, scan));
    }
}

/// A remembered playlist is shown as removed exactly where it is marked for
/// deletion.
pub proof fn removed_playlists_are_shown(settings: SettingsView, r: RememberedView)
    ensures
        removed_playlists(
            SettingsView { remembered_playlists: Seq::empty(), ..settings },
        ).len() == 0,
        removed_playlists(
            SettingsView {
                remembered_playlists: settings.remembered_playlists.push(r),
                ..settings
            },
        ) == (if r.action == PlaylistAction::Delete {
            removed_playlists(settings).push(
                PlaylistRef { name: r.name, filename: r.name + ".m3u"@ },
            )
        } else {
            removed_playlists(settings)
        }),
{
    reveal(Seq::filter);
    let old = settings.remembered_playlists;
    let more = SettingsView { remembered_playlists: old.push(r), ..settings };
    assert(old.push(r).drop_last() =~= old);
    if r.action == PlaylistAction::Delete {
        assert(removed_playlists(more) =~= removed_playlists(settings).push(
            PlaylistRef { name: r.name, filename: r.name + ".m3u"@ },
        ));
    } else {
        assert(removed_playlists(more) =~= removed_playlists(settings));
    }
}

/// A song to delete is shown with its path, and with the name and the artist
/// of the last track that has the size of the last file of that path; without
/// such a file or track both are empty.
pub proof fn doomed_song_is_named_by_its_size(
    files: Seq<DeviceFileView>,
    tracks: Seq<TrackView>,
    i: int,
    k: int,
    path: Seq<char>,
)
    ensures
        doomed_song(path, files, tracks).path == path,
        doomed_song(path, files, tracks).device_path.len() == 0,
        0 <= i < files.len() && files[i].path == path && (forall|j: int|
            i < j < files.len() ==> (#[trigger] files[j]).path != path) && 0 <= k < tracks.len()
            && tracks[k].size == files[i].size && (forall|j: int|
            k < j < tracks.len() ==> (#[trigger] tracks[j]).size != files[i].size) ==> doomed_song(
            path,
            files,
            tracks,
        ).name == tracks[k].name && doomed_song(path, files, tracks).artist == tracks[k].artist,
        0 <= i < files.len() && files[i].path == path && (forall|j: int|
            i < j < files.len() ==> (#[trigger] files[j]).path != path) && (forall|j: int|
            0 <= j < tracks.len() ==> (#[trigger] tracks[j]).size != files[i].size)
            ==> doomed_song(path, files, tracks).name.len() == 0 && doomed_song(
            path,
            files,
            tracks,
        ).artist.len() == 0,
        (forall|j: int| 0 <= j < files.len() ==> (#[trigger] files[j]).path != path)
            ==> doomed_song(path, files, tracks).name.len() == 0 && doomed_song(
            path,
            files,
            tracks,
        ).artist.len() == 0,
{
    last_size_of_path(files, path, i);
    if 0 <= i < files.len() {
        last_track_of_size(tracks, files[i].size, k);
    }
}

proof fn last_size_of_path(files: Seq<DeviceFileView>, path: Seq<char>, i: int)
    ensures
        0 <= i < files.len() && files[i].path == path && (forall|j: int|
            i < j < files.len() ==> (#[trigger] files[j]).path != path) ==> size_of_path(
            files,
            path,
        ) == Some(files[i].size),
        (forall|j: int| 0 <= j < files.len() ==> (#[trigger] files[j]).path != path)
            ==> size_of_path(files, path) is None,
    decreases files.len(),
{
    if files.len() > 0 {
        let front = files.drop_last();
        last_size_of_path(front, path, i);
        assert(files[files.len() - 1] == files.last());
        assert forall|j: int| 0 <= j < front.len() implies front[j] == #[trigger] files[j] by {}
        assert forall|j: int| 0 <= j < front.len() implies #[trigger] front[j] == files[j] by {}
    }
}

proof fn last_track_of_size(tracks: Seq<TrackView>, size: u64, k: int)
    ensures
        0 <= k < tracks.len() && tracks[k].size == size && (forall|j: int|
            k < j < tracks.len() ==> (#[trigger] tracks[j]).size != size) ==> track_of_size(
            tracks,
            size,
        ) == Some(tracks[k]),
        (forall|j: int| 0 <= j < tracks.len() ==> (#[trigger] tracks[j]).size != size)
            ==> track_of_size(tracks, size) is None,
    decreases tracks.len(),
{
    if tracks.len() > 0 {
        let front = tracks.drop_last();
        last_track_of_size(front, size, k);
        assert(tracks[tracks.len() - 1] == tracks.last());
        assert forall|j: int| 0 <= j < front.len() implies front[j] == #[trigger] tracks[j] by {}
        assert forall|j: int| 0 <= j < front.len() implies #[trigger] front[j] == tracks[j] by {}
    }
}

} // verus!
