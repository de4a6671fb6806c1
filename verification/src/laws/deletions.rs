//! Laws on what a sync deletes from the device.
use vstd::prelude::*;

use crate::cleanup::{
    cleanup_path, cleanup_paths, first_path_of_size, lists_unwanted, unwanted_paths,
};
use crate::laws::marks::{
    chosen_playlists_are_the_marked_ones, track_ids_are_those_of_the_playlists,
};
use crate::library::LibraryModel;
use crate::matching::{all_track_ids, DeviceFileView};
use crate::order::text_less;
use crate::playlist::PlaylistModel;
use crate::scan::{is_m3u, is_orphan, lists_orphans, ScanModel};
use crate::settings::{PlaylistAction, RememberedView, SettingsView};
use crate::sync::checked_of;
use crate::text::has_suffix;
use crate::track::TrackView;

verus! {

/// A path is that of a playlist file exactly where it ends in `.m3u`, in
/// capital or small letters.
pub proof fn playlist_files_end_in_m3u(path: Seq<char>)
    ensures
        is_m3u(path) == (has_suffix(path, ".m3u"@) || has_suffix(path, ".M3U"@) || has_suffix(
            path,
            ".m3U"@,
        ) || has_suffix(path, ".M3u"@)),
{
    reveal_strlit(".m3u");
    reveal_strlit(".M3U");
    reveal_strlit(".m3U");
    reveal_strlit(".M3u");
    let n = path.len();
    if n >= 4 {
        let tail = path.subrange(n - 4, n as int);
        assert(tail[0] == path[n - 4]);
        assert(tail[1] == path[n - 3]);
        assert(tail[2] == path[n - 2]);
        assert(tail[3] == path[n - 1]);
        if is_m3u(path) {
            assert(tail =~= ".m3u"@ || tail =~= ".M3U"@ || tail =~= ".m3U"@ || tail =~= ".M3u"@);
        }
    }
}

/// Whether a file is music of a size.
pub open spec fn is_music_of(f: DeviceFileView, size: u64) -> bool {
    f.size == size && !is_m3u(f.path)
}

/// The path for a size is that of the first file of the size that is no
/// playlist file, and there is none where there is no such file.
pub proof fn first_file_of_a_size(files: Seq<DeviceFileView>, size: u64, i: int)
    ensures
        0 <= i < files.len() && is_music_of(files[i], size) && (forall|j: int|
            0 <= j < i ==> !is_music_of(#[trigger] files[j], size)) ==> first_path_of_size(
            files,
            size,
        ) == Some(files[i].path),
        (forall|j: int| 0 <= j < files.len() ==> !is_music_of(#[trigger] files[j], size))
            ==> first_path_of_size(files, size) is None,
    decreases files.len(),
{
    if files.len() > 0 {
        let front = files.drop_last();
        first_file_of_a_size(front, size, i);
        assert forall|j: int| 0 <= j < front.len() implies front[j] == #[trigger] files[j] by {}
        assert(is_music_of(files[files.len() - 1], size) == is_music_of(files.last(), size));
        if i < front.len() {
            assert(0 <= i ==> front[i] == files[i]);
        }
        if i == files.len() - 1 && forall|j: int|
            0 <= j < i ==> !is_music_of(#[trigger] files[j], size) {
            assert forall|j: int| 0 <= j < front.len() implies !is_music_of(
                #[trigger] front[j],
                size,
            ) by {
                assert(front[j] == files[j]);
            }
        }
        if forall|j: int| 0 <= j < files.len() ==> !is_music_of(#[trigger] files[j], size) {
            assert forall|j: int| 0 <= j < front.len() implies !is_music_of(
                #[trigger] front[j],
                size,
            ) by {
                assert(front[j] == files[j]);
            }
        }
    }
}

/// Whether a file is the first music file of a size.
pub open spec fn is_first_music_of(files: Seq<DeviceFileView>, j: int, size: u64) -> bool {
    &&& 0 <= j < files.len()
    &&& is_music_of(files[j], size)
    &&& forall|i: int| 0 <= i < j ==> !is_music_of(#[trigger] files[i], size)
}

/// A path for a size is that of the first music file of the size.
pub(crate) proof fn path_of_size_is_a_file(files: Seq<DeviceFileView>, size: u64)
    ensures
        first_path_of_size(files, size) matches Some(p) ==> exists|j: int| #[trigger]
            is_first_music_of(files, j, size) && files[j].path == p,
    decreases files.len(),
{
    if files.len() > 0 {
        let front = files.drop_last();
        path_of_size_is_a_file(front, size);
        if first_path_of_size(front, size) is Some {
            let p = first_path_of_size(front, size)->0;
            let j = choose|j: int| #[trigger]
                is_first_music_of(front, j, size) && front[j].path == p;
            assert forall|i: int| 0 <= i < j implies !is_music_of(#[trigger] files[i], size) by {
                assert(files[i] == front[i]);
            }
            assert(files[j] == front[j]);
            assert(is_first_music_of(files, j, size));
        } else if first_path_of_size(files, size) is Some {
            let j = files.len() - 1;
            assert forall|i: int| 0 <= i < j implies !is_music_of(#[trigger] files[i], size) by {
                assert(files[i] == front[i]);
                some_file_has_a_path(front, size, i);
            }
            assert(is_first_music_of(files, j, size));
        }
    }
}

proof fn some_file_has_a_path(files: Seq<DeviceFileView>, size: u64, i: int)
    requires
        0 <= i < files.len(),
        first_path_of_size(files, size) is None,
    ensures
        !is_music_of(files[i], size),
    decreases files.len(),
{
    if i < files.len() - 1 {
        some_file_has_a_path(files.drop_last(), size, i);
        assert(files.drop_last()[i] == files[i]);
    }
}

/// Whether a track is in a chosen playlist.
pub open spec fn is_in_a_chosen_playlist(playlists: Seq<PlaylistModel>, id: Seq<char>) -> bool {
    exists|i: int|
        0 <= i < playlists.len() && (#[trigger] playlists[i]).checked
            && playlists[i].track_ids.contains(id)
}

/// Whether a track is in a playlist that is ticked for cleaning up.
pub open spec fn is_in_a_ticked_playlist(
    playlists: Seq<PlaylistModel>,
    ticked: Seq<Seq<char>>,
    id: Seq<char>,
) -> bool {
    exists|i: int|
        0 <= i < playlists.len() && ticked.contains((#[trigger] playlists[i]).playlist_id)
            && playlists[i].track_ids.contains(id)
}

/// The IDs of the tracks of the chosen playlists are those that stand in one.
pub(crate) proof fn chosen_ids_are_those_of_chosen_playlists(
    playlists: Seq<PlaylistModel>,
    id: Seq<char>,
)
    ensures
        all_track_ids(checked_of(playlists)).contains(id) <==> is_in_a_chosen_playlist(
            playlists,
            id,
        ),
{
    let c = checked_of(playlists);
    if playlists.len() > 0 {
        track_ids_are_those_of_the_playlists(c, playlists[0], id);
    } else {
        reveal(Seq::filter);
        assert(c.len() == 0);
    }
    if all_track_ids(c).contains(id) {
        let i = choose|i: int| 0 <= i < c.len() && (#[trigger] c[i]).track_ids.contains(id);
        assert(c.contains(c[i]));
        chosen_playlists_are_the_marked_ones(playlists, c[i]);
        let k = choose|k: int| 0 <= k < playlists.len() && playlists[k] == c[i];
        assert(playlists[k].checked);
    }
    if is_in_a_chosen_playlist(playlists, id) {
        let i = choose|i: int|
            0 <= i < playlists.len() && (#[trigger] playlists[i]).checked
                && playlists[i].track_ids.contains(id);
        assert(playlists.contains(playlists[i]));
        chosen_playlists_are_the_marked_ones(playlists, playlists[i]);
        let k = choose|k: int| 0 <= k < c.len() && c[k] == playlists[i];
        assert(c[k].track_ids.contains(id));
    }
}

/// What the members of a mapped and filtered list come from.
pub(crate) proof fn filter_map_members<A, B>(s: Seq<A>, f: spec_fn(A) -> Option<B>, y: B)
    ensures
        s.filter_map(f).contains(y) <==> exists|i: int|
            0 <= i < s.len() && f(#[trigger] s[i]) == Some(y),
    decreases s.len(),
{
    reveal(Seq::filter_map);
    if s.len() > 0 {
        let front = s.drop_last();
        filter_map_members(front, f, y);
        let before = front.filter_map(f);
        let all = s.filter_map(f);
        assert(all == match f(s.last()) {
            Some(r) => before.push(r),
            None => before,
        }) by {
            s.lemma_filter_map_take_succ(f, s.len() - 1);
            assert(s.take(s.len() as int) =~= s);
            assert(s.take(s.len() - 1) =~= front);
        }
        if before.contains(y) {
            let k = choose|k: int| 0 <= k < before.len() && before[k] == y;
            assert(all[k] == y);
            let i = choose|i: int| 0 <= i < front.len() && f(#[trigger] front[i]) == Some(y);
            assert(f(s[i]) == Some(y));
        }
        if f(s.last()) == Some(y) {
            assert(all[all.len() - 1] == y);
            assert(f(s[s.len() - 1]) == Some(y));
        }
        if all.contains(y) && !before.contains(y) {
            let k = choose|k: int| 0 <= k < all.len() && all[k] == y;
            if k < before.len() {
                assert(before[k] == y);
            }
        }
        if exists|i: int| 0 <= i < s.len() && f(#[trigger] s[i]) == Some(y) {
            let i = choose|i: int| 0 <= i < s.len() && f(#[trigger] s[i]) == Some(y);
            if i < front.len() {
                assert(f(front[i]) == Some(y));
            }
        }
    }
}

/// The paths that are deleted for ticked playlists are those of their tracks.
proof fn cleanup_members(
    playlists: Seq<PlaylistModel>,
    ticked: Seq<Seq<char>>,
    tracks: Map<Seq<char>, TrackView>,
    chosen: Seq<Seq<char>>,
    files: Seq<DeviceFileView>,
    path: Seq<char>,
)
    ensures
        cleanup_paths(playlists, ticked, tracks, chosen, files).contains(path) <==> exists|
            id: Seq<char>,
        |
            #[trigger] is_in_a_ticked_playlist(playlists, ticked, id) && cleanup_path(
                id,
                tracks,
                chosen,
                files,
            ) == Some(path),
    decreases playlists.len(),
{
    let all = cleanup_paths(playlists, ticked, tracks, chosen, files);
    if playlists.len() > 0 {
        let front = playlists.drop_last();
        let p = playlists.last();
        cleanup_members(front, ticked, tracks, chosen, files, path);
        let before = cleanup_paths(front, ticked, tracks, chosen, files);
        let f = |id: Seq<char>| cleanup_path(id, tracks, chosen, files);
        let own = p.track_ids.filter_map(f);
        filter_map_members(p.track_ids, f, path);
        if all.contains(path) {
            let k = choose|k: int| 0 <= k < all.len() && all[k] == path;
            if k < before.len() {
                assert(before[k] == path);
                let id = choose|id: Seq<char>| #[trigger]
                    is_in_a_ticked_playlist(front, ticked, id) && cleanup_path(
                        id,
                        tracks,
                        chosen,
                        files,
                    ) == Some(path);
                let i = choose|i: int|
                    0 <= i < front.len() && ticked.contains((#[trigger] front[i]).playlist_id)
                        && front[i].track_ids.contains(id);
                assert(ticked.contains(playlists[i].playlist_id));
                assert(is_in_a_ticked_playlist(playlists, ticked, id));
            } else {
                assert(own[k - before.len()] == path);
                assert(own.contains(path));
                let i = choose|i: int|
                    0 <= i < p.track_ids.len() && f(#[trigger] p.track_ids[i]) == Some(path);
                let id = p.track_ids[i];
                assert(ticked.contains(playlists[playlists.len() - 1].playlist_id));
                assert(is_in_a_ticked_playlist(playlists, ticked, id));
            }
        }
        if exists|id: Seq<char>| #[trigger]
            is_in_a_ticked_playlist(playlists, ticked, id) && cleanup_path(
                id,
                tracks,
                chosen,
                files,
            ) == Some(path) {
            let id = choose|id: Seq<char>| #[trigger]
                is_in_a_ticked_playlist(playlists, ticked, id) && cleanup_path(
                    id,
                    tracks,
                    chosen,
                    files,
                ) == Some(path);
            let i = choose|i: int|
                0 <= i < playlists.len() && ticked.contains((#[trigger] playlists[i]).playlist_id)
                    && playlists[i].track_ids.contains(id);
            if i < front.len() {
                assert(ticked.contains(front[i].playlist_id));
                assert(is_in_a_ticked_playlist(front, ticked, id));
                let k = choose|k: int| 0 <= k < before.len() && before[k] == path;
                assert(all[k] == path);
            } else {
                let k = choose|k: int| 0 <= k < p.track_ids.len() && p.track_ids[k] == id;
                assert(f(p.track_ids[k]) == Some(path));
                let m = choose|m: int| 0 <= m < own.len() && own[m] == path;
                assert(all[before.len() + m] == path);
            }
        }
    }
}

/// A file is deleted only where it is listed as unused and the user wants such
/// files deleted, or where it is the first music file of the size of a known
/// track that is in a playlist ticked for cleaning up and in no chosen
/// playlist.
pub proof fn only_unwanted_files_are_deleted(
    lib: LibraryModel,
    settings: SettingsView,
    scan: ScanModel,
    path: Seq<char>,
)
    requires
        unwanted_paths(lib, settings, scan).contains(path),
    ensures
        (settings.delete_unused_songs && scan.unused.contains(path)) || exists|
            id: Seq<char>,
            j: int,
        |
            #![trigger lib.tracks.contains_key(id), scan.files[j]]
            is_in_a_ticked_playlist(lib.playlists, settings.cleanup_playlist_ids, id)
                && !is_in_a_chosen_playlist(lib.playlists, id) && lib.tracks.contains_key(id)
                && is_first_music_of(scan.files, j, lib.tracks[id].size) && scan.files[j].path
                == path,
{
    let unused = if settings.delete_unused_songs {
        scan.unused
    } else {
        Seq::empty()
    };
    let ticked = settings.cleanup_playlist_ids;
    let chosen = all_track_ids(checked_of(lib.playlists));
    let cleaned = cleanup_paths(lib.playlists, ticked, lib.tracks, chosen, scan.files);
    let all = unused + cleaned;
    let k = choose|k: int| 0 <= k < all.len() && all[k] == path;
    if k < unused.len() {
        assert(unused[k] == path);
    } else {
        assert(cleaned[k - unused.len()] == path);
        cleanup_members(lib.playlists, ticked, lib.tracks, chosen, scan.files, path);
        let id = choose|id: Seq<char>| #[trigger]
            is_in_a_ticked_playlist(lib.playlists, ticked, id) && cleanup_path(
                id,
                lib.tracks,
                chosen,
                scan.files,
            ) == Some(path);
        chosen_ids_are_those_of_chosen_playlists(lib.playlists, id);
        path_of_size_is_a_file(scan.files, lib.tracks[id].size);
        let j = choose|j: int| #[trigger]
            is_first_music_of(scan.files, j, lib.tracks[id].size) && scan.files[j].path == path;
        assert(lib.tracks.contains_key(id) && scan.files[j].path == path);
    }
}

/// The file of a track in a chosen playlist is not deleted, whatever other
/// playlists the track is in: not where no other track has the size of the
/// file, no other file its path, and it is not to be deleted as unused.
pub proof fn chosen_tracks_are_kept(
    lib: LibraryModel,
    settings: SettingsView,
    scan: ScanModel,
    id: Seq<char>,
    j: int,
)
    requires
        lib.tracks.contains_key(id),
        is_in_a_chosen_playlist(lib.playlists, id),
        0 <= j < scan.files.len(),
        scan.files[j].size == lib.tracks[id].size,
        forall|k: Seq<char>| #[trigger]
            lib.tracks.contains_key(k) && k != id ==> lib.tracks[k].size != lib.tracks[id].size,
        forall|i: int|
            0 <= i < scan.files.len() && i != j ==> (#[trigger] scan.files[i]).path
                != scan.files[j].path,
        !settings.delete_unused_songs || !scan.unused.contains(scan.files[j].path),
    ensures
        !unwanted_paths(lib, settings, scan).contains(scan.files[j].path),
{
    let path = scan.files[j].path;
    if unwanted_paths(lib, settings, scan).contains(path) {
        only_unwanted_files_are_deleted(lib, settings, scan, path);
        let (k, i) = choose|k: Seq<char>, i: int|
            #![trigger lib.tracks.contains_key(k), scan.files[i]]
            is_in_a_ticked_playlist(lib.playlists, settings.cleanup_playlist_ids, k)
                && !is_in_a_chosen_playlist(lib.playlists, k) && lib.tracks.contains_key(k)
                && is_first_music_of(scan.files, i, lib.tracks[k].size) && scan.files[i].path
                == path;
        assert(i == j);
        assert(k != id);
    }
}

/// What the user asked to have deleted is deleted: the files listed as unused,
/// where such files are to go, and for each known track of a ticked playlist
/// that is in no chosen playlist the first music file of its size.
pub proof fn unwanted_files_are_deleted(
    lib: LibraryModel,
    settings: SettingsView,
    scan: ScanModel,
    id: Seq<char>,
    i: int,
    path: Seq<char>,
)
    ensures
        settings.delete_unused_songs && scan.unused.contains(path) ==> unwanted_paths(
            lib,
            settings,
            scan,
        ).contains(path),
        is_in_a_ticked_playlist(lib.playlists, settings.cleanup_playlist_ids, id)
            && !is_in_a_chosen_playlist(lib.playlists, id) && lib.tracks.contains_key(id) && 0 <= i
            < scan.files.len() && is_music_of(scan.files[i], lib.tracks[id].size) && (forall|
            j: int,
        |
            0 <= j < i ==> !is_music_of(#[trigger] scan.files[j], lib.tracks[id].size))
            ==> unwanted_paths(lib, settings, scan).contains(scan.files[i].path),
{
    let unused = if settings.delete_unused_songs {
        scan.unused
    } else {
        Seq::empty()
    };
    let ticked = settings.cleanup_playlist_ids;
    let chosen = all_track_ids(checked_of(lib.playlists));
    let cleaned = cleanup_paths(lib.playlists, ticked, lib.tracks, chosen, scan.files);
    let all = unused + cleaned;
    if settings.delete_unused_songs && scan.unused.contains(path) {
        let k = choose|k: int| 0 <= k < unused.len() && unused[k] == path;
        assert(all[k] == path);
    }
    if is_in_a_ticked_playlist(lib.playlists, ticked, id) && !is_in_a_chosen_playlist(
        lib.playlists,
        id,
    ) && lib.tracks.contains_key(id) && 0 <= i < scan.files.len() && is_music_of(
        scan.files[i],
        lib.tracks[id].size,
    ) && (forall|j: int|
        0 <= j < i ==> !is_music_of(#[trigger] scan.files[j], lib.tracks[id].size)) {
        let p = scan.files[i].path;
        first_file_of_a_size(scan.files, lib.tracks[id].size, i);
        chosen_ids_are_those_of_chosen_playlists(lib.playlists, id);
        cleanup_members(lib.playlists, ticked, lib.tracks, chosen, scan.files, p);
        assert(cleaned.contains(p));
        let k = choose|k: int| 0 <= k < cleaned.len() && cleaned[k] == p;
        assert(all[unused.len() + k] == p);
    }
}

/// The playlist files to be deleted are those of the remembered playlists that
/// are marked for it, in order, and no others.
pub proof fn marked_playlists_are_deleted(settings: SettingsView, r: RememberedView)
    ensures
        (SettingsView {
            remembered_playlists: Seq::empty(),
            ..settings
        }).playlists_to_delete().len() == 0,
        (SettingsView {
            remembered_playlists: settings.remembered_playlists.push(r),
            ..settings
        }).playlists_to_delete() == (if r.action == PlaylistAction::Delete {
            settings.playlists_to_delete().push(r.name + ".m3u"@)
        } else {
            settings.playlists_to_delete()
        }),
{
    reveal(Seq::filter);
    let old = settings.remembered_playlists;
    let keep = |r: RememberedView| r.action == PlaylistAction::Delete;
    assert(old.push(r).drop_last() =~= old);
    assert((SettingsView {
        remembered_playlists: old.push(r),
        ..settings
    }).playlists_to_delete() =~= (if r.action == PlaylistAction::Delete {
        settings.playlists_to_delete().push(r.name + ".m3u"@)
    } else {
        settings.playlists_to_delete()
    }));
}

/// A file is no track's exactly where it is no playlist file and no track has
/// its size.
pub proof fn orphan_has_no_track(
    f: DeviceFileView,
    tracks: Map<Seq<char>, TrackView>,
    id: Seq<char>,
)
    ensures
        is_m3u(f.path) ==> !is_orphan(f, tracks),
        tracks.contains_key(id) && tracks[id].size == f.size ==> !is_orphan(f, tracks),
        !is_m3u(f.path) && (forall|k: Seq<char>| #[trigger]
            tracks.contains_key(k) ==> tracks[k].size != f.size) ==> is_orphan(f, tracks),
{
}

/// The list of what is deleted holds the unwanted paths, each once and in the
/// order of their characters.
pub proof fn deletions_are_listed_in_order(
    paths: Seq<Seq<char>>,
    lib: LibraryModel,
    settings: SettingsView,
    scan: ScanModel,
    i: int,
    j: int,
    x: Seq<char>,
)
    requires
        lists_unwanted(paths, lib, settings, scan),
    ensures
        paths.contains(x) <==> unwanted_paths(lib, settings, scan).contains(x),
        0 <= i < j < paths.len() ==> text_less(paths[i], paths[j]),
{
}

/// The list of unused files holds the paths of the music files whose size no
/// track has, each once and in the order of their characters.
pub proof fn unused_files_are_listed_in_order(
    paths: Seq<Seq<char>>,
    files: Seq<DeviceFileView>,
    tracks: Map<Seq<char>, TrackView>,
    i: int,
    j: int,
    x: Seq<char>,
)
    requires
        lists_orphans(paths, files, tracks),
    ensures
        paths.contains(x) <==> exists|k: int|
            0 <= k < files.len() && (#[trigger] files[k]).path == x && !is_m3u(x) && forall|
                id: Seq<char>,
            | #[trigger]
                tracks.contains_key(id) ==> tracks[id].size != files[k].size,
        0 <= i < j < paths.len() ==> text_less(paths[i], paths[j]),
{
    if paths.contains(x) {
        let k = choose|k: int|
            0 <= k < files.len() && (#[trigger] files[k]).path == x && is_orphan(files[k], tracks);
        assert(files[k].path == x);
    }
    if exists|k: int|
        0 <= k < files.len() && (#[trigger] files[k]).path == x && !is_m3u(x) && forall|
            id: Seq<char>,
        | #[trigger]
            tracks.contains_key(id) ==> tracks[id].size != files[k].size {
        let k = choose|k: int|
            0 <= k < files.len() && (#[trigger] files[k]).path == x && !is_m3u(x) && forall|
                id: Seq<char>,
            | #[trigger]
                tracks.contains_key(id) ==> tracks[id].size != files[k].size;
        assert(files[k].path == x && is_orphan(files[k], tracks));
    }
}

} // verus!
