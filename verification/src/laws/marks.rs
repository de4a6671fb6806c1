//! Laws on which tracks count as being on the device, and which are sent.
use vstd::prelude::*;

use crate::sync::checked_of;
use crate::matching::{
    all_track_ids, has_file_of_size, has_own_file, ids_of_size, missing_ids,
    remarked, stands_for, DeviceFileView,
};
use crate::playlist::PlaylistModel;
use crate::text::behind_last;
use crate::track::TrackView;
use crate::tracks::{index_of_key, map_of};

verus! {

/// The name of a file, without its directories.
pub open spec fn name_of(path: Seq<char>) -> Seq<char> {
    behind_last(path, '/')
}

/// A file that no track of its size is named like is every track's of that
/// size.
pub proof fn file_of_another_name_counts(
    tracks: Map<Seq<char>, TrackView>,
    id: Seq<char>,
    files: Seq<DeviceFileView>,
    i: int,
)
    requires
        tracks.contains_key(id),
        0 <= i < files.len(),
        files[i].size == tracks[id].size,
        forall|k: Seq<char>| #[trigger]
            tracks.contains_key(k) && tracks[k].size == files[i].size ==> name_of(
                tracks[k].device_path,
            ) != name_of(files[i].path),
    ensures
        has_own_file(tracks, tracks[id], files),
{
    assert(stands_for(tracks, tracks[id], files[i]));
}

/// A file of a track's size and name is the track's.
pub proof fn file_of_the_same_name_counts(
    tracks: Map<Seq<char>, TrackView>,
    id: Seq<char>,
    files: Seq<DeviceFileView>,
    i: int,
)
    requires
        tracks.contains_key(id),
        0 <= i < files.len(),
        files[i].size == tracks[id].size,
        name_of(files[i].path) == name_of(tracks[id].device_path),
    ensures
        has_own_file(tracks, tracks[id], files),
{
    assert(stands_for(tracks, tracks[id], files[i]));
}

/// A track is not on the device where each file of its size is named like
/// another track of that size and not like the track itself, and so where no
/// file has its size.
pub proof fn files_of_other_tracks_do_not_count(
    tracks: Map<Seq<char>, TrackView>,
    id: Seq<char>,
    files: Seq<DeviceFileView>,
)
    requires
        tracks.contains_key(id),
        forall|i: int|
            0 <= i < files.len() && (#[trigger] files[i]).size == tracks[id].size ==> name_of(
                files[i].path,
            ) != name_of(tracks[id].device_path) && exists|k: Seq<char>| #[trigger]
                tracks.contains_key(k) && tracks[k].size == files[i].size && name_of(
                    tracks[k].device_path,
                ) == name_of(files[i].path),
    ensures
        !has_own_file(tracks, tracks[id], files),
{
    assert forall|i: int| 0 <= i < files.len() implies !stands_for(
        tracks,
        tracks[id],
        #[trigger] files[i],
    ) by {
        if files[i].size == tracks[id].size {
            let k = choose|k: Seq<char>| #[trigger]
                tracks.contains_key(k) && tracks[k].size == files[i].size && name_of(
                    tracks[k].device_path,
                ) == name_of(files[i].path);
            assert(tracks.contains_key(k));
        }
    }
}

/// By size alone a track is on the device exactly where a file has its size,
/// whatever its name.
pub proof fn size_alone_counts(t: TrackView, files: Seq<DeviceFileView>, f: DeviceFileView)
    ensures
        !has_file_of_size(t, Seq::empty()),
        has_file_of_size(t, files.push(f)) == (has_file_of_size(t, files) || f.size == t.size),
{
    let all = files.push(f);
    if has_file_of_size(t, files) {
        let i = choose|i: int| 0 <= i < files.len() && (#[trigger] files[i]).size == t.size;
        assert(all[i].size == t.size);
    }
    if f.size == t.size {
        assert(all[files.len() as int].size == t.size);
    }
    if has_file_of_size(t, all) {
        let i = choose|i: int| 0 <= i < all.len() && (#[trigger] all[i]).size == t.size;
        if i < files.len() {
            assert(files[i].size == t.size);
        }
    }
}

/// Marking changes the marks and nothing else of the tracks.
pub proof fn marking_changes_marks_alone(
    tracks: Map<Seq<char>, TrackView>,
    mark: spec_fn(Seq<char>) -> bool,
    id: Seq<char>,
)
    ensures
        remarked(tracks, mark).contains_key(id) == tracks.contains_key(id),
        tracks.contains_key(id) ==> ({
            let t = remarked(tracks, mark)[id];
            &&& t.on_device == mark(id)
            &&& t.id == tracks[id].id
            &&& t.name == tracks[id].name
            &&& t.artist == tracks[id].artist
            &&& t.size == tracks[id].size
            &&& t.local_path == tracks[id].local_path
            &&& t.device_path == tracks[id].device_path
        }),
{
}

/// The tracks of playlists, one after the other, are those of each in turn.
pub proof fn track_ids_are_those_of_the_playlists(
    playlists: Seq<PlaylistModel>,
    p: PlaylistModel,
    id: Seq<char>,
)
    ensures
        all_track_ids(Seq::empty()).len() == 0,
        all_track_ids(playlists.push(p)) == all_track_ids(playlists) + p.track_ids,
        all_track_ids(playlists).contains(id) <==> exists|i: int|
            0 <= i < playlists.len() && (#[trigger] playlists[i]).track_ids.contains(id),
    decreases playlists.len(),
{
    assert(playlists.push(p).drop_last() =~= playlists);
    if playlists.len() > 0 {
        let front = playlists.drop_last();
        let last = playlists.last();
        track_ids_are_those_of_the_playlists(front, last, id);
        let a = all_track_ids(front);
        let b = last.track_ids;
        if all_track_ids(playlists).contains(id) {
            let k = choose|k: int| 0 <= k < (a + b).len() && (a + b)[k] == id;
            if k < a.len() {
                assert(a[k] == id);
                assert(a.contains(id));
                let i = choose|i: int|
                    0 <= i < front.len() && (#[trigger] front[i]).track_ids.contains(id);
                assert(playlists[i].track_ids.contains(id));
            } else {
                assert(b[k - a.len()] == id);
                assert(playlists[playlists.len() - 1].track_ids.contains(id));
            }
        }
        if exists|i: int|
            0 <= i < playlists.len() && (#[trigger] playlists[i]).track_ids.contains(id) {
            let i = choose|i: int|
                0 <= i < playlists.len() && (#[trigger] playlists[i]).track_ids.contains(id);
            if i < front.len() {
                assert(front[i].track_ids.contains(id));
                assert(a.contains(id));
                let k = choose|k: int| 0 <= k < a.len() && a[k] == id;
                assert((a + b)[k] == id);
            } else {
                let k = choose|k: int| 0 <= k < b.len() && b[k] == id;
                assert((a + b)[a.len() + k] == id);
            }
        }
    }
}

/// The chosen playlists are those with their mark set, in order.
pub proof fn chosen_playlists_are_the_marked_ones(playlists: Seq<PlaylistModel>, p: PlaylistModel)
    ensures
        checked_of(Seq::empty()).len() == 0,
        p.checked ==> checked_of(playlists.push(p)) == checked_of(playlists).push(p),
        !p.checked ==> checked_of(playlists.push(p)) == checked_of(playlists),
        checked_of(playlists).contains(p) <==> playlists.contains(p) && p.checked,
{
    reveal(Seq::filter);
    assert(playlists.push(p).drop_last() =~= playlists);
    let f = |q: PlaylistModel| q.checked;
    if playlists.contains(p) && p.checked {
        let i = choose|i: int| 0 <= i < playlists.len() && playlists[i] == p;
        playlists.lemma_filter_contains(f, i);
    }
    let c = checked_of(playlists);
    if c.contains(p) {
        let i = choose|i: int| 0 <= i < c.len() && c[i] == p;
        playlists.lemma_filter_pred(f, i);
        playlists.lemma_filter_contains_rev(f, p);
    }
}

/// The tracks to send are found in the order in which the playlists name them:
/// a further ID adds itself at the end, if its track is known, not on the
/// device and not named before, and otherwise nothing.
pub proof fn tracks_are_sent_in_order(
    ids: Seq<Seq<char>>,
    id: Seq<char>,
    tracks: Map<Seq<char>, TrackView>,
)
    ensures
        missing_ids(Seq::empty(), tracks).len() == 0,
        tracks.contains_key(id) && !tracks[id].on_device && !ids.contains(id) ==> missing_ids(
            ids.push(id),
            tracks,
        ) == missing_ids(ids, tracks).push(id),
        !tracks.contains_key(id) || tracks[id].on_device || ids.contains(id) ==> missing_ids(
            ids.push(id),
            tracks,
        ) == missing_ids(ids, tracks),
{
    assert(ids.push(id).drop_last() =~= ids);
}

/// The IDs of a size are those of the tracks of the size, in their order.
pub proof fn ids_of_a_size_keep_their_order(
    keys: Seq<Seq<char>>,
    tracks: Seq<TrackView>,
    id: Seq<char>,
    t: TrackView,
    size: u64,
)
    requires
        keys.len() == tracks.len(),
    ensures
        ids_of_size(Seq::empty(), Seq::empty(), size).len() == 0,
        ids_of_size(keys.push(id), tracks.push(t), size) == (if t.size == size {
            ids_of_size(keys, tracks, size).push(id)
        } else {
            ids_of_size(keys, tracks, size)
        }),
{
    assert(keys.push(id).drop_last() =~= keys);
    assert(tracks.push(t).drop_last() =~= tracks);
}

/// A map of tracks finds under each key the track at the key's place, and
/// nothing under any other key.
pub proof fn tracks_are_found_by_their_keys(
    keys: Seq<Seq<char>>,
    tracks: Seq<TrackView>,
    i: int,
    id: Seq<char>,
)
    requires
        keys.no_duplicates(),
        keys.len() == tracks.len(),
    ensures
        map_of(keys, tracks).contains_key(id) == keys.contains(id),
        0 <= i < keys.len() ==> map_of(keys, tracks)[keys[i]] == tracks[i],
{
    if 0 <= i < keys.len() {
        index_of_key(keys, i);
        assert(keys.contains(keys[i]));
    }
}

} // verus!
