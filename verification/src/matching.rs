//! Which tracks the device already has, found by file size and name, and
//! which have still to be sent.
use std::collections::HashMap;

use vstd::hash_set::StringHashSet;
use vstd::prelude::*;

use crate::playlist::{Playlist, PlaylistModel};
use crate::text::{behind_last, same_text, text_behind_last, texts};
use crate::track::{Track, TrackView};
use crate::tracks::{index_of_key, TrackMap};

verus! {

broadcast use vstd::std_specs::hash::group_hash_axioms;

/// A file that the device has.
#[derive(Debug, PartialEq, Eq)]
pub struct DeviceFile {
    /// The path on the device. Only its last component is compared.
    pub path: String,
    pub size: u64,
}

/// A file of the device, over characters.
#[verifier::ext_equal]
pub struct DeviceFileView {
    pub path: Seq<char>,
    pub size: u64,
}

impl View for DeviceFile {
    type V = DeviceFileView;

    open spec fn view(&self) -> DeviceFileView {
        DeviceFileView { path: self.path@, size: self.size }
    }
}

/// The files of a list, over characters.
pub open spec fn file_views(files: Seq<DeviceFile>) -> Seq<DeviceFileView> {
    files.map_values(|f: DeviceFile| f@)
}

impl DeviceFile {
    /// The last component of the path.
    pub fn basename(&self) -> (r: String)
        ensures
            r@ == behind_last(self@.path, '/'),
    {
        text_behind_last(self.path.as_str(), '/')
    }
}

impl Clone for DeviceFile {
    fn clone(&self) -> (r: Self)
        ensures
            r@ == self@,
    {
        DeviceFile { path: self.path.clone(), size: self.size }
    }
}

/// The last component of a path.
pub fn track_basename(p: &str) -> (r: String)
    ensures
        r@ == behind_last(p@, '/'),
{
    text_behind_last(p, '/')
}

/// The IDs, in order, of the tracks of one size.
pub open spec fn ids_of_size(
    keys: Seq<Seq<char>>,
    tracks: Seq<TrackView>,
    size: u64,
) -> Seq<Seq<char>>
    decreases keys.len(),
{
    if keys.len() == 0 {
        Seq::empty()
    } else {
        let before = ids_of_size(keys.drop_last(), tracks.drop_last(), size);
        if tracks.last().size == size {
            before.push(keys.last())
        } else {
            before
        }
    }
}

/// An ID is among those of a size just where its track has that size.
pub proof fn ids_of_size_members(
    keys: Seq<Seq<char>>,
    tracks: Seq<TrackView>,
    size: u64,
    id: Seq<char>,
)
    requires
        keys.len() == tracks.len(),
    ensures
        ids_of_size(keys, tracks, size).contains(id) <==> exists|i: int|
            0 <= i < keys.len() && keys[i] == id && (#[trigger] tracks[i]).size == size,
    decreases keys.len(),
{
    if keys.len() > 0 {
        let before = ids_of_size(keys.drop_last(), tracks.drop_last(), size);
        ids_of_size_members(keys.drop_last(), tracks.drop_last(), size, id);
        let all = ids_of_size(keys, tracks, size);
        if before.contains(id) {
            let j = choose|j: int| 0 <= j < before.len() && before[j] == id;
            assert(all[j] == id);
            let i = choose|i: int|
                0 <= i < keys.drop_last().len() && keys.drop_last()[i] == id && (
                #[trigger] tracks.drop_last()[i]).size == size;
            assert(keys[i] == id && tracks[i].size == size);
        }
        if tracks.last().size == size && keys.last() == id {
            assert(all[all.len() - 1] == id);
            assert(tracks[keys.len() - 1].size == size);
        }
        if all.contains(id) && !before.contains(id) {
            let j = choose|j: int| 0 <= j < all.len() && all[j] == id;
            if j < before.len() {
                assert(before[j] == id);
            }
            assert(tracks[keys.len() - 1].size == size && keys[keys.len() - 1] == id);
        }
        if exists|i: int|
            0 <= i < keys.len() && keys[i] == id && (#[trigger] tracks[i]).size == size {
            let i = choose|i: int|
                0 <= i < keys.len() && keys[i] == id && (#[trigger] tracks[i]).size == size;
            if i < keys.len() - 1 {
                assert(keys.drop_last()[i] == id && tracks.drop_last()[i].size == size);
            }
        }
    }
}

/// The IDs of the tracks of each size, in order.
pub fn tracks_by_size(tracks: &TrackMap) -> (r: HashMap<u64, Vec<String>>)
    ensures
        forall|size: u64| #[trigger]
            r@.contains_key(size) <==> ids_of_size(tracks.keys(), tracks.tracks(), size).len() > 0,
        forall|size: u64| #[trigger]
            r@.contains_key(size) ==> texts(r@[size]@) == ids_of_size(
                tracks.keys(),
                tracks.tracks(),
                size,
            ),
{
    let mut r: HashMap<u64, Vec<String>> = HashMap::new();
    let n: usize = tracks.len();
    let mut i: usize = 0;
    let ghost keys = tracks.keys();
    let ghost ts = tracks.tracks();
    while i < n
        invariant
            n == keys.len(),
            n == ts.len(),
            keys == tracks.keys(),
            ts == tracks.tracks(),
            i <= n,
            forall|size: u64| #[trigger]
                r@.contains_key(size) <==> ids_of_size(
                    keys.take(i as int),
                    ts.take(i as int),
                    size,
                ).len() > 0,
            forall|size: u64| #[trigger]
                r@.contains_key(size) ==> texts(r@[size]@) == ids_of_size(
                    keys.take(i as int),
                    ts.take(i as int),
                    size,
                ),
        decreases n - i,
    {
        let size: u64 = tracks.track_at(i).size;
        let id: String = tracks.key_at(i).clone();
        let ghost before = r@;
        let ghost idv = id@;
        let mut ids: Vec<String> = match r.remove(&size) {
            Some(v) => v,
            None => Vec::new(),
        };
        let ghost had = texts(ids@);
        ids.push(id);
        let ghost now = ids@;
        r.insert(size, ids);
        proof {
            assert(keys.take(i + 1).drop_last() =~= keys.take(i as int));
            assert(ts.take(i + 1).drop_last() =~= ts.take(i as int));
            assert(texts(now) =~= had.push(idv));
            let old_ids = ids_of_size(keys.take(i as int), ts.take(i as int), size);
            if !before.contains_key(size) {
                assert(had =~= old_ids);
            }
            assert forall|s: u64| #[trigger] r@.contains_key(s) <==> ids_of_size(
                keys.take(i + 1),
                ts.take(i + 1),
                s,
            ).len() > 0 by {
                assert(before.contains_key(s) <==> ids_of_size(
                    keys.take(i as int),
                    ts.take(i as int),
                    s,
                ).len() > 0);
            }
            assert forall|s: u64| #[trigger] r@.contains_key(s) implies texts(r@[s]@)
                == ids_of_size(keys.take(i + 1), ts.take(i + 1), s) by {
                if s != size {
                    assert(before.contains_key(s));
                }
            }
        }
        i = i + 1;
    }
    proof {
        assert(keys.take(n as int) =~= keys);
        assert(ts.take(n as int) =~= ts);
    }
    r
}

/// The tracks with each marked as `mark` says of its ID.
pub open spec fn remarked(
    tracks: Map<Seq<char>, TrackView>,
    mark: spec_fn(Seq<char>) -> bool,
) -> Map<Seq<char>, TrackView> {
    Map::new(|k: Seq<char>| tracks.contains_key(k), |k: Seq<char>| tracks[k].marked(mark(k)))
}

/// Takes the mark from every track.
pub fn clear_marks(tracks: &mut TrackMap)
    ensures
        final(tracks).keys() == old(tracks).keys(),
        final(tracks)@ == remarked(old(tracks)@, |k: Seq<char>| false),
{
    let n: usize = tracks.len();
    let mut i: usize = 0;
    let ghost before = tracks@;
    let ghost keys = tracks.keys();
    while i < n
        invariant
            n == keys.len(),
            keys == tracks.keys(),
            keys.no_duplicates(),
            i <= n,
            forall|k: Seq<char>| #[trigger] before.contains_key(k) <==> keys.contains(k),
            forall|k: Seq<char>| #[trigger]
                before.contains_key(k) ==> tracks@[k] == (if keys.index_of(k) < i {
                    before[k].marked(false)
                } else {
                    before[k]
                }),
        decreases n - i,
    {
        let mut t: Track = tracks.track_at(i).clone();
        t.on_device = false;
        let ghost tv = t@;
        let ghost mid = tracks@;
        tracks.replace_at(i, t);
        proof {
            index_of_key(keys, i as int);
            let ki = keys[i as int];
            assert(before.contains_key(ki));
            assert forall|k: Seq<char>| #[trigger] before.contains_key(k) implies tracks@[k] == (
            if keys.index_of(k) < i + 1 {
                before[k].marked(false)
            } else {
                before[k]
            }) by {
                if k != ki {
                    assert(keys[keys.index_of(k)] == k);
                    assert(mid[k] == tracks@[k]);
                }
            }
        }
        i = i + 1;
    }
    proof {
        assert forall|k: Seq<char>| #[trigger] before.contains_key(k) implies tracks@[k]
            == before[k].marked(false) by {
            assert(keys[keys.index_of(k)] == k);
        }
        assert(tracks@ =~= remarked(before, |k: Seq<char>| false));
    }
}

/// Marks the tracks with the given IDs.
fn mark_ids(tracks: &mut TrackMap, ids: &Vec<String>)
    ensures
        final(tracks).keys() == old(tracks).keys(),
        final(tracks)@ == remarked(
            old(tracks)@,
            |k: Seq<char>| texts(ids@).contains(k) || old(tracks)@[k].on_device,
        ),
{
    let n: usize = ids.len();
    let mut i: usize = 0;
    let ghost before = tracks@;
    let ghost all = texts(ids@);
    while i < n
        invariant
            n == ids@.len(),
            all == texts(ids@),
            i <= n,
            tracks.keys() == old(tracks).keys(),
            forall|k: Seq<char>| tracks@.contains_key(k) <==> #[trigger] before.contains_key(k),
            forall|k: Seq<char>| #[trigger]
                before.contains_key(k) ==> tracks@[k] == before[k].marked(
                    all.take(i as int).contains(k) || before[k].on_device,
                ),
        decreases n - i,
    {
        let ghost mid = tracks@;
        let ghost id = ids@[i as int]@;
        tracks.set_on_device(ids[i].as_str(), true);
        proof {
            assert(all.take(i + 1) =~= all.take(i as int).push(id));
            assert forall|k: Seq<char>| #[trigger] before.contains_key(k) implies tracks@[k]
                == before[k].marked(all.take(i + 1).contains(k) || before[k].on_device) by {
                if k == id {
                    assert(all.take(i + 1)[i as int] == k);
                } else {
                    push_keeps_others(all.take(i as int), id, k);
                    assert(mid[k] == tracks@[k]);
                }
            }
        }
        i = i + 1;
    }
    proof {
        assert(all.take(n as int) =~= all);
        assert(tracks@ =~= remarked(
            before,
            |k: Seq<char>| texts(ids@).contains(k) || before[k].on_device,
        ));
    }
}

/// What a push does not add is there afterwards just where it was before.
pub(crate) proof fn push_keeps_others(s: Seq<Seq<char>>, x: Seq<char>, k: Seq<char>)
    requires
        k != x,
    ensures
        s.push(x).contains(k) == s.contains(k),
{
    if s.contains(k) {
        let j = choose|j: int| 0 <= j < s.len() && s[j] == k;
        assert(s.push(x)[j] == k);
    }
    if s.push(x).contains(k) {
        let j = choose|j: int| 0 <= j < s.push(x).len() && s.push(x)[j] == k;
        assert(s[j] == k);
    }
}

/// Whether some file has the size of a track.
pub open spec fn has_file_of_size(t: TrackView, files: Seq<DeviceFileView>) -> bool {
    exists|i: int| 0 <= i < files.len() && (#[trigger] files[i]).size == t.size
}

/// The IDs of a size, in terms of the map.
proof fn ids_of_size_in_map(tracks: &TrackMap, size: u64)
    requires
        tracks.keys().no_duplicates(),
        tracks.keys().len() == tracks.tracks().len(),
    ensures
        forall|k: Seq<char>| #[trigger]
            ids_of_size(tracks.keys(), tracks.tracks(), size).contains(k) <==> tracks@.contains_key(
                k,
            ) && tracks@[k].size == size,
{
    let keys = tracks.keys();
    let ts = tracks.tracks();
    assert forall|k: Seq<char>| #[trigger]
        ids_of_size(keys, ts, size).contains(k) <==> tracks@.contains_key(k) && tracks@[k].size
            == size by {
        ids_of_size_members(keys, ts, size, k);
        if ids_of_size(keys, ts, size).contains(k) {
            let i = choose|i: int|
                0 <= i < keys.len() && keys[i] == k && (#[trigger] ts[i]).size == size;
            index_of_key(keys, i);
        }
        if tracks@.contains_key(k) && tracks@[k].size == size {
            let i = keys.index_of(k);
            assert(keys[i] == k && ts[i].size == size);
        }
    }
}

/// Marks each track just where the device has a file of its size. Tracks of
/// one size are marked together.
pub fn mark_on_device_loose(tracks: &mut TrackMap, device_files: &[DeviceFile])
    ensures
        final(tracks).keys() == old(tracks).keys(),
        final(tracks)@ == remarked(
            old(tracks)@,
            |k: Seq<char>| has_file_of_size(old(tracks)@[k], file_views(device_files@)),
        ),
{
    let ghost before = tracks@;
    clear_marks(tracks);
    let by_size: HashMap<u64, Vec<String>> = tracks_by_size(tracks);
    let count: usize = tracks.len();
    let ghost cleared = *tracks;
    let ghost files = file_views(device_files@);
    let n: usize = device_files.len();
    let mut i: usize = 0;
    while i < n
        invariant
            n == device_files@.len(),
            files == file_views(device_files@),
            i <= n,
            cleared@ == remarked(before, |k: Seq<char>| false),
            cleared.keys().no_duplicates(),
            cleared.keys().len() == cleared.tracks().len(),
            tracks.keys() == old(tracks).keys(),
            forall|size: u64| #[trigger]
                by_size@.contains_key(size) <==> ids_of_size(
                    cleared.keys(),
                    cleared.tracks(),
                    size,
                ).len() > 0,
            forall|size: u64| #[trigger]
                by_size@.contains_key(size) ==> texts(by_size@[size]@) == ids_of_size(
                    cleared.keys(),
                    cleared.tracks(),
                    size,
                ),
            forall|k: Seq<char>| tracks@.contains_key(k) <==> #[trigger] before.contains_key(k),
            forall|k: Seq<char>| #[trigger]
                before.contains_key(k) ==> tracks@[k] == before[k].marked(
                    has_file_of_size(before[k], files.take(i as int)),
                ),
        decreases n - i,
    {
        let size: u64 = device_files[i].size;
        let ghost mid = tracks@;
        proof {
            ids_of_size_in_map(&cleared, size);
            assert(files[i as int].size == size);
            assert(files.take(i + 1)[i as int].size == size);
        }
        if let Some(ids) = by_size.get(&size) {
            mark_ids(tracks, ids);
        }
        proof {
            assert forall|k: Seq<char>| #[trigger] before.contains_key(k) implies tracks@[k]
                == before[k].marked(has_file_of_size(before[k], files.take(i + 1))) by {
                taking_one_more_file(before[k], files, i as int);
                let ids = ids_of_size(cleared.keys(), cleared.tracks(), size);
                assert(cleared@.contains_key(k) && cleared@[k].size == before[k].size);
                if before[k].size == size {
                    assert(ids.contains(k));
                    assert(ids.len() > 0);
                    assert(by_size@.contains_key(size));
                } else {
                    assert(!ids.contains(k));
                }
                assert(mid.contains_key(k));
            }
        }
        i = i + 1;
    }
    proof {
        assert(files.take(n as int) =~= files);
        assert(tracks@ =~= remarked(
            before,
            |k: Seq<char>| has_file_of_size(before[k], files),
        ));
    }
}

/// One more file makes a match of its size.
proof fn taking_one_more_file(t: TrackView, files: Seq<DeviceFileView>, i: int)
    requires
        0 <= i < files.len(),
    ensures
        has_file_of_size(t, files.take(i + 1)) == (has_file_of_size(t, files.take(i))
            || files[i].size == t.size),
{
    if has_file_of_size(t, files.take(i)) {
        let j = choose|j: int| 0 <= j < i && (#[trigger] files.take(i)[j]).size == t.size;
        assert(files.take(i + 1)[j].size == t.size);
    }
    if files[i].size == t.size {
        assert(files.take(i + 1)[i].size == t.size);
    }
    if has_file_of_size(t, files.take(i + 1)) {
        let j = choose|j: int|
            0 <= j < i + 1 && (#[trigger] files.take(i + 1)[j]).size == t.size;
        if j < i {
            assert(files.take(i)[j].size == t.size);
        }
    }
}

/// Whether a track has a file's size and, as last component of its path, the
/// file's name.
pub open spec fn has_size_and_name(t: TrackView, f: DeviceFileView) -> bool {
    &&& t.size == f.size
    &&& behind_last(t.device_path, '/') == behind_last(f.path, '/')
}

/// Whether a file is the size and the name of some track.
pub open spec fn is_named(tracks: Map<Seq<char>, TrackView>, f: DeviceFileView) -> bool {
    exists|k: Seq<char>| #[trigger] tracks.contains_key(k) && has_size_and_name(tracks[k], f)
}

/// Whether a file stands for a track: it has the track's size, and also its
/// name, unless no track of that size has the file's name.
pub open spec fn stands_for(
    tracks: Map<Seq<char>, TrackView>,
    t: TrackView,
    f: DeviceFileView,
) -> bool {
    t.size == f.size && (has_size_and_name(t, f) || !is_named(tracks, f))
}

/// Whether some file stands for a track.
pub open spec fn has_own_file(
    tracks: Map<Seq<char>, TrackView>,
    t: TrackView,
    files: Seq<DeviceFileView>,
) -> bool {
    exists|i: int| 0 <= i < files.len() && stands_for(tracks, t, #[trigger] files[i])
}

/// Marks those of the tracks with the given IDs whose path ends in `name`, and
/// tells whether there is one.
fn mark_named(tracks: &mut TrackMap, ids: &Vec<String>, name: &str) -> (r: bool)
    ensures
        final(tracks).keys() == old(tracks).keys(),
        final(tracks)@ == remarked(
            old(tracks)@,
            |k: Seq<char>|
                (texts(ids@).contains(k) && behind_last(old(tracks)@[k].device_path, '/')
                    == name@) || old(tracks)@[k].on_device,
        ),
        r == exists|j: int|
            0 <= j < ids@.len() && old(tracks)@.contains_key((#[trigger] ids@[j])@) && behind_last(
                old(tracks)@[ids@[j]@].device_path,
                '/',
            ) == name@,
{
    let n: usize = ids.len();
    let mut i: usize = 0;
    let mut matched = false;
    let ghost before = tracks@;
    let ghost all = texts(ids@);
    while i < n
        invariant
            n == ids@.len(),
            all == texts(ids@),
            before == old(tracks)@,
            i <= n,
            tracks.keys() == old(tracks).keys(),
            forall|k: Seq<char>| tracks@.contains_key(k) <==> #[trigger] before.contains_key(k),
            forall|k: Seq<char>| #[trigger]
                before.contains_key(k) ==> tracks@[k] == before[k].marked(
                    (all.take(i as int).contains(k) && behind_last(before[k].device_path, '/')
                        == name@) || before[k].on_device,
                ),
            matched == exists|j: int|
                0 <= j < i && before.contains_key((#[trigger] ids@[j])@) && behind_last(
                    before[ids@[j]@].device_path,
                    '/',
                ) == name@,
        decreases n - i,
    {
        let ghost mid = tracks@;
        let ghost was = matched;
        let ghost id = ids@[i as int]@;
        let named: bool = match tracks.get(ids[i].as_str()) {
            Some(t) => {
                let b: String = track_basename(t.device_path.as_str());
                same_text(b.as_str(), name)
            },
            None => false,
        };
        if named {
            tracks.set_on_device(ids[i].as_str(), true);
            matched = true;
        }
        proof {
            assert(all.take(i + 1) =~= all.take(i as int).push(id));
            assert(before.contains_key(id) ==> mid[id].device_path == before[id].device_path);
            assert forall|k: Seq<char>| #[trigger] before.contains_key(k) implies tracks@[k]
                == before[k].marked(
                (all.take(i + 1).contains(k) && behind_last(before[k].device_path, '/') == name@)
                    || before[k].on_device,
            ) by {
                if k == id {
                    assert(all.take(i + 1)[i as int] == k);
                } else {
                    push_keeps_others(all.take(i as int), id, k);
                    assert(mid[k] == tracks@[k]);
                }
            }
            if was {
                let j = choose|j: int|
                    0 <= j < i && before.contains_key((#[trigger] ids@[j])@) && behind_last(
                        before[ids@[j]@].device_path,
                        '/',
                    ) == name@;
                assert(0 <= j < i + 1 && before.contains_key(ids@[j]@));
            }
            if named {
                assert(before.contains_key(ids@[i as int]@));
            }
        }
        i = i + 1;
    }
    proof {
        assert(all.take(n as int) =~= all);
        assert(tracks@ =~= remarked(
            before,
            |k: Seq<char>|
                (texts(ids@).contains(k) && behind_last(before[k].device_path, '/') == name@)
                    || before[k].on_device,
        ));
    }
    matched
}

/// One more file, and the tracks that it stands for.
proof fn taking_one_more_own_file(
    tracks: Map<Seq<char>, TrackView>,
    t: TrackView,
    files: Seq<DeviceFileView>,
    i: int,
)
    requires
        0 <= i < files.len(),
    ensures
        has_own_file(tracks, t, files.take(i + 1)) == (has_own_file(tracks, t, files.take(i))
            || stands_for(tracks, t, files[i])),
{
    if has_own_file(tracks, t, files.take(i)) {
        let j = choose|j: int| 0 <= j < i && stands_for(tracks, t, #[trigger] files.take(i)[j]);
        assert(stands_for(tracks, t, files.take(i + 1)[j]));
    }
    if stands_for(tracks, t, files[i]) {
        assert(stands_for(tracks, t, files.take(i + 1)[i]));
    }
    if has_own_file(tracks, t, files.take(i + 1)) {
        let j = choose|j: int|
            0 <= j < i + 1 && stands_for(tracks, t, #[trigger] files.take(i + 1)[j]);
        if j < i {
            assert(stands_for(tracks, t, files.take(i)[j]));
        }
    }
}

/// Marks each track just where a file of the device stands for it. Among
/// tracks of one size the name decides; a file with a name of its own stands
/// for all tracks of its size.
pub fn mark_on_device_strict(tracks: &mut TrackMap, device_files: &[DeviceFile])
    ensures
        final(tracks).keys() == old(tracks).keys(),
        final(tracks)@ == remarked(
            old(tracks)@,
            |k: Seq<char>| has_own_file(old(tracks)@, old(tracks)@[k], file_views(device_files@)),
        ),
{
    let ghost before = tracks@;
    clear_marks(tracks);
    let by_size: HashMap<u64, Vec<String>> = tracks_by_size(tracks);
    let count: usize = tracks.len();
    let ghost cleared = *tracks;
    let ghost files = file_views(device_files@);
    let n: usize = device_files.len();
    let mut i: usize = 0;
    while i < n
        invariant
            n == device_files@.len(),
            files == file_views(device_files@),
            i <= n,
            cleared@ == remarked(before, |k: Seq<char>| false),
            cleared.keys().no_duplicates(),
            cleared.keys().len() == cleared.tracks().len(),
            tracks.keys() == old(tracks).keys(),
            forall|size: u64| #[trigger]
                by_size@.contains_key(size) <==> ids_of_size(
                    cleared.keys(),
                    cleared.tracks(),
                    size,
                ).len() > 0,
            forall|size: u64| #[trigger]
                by_size@.contains_key(size) ==> texts(by_size@[size]@) == ids_of_size(
                    cleared.keys(),
                    cleared.tracks(),
                    size,
                ),
            forall|k: Seq<char>| tracks@.contains_key(k) <==> #[trigger] before.contains_key(k),
            forall|k: Seq<char>| #[trigger]
                before.contains_key(k) ==> tracks@[k] == before[k].marked(
                    has_own_file(before, before[k], files.take(i as int)),
                ),
        decreases n - i,
    {
        let size: u64 = device_files[i].size;
        let ghost mid = tracks@;
        let ghost ids_s = ids_of_size(cleared.keys(), cleared.tracks(), size);
        let ghost f = files[i as int];
        proof {
            ids_of_size_in_map(&cleared, size);
            assert(f == device_files@[i as int]@);
            assert forall|k: Seq<char>| ids_s.contains(k) <==> #[trigger] before.contains_key(k)
                && before[k].size == size by {
                assert(cleared@.contains_key(k) == before.contains_key(k));
            }
        }
        if let Some(ids) = by_size.get(&size) {
            let name: String = device_files[i].basename();
            let name_matched: bool = mark_named(tracks, ids, name.as_str());
            let ghost then_marked = tracks@;
            proof {
                assert(texts(ids@) == ids_s);
                if name_matched {
                    let j = choose|j: int|
                        0 <= j < ids@.len() && mid.contains_key((#[trigger] ids@[j])@)
                            && behind_last(mid[ids@[j]@].device_path, '/') == name@;
                    assert(ids_s[j] == ids@[j]@);
                    assert(ids_s.contains(ids@[j]@));
                    assert(before.contains_key(ids@[j]@));
                    assert(has_size_and_name(before[ids@[j]@], f));
                    assert(is_named(before, f));
                }
                if is_named(before, f) {
                    let k = choose|k: Seq<char>| #[trigger]
                        before.contains_key(k) && has_size_and_name(before[k], f);
                    assert(ids_s.contains(k));
                    let j = choose|j: int| 0 <= j < ids_s.len() && ids_s[j] == k;
                    assert(ids@[j]@ == k);
                    assert(mid.contains_key(ids@[j]@));
                    assert(name_matched);
                }
            }
            if !name_matched {
                mark_ids(tracks, ids);
            }
            proof {
                assert forall|k: Seq<char>| #[trigger] before.contains_key(k) implies tracks@[k]
                    == before[k].marked(has_own_file(before, before[k], files.take(i + 1))) by {
                    taking_one_more_own_file(before, before[k], files, i as int);
                    assert(mid.contains_key(k));
                    assert(then_marked.contains_key(k));
                    assert(mid[k].device_path == before[k].device_path);
                }
            }
        } else {
            proof {
                assert(ids_s.len() == 0);
                assert forall|k: Seq<char>| #[trigger] before.contains_key(k) implies tracks@[k]
                    == before[k].marked(has_own_file(before, before[k], files.take(i + 1))) by {
                    taking_one_more_own_file(before, before[k], files, i as int);
                    assert(!ids_s.contains(k));
                }
            }
        }
        i = i + 1;
    }
    proof {
        assert(files.take(n as int) =~= files);
        assert(tracks@ =~= remarked(
            before,
            |k: Seq<char>| has_own_file(before, before[k], files),
        ));
    }
}

/// A track that is marked by size and name is also marked by size alone.
pub proof fn strict_marks_are_loose_marks(
    tracks: Map<Seq<char>, TrackView>,
    t: TrackView,
    files: Seq<DeviceFileView>,
)
    ensures
        has_own_file(tracks, t, files) ==> has_file_of_size(t, files),
{
    if has_own_file(tracks, t, files) {
        let i = choose|i: int| 0 <= i < files.len() && stands_for(tracks, t, #[trigger] files[i]);
        assert(files[i].size == t.size);
    }
}

/// A file with the size and the name of one track does not stand for a track of
/// another name.
pub proof fn name_tells_tracks_apart(
    tracks: Map<Seq<char>, TrackView>,
    k: Seq<char>,
    other: TrackView,
    f: DeviceFileView,
)
    requires
        tracks.contains_key(k),
        has_size_and_name(tracks[k], f),
        behind_last(other.device_path, '/') != behind_last(f.path, '/'),
    ensures
        stands_for(tracks, tracks[k], f),
        !stands_for(tracks, other, f),
{
    assert(is_named(tracks, f));
}

/// Marking does not depend on the marks before: what it finds for tracks that
/// were marked in any way is what it finds for the same tracks.
pub proof fn marks_before_do_not_count(
    tracks: Map<Seq<char>, TrackView>,
    mark: spec_fn(Seq<char>) -> bool,
    k: Seq<char>,
    files: Seq<DeviceFileView>,
)
    requires
        tracks.contains_key(k),
    ensures
        has_file_of_size(remarked(tracks, mark)[k], files) == has_file_of_size(tracks[k], files),
        has_own_file(remarked(tracks, mark), remarked(tracks, mark)[k], files) == has_own_file(
            tracks,
            tracks[k],
            files,
        ),
{
    let m = remarked(tracks, mark);
    assert forall|f: DeviceFileView| #[trigger] is_named(m, f) == is_named(tracks, f) by {
        if is_named(m, f) {
            let j = choose|j: Seq<char>| #[trigger] m.contains_key(j) && has_size_and_name(m[j], f);
            assert(tracks.contains_key(j) && has_size_and_name(tracks[j], f));
        }
        if is_named(tracks, f) {
            let j = choose|j: Seq<char>| #[trigger]
                tracks.contains_key(j) && has_size_and_name(tracks[j], f);
            assert(m.contains_key(j) && has_size_and_name(m[j], f));
        }
    }
    let t = tracks[k];
    let u = m[k];
    assert forall|i: int| 0 <= i < files.len() implies stands_for(m, u, #[trigger] files[i])
        == stands_for(tracks, t, files[i]) by {
        assert(is_named(m, files[i]) == is_named(tracks, files[i]));
    }
    if has_own_file(m, u, files) {
        let i = choose|i: int| 0 <= i < files.len() && stands_for(m, u, #[trigger] files[i]);
        assert(stands_for(tracks, t, files[i]));
    }
    if has_own_file(tracks, t, files) {
        let i = choose|i: int| 0 <= i < files.len() && stands_for(tracks, t, #[trigger] files[i]);
        assert(stands_for(m, u, files[i]));
    }
}

/// A device without files takes every mark away.
pub proof fn empty_device_marks_nothing(tracks: Map<Seq<char>, TrackView>, t: TrackView)
    ensures
        !has_file_of_size(t, Seq::empty()),
        !has_own_file(tracks, t, Seq::empty()),
{
}

// ---------------------------------------------------------------------------
// What is left to send
// ---------------------------------------------------------------------------

/// The track IDs of playlists, one playlist after the other.
pub open spec fn all_track_ids(playlists: Seq<PlaylistModel>) -> Seq<Seq<char>>
    decreases playlists.len(),
{
    if playlists.len() == 0 {
        Seq::empty()
    } else {
        all_track_ids(playlists.drop_last()) + playlists.last().track_ids
    }
}

/// Whether a track is known and was not found on the device.
pub open spec fn is_missing(tracks: Map<Seq<char>, TrackView>, id: Seq<char>) -> bool {
    tracks.contains_key(id) && !tracks[id].on_device
}

/// The IDs of missing tracks among `ids`, each once, in the order of their
/// first appearance.
pub open spec fn missing_ids(
    ids: Seq<Seq<char>>,
    tracks: Map<Seq<char>, TrackView>,
) -> Seq<Seq<char>>
    decreases ids.len(),
{
    if ids.len() == 0 {
        Seq::empty()
    } else {
        let before = missing_ids(ids.drop_last(), tracks);
        let id = ids.last();
        if is_missing(tracks, id) && !ids.drop_last().contains(id) {
            before.push(id)
        } else {
            before
        }
    }
}

/// What has to be sent holds each ID once, and just the missing tracks of the
/// playlists.
pub proof fn missing_ids_are_exact(ids: Seq<Seq<char>>, tracks: Map<Seq<char>, TrackView>)
    ensures
        missing_ids(ids, tracks).no_duplicates(),
        forall|id: Seq<char>| #[trigger]
            missing_ids(ids, tracks).contains(id) <==> ids.contains(id) && is_missing(tracks, id),
    decreases ids.len(),
{
    if ids.len() > 0 {
        let rest = ids.drop_last();
        let last = ids.last();
        missing_ids_are_exact(rest, tracks);
        let before = missing_ids(rest, tracks);
        let all = missing_ids(ids, tracks);
        assert(ids =~= rest.push(last));
        assert forall|id: Seq<char>| #[trigger] all.contains(id) <==> ids.contains(id)
            && is_missing(tracks, id) by {
            if id != last {
                push_keeps_others(rest, last, id);
                push_keeps_others(before, last, id);
            } else {
                assert(ids[ids.len() - 1] == id);
                if is_missing(tracks, id) && !rest.contains(id) {
                    assert(all[all.len() - 1] == id);
                }
            }
            assert(before.contains(id) <==> rest.contains(id) && is_missing(tracks, id));
        }
        assert(!rest.contains(last) ==> !before.contains(last));
    }
}

/// Adds the IDs of one playlist to what has to be sent.
fn add_missing(
    ids: &Vec<String>,
    tracks: &TrackMap,
    seen: &mut StringHashSet,
    out: &mut Vec<String>,
    Ghost(before): Ghost<Seq<Seq<char>>>,
)
    requires
        forall|k: Seq<char>| #[trigger] old(seen)@.contains(k) <==> before.contains(k),
        texts(old(out)@) == missing_ids(before, tracks@),
    ensures
        forall|k: Seq<char>| #[trigger]
            final(seen)@.contains(k) <==> (before + texts(ids@)).contains(k),
        texts(final(out)@) == missing_ids(before + texts(ids@), tracks@),
{
    let n: usize = ids.len();
    let mut i: usize = 0;
    let ghost all = texts(ids@);
    assert(before + all.take(0) =~= before);
    while i < n
        invariant
            n == ids@.len(),
            all == texts(ids@),
            i <= n,
            forall|k: Seq<char>| #[trigger]
                seen@.contains(k) <==> (before + all.take(i as int)).contains(k),
            texts(out@) == missing_ids(before + all.take(i as int), tracks@),
        decreases n - i,
    {
        let ghost so_far = before + all.take(i as int);
        let ghost id = ids@[i as int]@;
        let ghost had = texts(out@);
        let ghost seen_before = seen@;
        let fresh: bool = seen.insert(ids[i].clone());
        if fresh {
            if let Some(t) = tracks.get(ids[i].as_str()) {
                if !t.on_device {
                    out.push(ids[i].clone());
                    assert(texts(out@) =~= had.push(id));
                }
            }
        }
        proof {
            let next = before + all.take(i + 1);
            assert(next =~= so_far.push(id));
            assert(next.drop_last() =~= so_far);
            assert(fresh == !so_far.contains(id));
            assert forall|k: Seq<char>| #[trigger] seen@.contains(k) <==> next.contains(k) by {
                assert(seen_before.contains(k) <==> so_far.contains(k));
                if k == id {
                    assert(so_far.push(id)[so_far.len() as int] == k);
                } else {
                    push_keeps_others(so_far, id, k);
                }
            }
        }
        i = i + 1;
    }
    assert(all.take(n as int) =~= all);
}

/// The playlists behind a list of references, over characters.
pub open spec fn referenced_playlists(playlists: Seq<&Playlist>) -> Seq<PlaylistModel> {
    playlists.map_values(|p: &Playlist| p@)
}

/// The IDs of the tracks to send: those of the playlists that are known and
/// not on the device, each once, in the order of their first appearance.
pub fn tracks_to_upload(checked_playlists: &[&Playlist], tracks: &TrackMap) -> (r: Vec<String>)
    ensures
        texts(r@) == missing_ids(
            all_track_ids(referenced_playlists(checked_playlists@)),
            tracks@,
        ),
{
    let mut seen = StringHashSet::new();
    let mut out: Vec<String> = Vec::new();
    let n: usize = checked_playlists.len();
    let mut i: usize = 0;
    let ghost pls = referenced_playlists(checked_playlists@);
    proof {
        assert(pls.take(0) =~= Seq::empty());
        assert(texts(out@) =~= Seq::empty());
    }
    while i < n
        invariant
            n == checked_playlists@.len(),
            pls == referenced_playlists(checked_playlists@),
            i <= n,
            forall|k: Seq<char>| #[trigger]
                seen@.contains(k) <==> all_track_ids(pls.take(i as int)).contains(k),
            texts(out@) == missing_ids(all_track_ids(pls.take(i as int)), tracks@),
        decreases n - i,
    {
        let ghost before = all_track_ids(pls.take(i as int));
        proof {
            assert(pls.take(i + 1).drop_last() =~= pls.take(i as int));
            assert(pls.take(i + 1).last() == checked_playlists@[i as int]@);
        }
        add_missing(&checked_playlists[i].track_ids, tracks, &mut seen, &mut out, Ghost(before));
        i = i + 1;
    }
    assert(pls.take(n as int) =~= pls);
    out
}

} // verus!
