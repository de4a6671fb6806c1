//! What a scan of the device finds.
use std::collections::HashSet;

use vstd::hash_map::StringHashMap;
use vstd::prelude::*;

use crate::library::Library;
use crate::matching::{
    file_views, has_own_file, mark_on_device_strict, remarked, DeviceFile, DeviceFileView,
};
use crate::order::{sorted_texts, strictly_sorted};
use crate::protocol::{manifest_playlist_views, ManifestPlaylist, ManifestPlaylistView};
use crate::settings::{Settings, SettingsView};
use crate::text::{
    behind_last, chars_of, ends_in, has_suffix, opt_text, same_text, split_on, split_text,
    string_between, text_behind_last, texts, trim_white, white_trimmed,
};
use crate::track::TrackView;
use crate::tracks::{all_rebased, marks_copied, TrackMap};

verus! {

broadcast use vstd::std_specs::hash::group_hash_axioms;

// ---------------------------------------------------------------------------
// Playlist files
// ---------------------------------------------------------------------------

/// Whether a line of a playlist file is an entry: not blank and no comment.
pub open spec fn is_entry(line: Seq<char>) -> bool {
    let t = white_trimmed(line);
    t.len() > 0 && t[0] != '#'
}

/// How many entries a playlist file has.
pub open spec fn entry_count(content: Seq<char>) -> nat {
    split_on(content, '\n').filter(|line: Seq<char>| is_entry(line)).len()
}

/// Counts the entries of a playlist file.
pub fn count_entries(content: &str) -> (n: usize)
    ensures
        n == entry_count(content@),
{
    let lines: Vec<String> = split_text(content, '\n');
    let total: usize = lines.len();
    let mut n: usize = 0;
    let mut i: usize = 0;
    let ghost all = texts(lines@);
    let ghost f = |line: Seq<char>| is_entry(line);
    proof {
        reveal(Seq::filter);
        assert(all.take(0).filter(f).len() == 0);
    }
    while i < total
        invariant
            total == lines@.len(),
            all == texts(lines@),
            f == |line: Seq<char>| is_entry(line),
            n <= i <= total,
            n == all.take(i as int).filter(f).len(),
        decreases total - i,
    {
        proof {
            reveal(Seq::filter);
            assert(all.take(i + 1).drop_last() =~= all.take(i as int));
            assert(all.take(i + 1).last() == lines@[i as int]@);
        }
        let t: Vec<char> = chars_of(trim_white(lines[i].as_str()).as_str());
        if t.len() > 0 && t[0] != '#' {
            n = n + 1;
        }
        i = i + 1;
    }
    assert(all.take(total as int) =~= all);
    n
}

/// The name of the playlist of a playlist file: the last component of its path
/// without `.m3u`, or the whole path if it does not end so.
pub open spec fn playlist_basename(path: Seq<char>) -> Seq<char> {
    let last = behind_last(path, '/');
    if has_suffix(last, ".m3u"@) {
        last.take(last.len() - ".m3u"@.len())
    } else {
        path
    }
}

/// The name of the playlist of a playlist file.
pub fn basename_of_playlist(path: &str) -> (r: String)
    ensures
        r@ == playlist_basename(path@),
{
    let last: String = text_behind_last(path, '/');
    if ends_in(last.as_str(), ".m3u") {
        let v: Vec<char> = chars_of(last.as_str());
        proof {
            reveal_strlit(".m3u");
            assert(".m3u"@.len() == 4);
        }
        let r: String = string_between(&v, 0, v.len() - 4);
        assert(r@ =~= playlist_basename(path@));
        r
    } else {
        path.to_owned()
    }
}

/// How many entries the playlist files have, by the names of the playlists. Of
/// two files for one name the later counts.
pub open spec fn line_counts(files: Seq<ManifestPlaylistView>) -> Map<Seq<char>, nat>
    decreases files.len(),
{
    if files.len() == 0 {
        Map::empty()
    } else {
        line_counts(files.drop_last()).insert(
            playlist_basename(files.last().name),
            entry_count(files.last().content),
        )
    }
}

/// Counts by name, as natural numbers.
pub open spec fn counts_view(m: Map<Seq<char>, usize>) -> Map<Seq<char>, nat> {
    m.map_values(|n: usize| n as nat)
}

/// Counts the entries of playlist files.
pub fn count_playlist_lines(files: &Vec<ManifestPlaylist>) -> (r: StringHashMap<usize>)
    ensures
        counts_view(r@) == line_counts(manifest_playlist_views(files@)),
{
    let mut r: StringHashMap<usize> = StringHashMap::new();
    let n: usize = files.len();
    let mut i: usize = 0;
    let ghost all = manifest_playlist_views(files@);
    assert(counts_view(r@) =~= line_counts(all.take(0)));
    while i < n
        invariant
            n == files@.len(),
            all == manifest_playlist_views(files@),
            i <= n,
            counts_view(r@) == line_counts(all.take(i as int)),
        decreases n - i,
    {
        let count: usize = count_entries(files[i].content.as_str());
        let name: String = basename_of_playlist(files[i].name.as_str());
        let ghost before = r@;
        let ghost nv = name@;
        r.insert(name, count);
        proof {
            assert(all.take(i + 1).drop_last() =~= all.take(i as int));
            assert(all.take(i + 1).last() == files@[i as int]@);
            assert(counts_view(r@) =~= counts_view(before).insert(nv, count as nat));
        }
        i = i + 1;
    }
    assert(all.take(n as int) =~= all);
    r
}

// ---------------------------------------------------------------------------
// Orphans
// ---------------------------------------------------------------------------

/// Whether a path ends in `.m3u`, in capital or small letters.
pub open spec fn is_m3u(path: Seq<char>) -> bool {
    let n = path.len();
    &&& n >= 4
    &&& path[n - 4] == '.'
    &&& (path[n - 3] == 'm' || path[n - 3] == 'M')
    &&& path[n - 2] == '3'
    &&& (path[n - 1] == 'u' || path[n - 1] == 'U')
}

/// Whether a path ends in `.m3u`, in capital or small letters.
pub fn is_m3u_path(path: &str) -> (r: bool)
    ensures
        r == is_m3u(path@),
{
    let v: Vec<char> = chars_of(path);
    let n: usize = v.len();
    n >= 4 && v[n - 4] == '.' && (v[n - 3] == 'm' || v[n - 3] == 'M') && v[n - 2] == '3' && (v[n
        - 1] == 'u' || v[n - 1] == 'U')
}

/// Whether a file of the device is no playlist file and has the size of no
/// track.
pub open spec fn is_orphan(f: DeviceFileView, tracks: Map<Seq<char>, TrackView>) -> bool {
    &&& !is_m3u(f.path)
    &&& forall|k: Seq<char>| #[trigger] tracks.contains_key(k) ==> tracks[k].size != f.size
}

/// Whether a list holds the paths of the orphans among the files, in order and
/// each once.
pub open spec fn lists_orphans(
    paths: Seq<Seq<char>>,
    files: Seq<DeviceFileView>,
    tracks: Map<Seq<char>, TrackView>,
) -> bool {
    &&& strictly_sorted(paths)
    &&& forall|p: Seq<char>| #[trigger]
        paths.contains(p) <==> exists|i: int|
            0 <= i < files.len() && (#[trigger] files[i]).path == p && is_orphan(files[i], tracks)
}

/// The sizes of the tracks.
fn track_sizes(tracks: &TrackMap) -> (r: HashSet<u64>)
    ensures
        forall|size: u64| #[trigger]
            r@.contains(size) <==> exists|k: Seq<char>| #[trigger]
                tracks@.contains_key(k) && tracks@[k].size == size,
{
    let mut r: HashSet<u64> = HashSet::new();
    let n: usize = tracks.len();
    let mut i: usize = 0;
    let ghost keys = tracks.keys();
    while i < n
        invariant
            n == keys.len(),
            keys == tracks.keys(),
            i <= n,
            forall|size: u64| #[trigger]
                r@.contains(size) <==> exists|j: int|
                    0 <= j < i && tracks@[#[trigger] keys[j]].size == size,
        decreases n - i,
    {
        let ghost before = r@;
        let size: u64 = tracks.track_at(i).size;
        r.insert(size);
        proof {
            assert(tracks@[keys[i as int]].size == size);
            assert forall|s: u64| #[trigger] r@.contains(s) <==> exists|j: int|
                0 <= j < i + 1 && tracks@[#[trigger] keys[j]].size == s by {
                assert(before.contains(s) <==> exists|j: int|
                    0 <= j < i && tracks@[#[trigger] keys[j]].size == s);
                if before.contains(s) {
                    let j = choose|j: int| 0 <= j < i && tracks@[#[trigger] keys[j]].size == s;
                    assert(0 <= j < i + 1 && tracks@[keys[j]].size == s);
                }
                if exists|j: int| 0 <= j < i + 1 && tracks@[#[trigger] keys[j]].size == s {
                    let j = choose|j: int| 0 <= j < i + 1 && tracks@[#[trigger] keys[j]].size == s;
                    if j < i {
                        assert(0 <= j < i && tracks@[keys[j]].size == s);
                    }
                }
            }
        }
        i = i + 1;
    }
    proof {
        assert forall|size: u64| #[trigger] r@.contains(size) <==> exists|k: Seq<char>| #[trigger]
            tracks@.contains_key(k) && tracks@[k].size == size by {
            if r@.contains(size) {
                let j = choose|j: int| 0 <= j < n && tracks@[#[trigger] keys[j]].size == size;
                assert(tracks@.contains_key(keys[j]));
            }
            if exists|k: Seq<char>| #[trigger] tracks@.contains_key(k) && tracks@[k].size == size {
                let k = choose|k: Seq<char>| #[trigger]
                    tracks@.contains_key(k) && tracks@[k].size == size;
                let j = choose|j: int| 0 <= j < keys.len() && keys[j] == k;
                assert(tracks@[keys[j]].size == size);
            }
        }
    }
    r
}

/// The paths of the files of the device that are no track's, in order and each
/// once.
pub fn orphan_paths(files: &Vec<DeviceFile>, tracks: &TrackMap) -> (r: Vec<String>)
    ensures
        lists_orphans(texts(r@), file_views(files@), tracks@),
{
    let sizes: HashSet<u64> = track_sizes(tracks);
    let mut found: Vec<String> = Vec::new();
    let n: usize = files.len();
    let mut i: usize = 0;
    let ghost all = file_views(files@);
    while i < n
        invariant
            n == files@.len(),
            all == file_views(files@),
            i <= n,
            forall|size: u64| #[trigger]
                sizes@.contains(size) <==> exists|k: Seq<char>| #[trigger]
                    tracks@.contains_key(k) && tracks@[k].size == size,
            forall|p: Seq<char>| #[trigger]
                texts(found@).contains(p) <==> exists|j: int|
                    0 <= j < i && (#[trigger] all[j]).path == p && is_orphan(all[j], tracks@),
        decreases n - i,
    {
        let ghost had = texts(found@);
        let f: &DeviceFile = &files[i];
        let ghost fv = f@;
        assert(all[i as int] == fv);
        let orphan: bool = !is_m3u_path(f.path.as_str()) && !sizes.contains(&f.size);
        proof {
            assert(orphan == is_orphan(fv, tracks@)) by {
                if sizes@.contains(fv.size) {
                    let k = choose|k: Seq<char>| #[trigger]
                        tracks@.contains_key(k) && tracks@[k].size == fv.size;
                    assert(tracks@.contains_key(k));
                }
            }
        }
        if orphan {
            found.push(f.path.clone());
            assert(texts(found@) =~= had.push(fv.path));
        }
        proof {
            let now = texts(found@);
            assert forall|p: Seq<char>| #[trigger] now.contains(p) <==> exists|j: int|
                0 <= j < i + 1 && (#[trigger] all[j]).path == p && is_orphan(all[j], tracks@) by {
                assert(had.contains(p) <==> exists|j: int|
                    0 <= j < i && (#[trigger] all[j]).path == p && is_orphan(all[j], tracks@));
                if had.contains(p) {
                    let x = choose|x: int| 0 <= x < had.len() && had[x] == p;
                    assert(now[x] == p);
                    let j = choose|j: int|
                        0 <= j < i && (#[trigger] all[j]).path == p && is_orphan(all[j], tracks@);
                    assert(0 <= j < i + 1 && all[j].path == p);
                }
                if orphan && fv.path == p {
                    assert(now[now.len() - 1] == p);
                    assert(all[i as int].path == p);
                }
                if now.contains(p) && !had.contains(p) {
                    let x = choose|x: int| 0 <= x < now.len() && now[x] == p;
                    if x < had.len() {
                        assert(had[x] == p);
                    }
                    assert(all[i as int].path == p);
                }
                if exists|j: int|
                    0 <= j < i + 1 && (#[trigger] all[j]).path == p && is_orphan(all[j], tracks@) {
                    let j = choose|j: int|
                        0 <= j < i + 1 && (#[trigger] all[j]).path == p && is_orphan(
                            all[j],
                            tracks@,
                        );
                    if j < i {
                        assert(0 <= j < i && all[j].path == p);
                    }
                }
            }
        }
        i = i + 1;
    }
    let r: Vec<String> = sorted_texts(&found);
    proof {
        assert forall|p: Seq<char>| #[trigger] texts(r@).contains(p) <==> exists|j: int|
            0 <= j < all.len() && (#[trigger] all[j]).path == p && is_orphan(all[j], tracks@) by {
            assert(texts(r@).contains(p) <==> texts(found@).contains(p));
        }
    }
    r
}

// ---------------------------------------------------------------------------
// The scan
// ---------------------------------------------------------------------------

/// What the last scan found.
pub struct LastScan {
    /// The files of the device, as the device lists them.
    pub device_files: Vec<DeviceFile>,
    /// The paths of the files that are no track's.
    pub unused_device_paths: Vec<String>,
    /// How many entries the playlists of the device have, by name.
    pub device_playlist_line_counts: StringHashMap<usize>,
    /// When the scan was, in milliseconds since 1970.
    pub timestamp_ms: u64,
    /// The music root of the device.
    pub music_root: String,
}

/// What the last scan found, over characters.
#[verifier::ext_equal]
pub struct ScanModel {
    pub files: Seq<DeviceFileView>,
    pub unused: Seq<Seq<char>>,
    pub line_counts: Map<Seq<char>, nat>,
    pub timestamp_ms: u64,
    pub music_root: Seq<char>,
}

impl View for LastScan {
    type V = ScanModel;

    open spec fn view(&self) -> ScanModel {
        ScanModel {
            files: file_views(self.device_files@),
            unused: texts(self.unused_device_paths@),
            line_counts: counts_view(self.device_playlist_line_counts@),
            timestamp_ms: self.timestamp_ms,
            music_root: self.music_root@,
        }
    }
}

/// Evaluates what the device listed: marks the tracks that it has, and finds
/// the files that are no track's.
pub fn evaluate_scan(
    tracks: &mut TrackMap,
    device_files: Vec<DeviceFile>,
    device_playlists: &Vec<ManifestPlaylist>,
    music_root: String,
    timestamp_ms: u64,
) -> (scan: LastScan)
    ensures
        final(tracks).keys() == old(tracks).keys(),
        final(tracks)@ == remarked(
            old(tracks)@,
            |k: Seq<char>| has_own_file(old(tracks)@, old(tracks)@[k], file_views(device_files@)),
        ),
        scan@.files == file_views(device_files@),
        lists_orphans(scan@.unused, file_views(device_files@), old(tracks)@),
        scan@.line_counts == line_counts(manifest_playlist_views(device_playlists@)),
        scan@.timestamp_ms == timestamp_ms,
        scan@.music_root == music_root@,
{
    let device_playlist_line_counts: StringHashMap<usize> = count_playlist_lines(device_playlists);
    let unused_device_paths: Vec<String> = orphan_paths(&device_files, tracks);
    mark_on_device_strict(tracks, device_files.as_slice());
    LastScan {
        device_files,
        unused_device_paths,
        device_playlist_line_counts,
        timestamp_ms,
        music_root,
    }
}

/// What the user is told of a scan.
#[derive(Debug, Clone, Copy, PartialEq, Eq, Structural)]
pub struct ScanResultEvent {
    pub files: usize,
    /// Not told: always 0.
    pub playlists: usize,
    pub unused: usize,
    pub timestamp_ms: u64,
}

impl LastScan {
    /// What the user is told of the scan.
    pub fn result(&self) -> (e: ScanResultEvent)
        ensures
            e.files == self@.files.len(),
            e.playlists == 0,
            e.unused == self@.unused.len(),
            e.timestamp_ms == self@.timestamp_ms,
    {
        ScanResultEvent {
            files: self.device_files.len(),
            playlists: 0,
            unused: self.unused_device_paths.len(),
            timestamp_ms: self.timestamp_ms,
        }
    }
}

impl SettingsView {
    /// The root that the tracks have to be moved from, where the device has
    /// another music root than before.
    pub open spec fn moved_from(self, music_root: Seq<char>) -> Option<Seq<char>> {
        match self.ftp_path {
            Some(old_root) => if old_root.len() > 0 && old_root != music_root {
                Some(old_root)
            } else {
                None
            },
            None => None,
        }
    }
}

impl Settings {
    /// Takes over the music root of the device where it is another one than
    /// before, and tells the root before.
    pub fn adopt_music_root(&mut self, music_root: &str) -> (r: Option<String>)
        ensures
            opt_text(r) == old(self)@.moved_from(music_root@),
            final(self)@ == (if r is Some {
                SettingsView { ftp_path: Some(music_root@), ..old(self)@ }
            } else {
                old(self)@
            }),
    {
        let old_root: Option<String> = match &self.ftp_path {
            Some(p) => {
                if !p.as_str().is_empty() && !same_text(p.as_str(), music_root) {
                    Some(p.clone())
                } else {
                    None
                }
            },
            None => None,
        };
        if old_root.is_some() {
            self.ftp_path = Some(music_root.to_owned());
        }
        old_root
    }
}

impl Library {
    /// Takes over what a scan found: moves the tracks where the device has
    /// another music root, and takes over the marks of `scanned`.
    pub fn apply_scan(
        &mut self,
        scanned: &TrackMap,
        moved_from: &Option<String>,
        music_root: &str,
    )
        ensures
            final(self)@.music_folder == old(self)@.music_folder,
            final(self)@.playlists == old(self)@.playlists,
            final(self).tracks.keys() == old(self).tracks.keys(),
            final(self)@.tracks == marks_copied(
                match opt_text(*moved_from) {
                    Some(old_root) => all_rebased(old(self)@.tracks, old_root, music_root@),
                    None => old(self)@.tracks,
                },
                scanned@,
            ),
    {
        if let Some(old_root) = moved_from {
            self.tracks.rebase(old_root.as_str(), music_root);
        }
        self.tracks.copy_marks(scanned);
    }
}

} // verus!
