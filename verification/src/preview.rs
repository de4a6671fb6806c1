//! A preview of the next sync, and everything that the user is shown of the
//! library.
use std::collections::HashMap;

use vstd::hash_map::StringHashMap;
use vstd::hash_set::StringHashSet;
use vstd::prelude::*;

use crate::cleanup::{lists_unwanted, tracks_to_delete};
use crate::library::{Library, LibraryModel};
use crate::matching::{
    all_track_ids, file_views, missing_ids, missing_ids_are_exact, tracks_to_upload, DeviceFile,
    DeviceFileView,
};
use crate::playlist::{m3u_filename, Playlist, PlaylistModel};
use crate::scan::{LastScan, ScanModel};
use crate::settings::{PlaylistAction, RememberedPlaylist, RememberedView, Settings, SettingsView};
use crate::sync::{checked_of, checked_playlists, copy_ops, SyncOpView};
use crate::text::texts;
use crate::track::{Track, TrackView};
use crate::tracks::TrackMap;
use crate::views::{
    build_views_with_scan, missing_list, missing_rows, opt_scan, row_of, rows,
    MissingPlaylistView, PlaylistView,
};

verus! {

broadcast use vstd::std_specs::hash::group_hash_axioms;

/// A song in the preview.
#[derive(Debug, PartialEq, Eq)]
pub struct PreviewSong {
    pub name: String,
    pub artist: String,
    /// For a song to copy its file on the desktop, for one to delete its path
    /// on the device.
    pub path: String,
    /// For a song to copy its path on the device, for one to delete nothing.
    pub device_path: String,
}

/// A song in the preview, over characters.
#[verifier::ext_equal]
pub struct SongRow {
    pub name: Seq<char>,
    pub artist: Seq<char>,
    pub path: Seq<char>,
    pub device_path: Seq<char>,
}

impl View for PreviewSong {
    type V = SongRow;

    open spec fn view(&self) -> SongRow {
        SongRow {
            name: self.name@,
            artist: self.artist@,
            path: self.path@,
            device_path: self.device_path@,
        }
    }
}

/// The songs of a list, over characters.
pub open spec fn song_rows(v: Seq<PreviewSong>) -> Seq<SongRow> {
    v.map_values(|s: PreviewSong| s@)
}

impl Clone for PreviewSong {
    fn clone(&self) -> (r: Self)
        ensures
            r@ == self@,
    {
        PreviewSong {
            name: self.name.clone(),
            artist: self.artist.clone(),
            path: self.path.clone(),
            device_path: self.device_path.clone(),
        }
    }
}

/// A playlist in the preview.
#[derive(Debug, PartialEq, Eq)]
pub struct PreviewPlaylist {
    pub name: String,
    /// The name of its file on the device.
    pub filename: String,
}

/// A playlist in the preview, over characters.
#[verifier::ext_equal]
pub struct PlaylistRef {
    pub name: Seq<char>,
    pub filename: Seq<char>,
}

impl View for PreviewPlaylist {
    type V = PlaylistRef;

    open spec fn view(&self) -> PlaylistRef {
        PlaylistRef { name: self.name@, filename: self.filename@ }
    }
}

/// The playlists of a list, over characters.
pub open spec fn playlist_refs(v: Seq<PreviewPlaylist>) -> Seq<PlaylistRef> {
    v.map_values(|p: PreviewPlaylist| p@)
}

/// A playlist by its name.
pub open spec fn ref_of(name: Seq<char>) -> PlaylistRef {
    PlaylistRef { name, filename: m3u_filename(name) }
}

/// A preview of the next sync.
#[derive(Debug, PartialEq, Eq)]
pub struct SyncPreview {
    pub new_playlists: usize,
    pub new_songs: usize,
    pub remove_playlists: usize,
    pub delete_songs: usize,
    pub new_playlist_items: Vec<PreviewPlaylist>,
    pub new_song_items: Vec<PreviewSong>,
    pub remove_playlist_items: Vec<PreviewPlaylist>,
    pub delete_song_items: Vec<PreviewSong>,
    /// Songs that should be copied and whose file cannot be read.
    pub missing_files: Vec<PreviewSong>,
}

/// A song to copy.
pub open spec fn song_of(t: TrackView) -> SongRow {
    SongRow { name: t.name, artist: t.artist, path: t.local_path, device_path: t.device_path }
}

/// The songs that a sync would copy, in order.
pub open spec fn songs_to_copy(lib: LibraryModel) -> Seq<SongRow> {
    missing_ids(all_track_ids(checked_of(lib.playlists)), lib.tracks).map_values(
        |id: Seq<char>| song_of(lib.tracks[id]),
    )
}

/// The songs that a sync would copy, in order.
pub fn preview_songs(lib: &Library) -> (r: Vec<PreviewSong>)
    ensures
        song_rows(r@) == songs_to_copy(lib@),
{
    let checked: Vec<&Playlist> = checked_playlists(&lib.playlists);
    let ids: Vec<String> = tracks_to_upload(checked.as_slice(), &lib.tracks);
    let ghost wanted = all_track_ids(checked_of(lib@.playlists));
    proof {
        missing_ids_are_exact(wanted, lib@.tracks);
    }
    let mut r: Vec<PreviewSong> = Vec::new();
    let n: usize = ids.len();
    let mut i: usize = 0;
    let ghost all = songs_to_copy(lib@);
    assert(song_rows(r@) =~= all.take(0));
    while i < n
        invariant
            n == ids@.len(),
            texts(ids@) == missing_ids(wanted, lib@.tracks),
            all == texts(ids@).map_values(|id: Seq<char>| song_of(lib@.tracks[id])),
            forall|id: Seq<char>| #[trigger]
                missing_ids(wanted, lib@.tracks).contains(id) ==> lib@.tracks.contains_key(id),
            i <= n,
            song_rows(r@) == all.take(i as int),
        decreases n - i,
    {
        let ghost had = song_rows(r@);
        let ghost id = ids@[i as int]@;
        proof {
            assert(texts(ids@)[i as int] == id);
            assert(missing_ids(wanted, lib@.tracks).contains(id));
        }
        if let Some(t) = lib.tracks.get(ids[i].as_str()) {
            let s = PreviewSong {
                name: t.name.clone(),
                artist: t.artist.clone(),
                path: t.local_path.clone(),
                device_path: t.device_path.clone(),
            };
            let ghost sv = s@;
            r.push(s);
            proof {
                assert(song_rows(r@) =~= had.push(sv));
                assert(all[i as int] == sv);
                assert(all.take(i + 1) =~= had.push(sv));
            }
        }
        i = i + 1;
    }
    assert(all.take(n as int) =~= all);
    r
}

/// Whether the file of a song to copy can be read, given the paths that can.
pub open spec fn is_readable(s: SongRow, readable: Seq<Seq<char>>) -> bool {
    s.path.len() > 0 && readable.contains(s.path)
}

/// The texts of a list, each once.
fn set_of_texts(v: &Vec<String>) -> (r: StringHashSet)
    ensures
        forall|t: Seq<char>| #[trigger] r@.contains(t) <==> texts(v@).contains(t),
{
    let mut r = StringHashSet::new();
    let n: usize = v.len();
    let mut i: usize = 0;
    let ghost all = texts(v@);
    while i < n
        invariant
            n == v@.len(),
            all == texts(v@),
            i <= n,
            forall|t: Seq<char>| #[trigger] r@.contains(t) <==> all.take(i as int).contains(t),
        decreases n - i,
    {
        let ghost before = r@;
        let ghost x = v@[i as int]@;
        r.insert(v[i].clone());
        proof {
            let a = all.take(i as int);
            assert(all.take(i + 1) =~= a.push(x));
            assert forall|t: Seq<char>| #[trigger] r@.contains(t) <==> a.push(x).contains(t) by {
                assert(before.contains(t) <==> a.contains(t));
                if a.contains(t) {
                    let k = choose|k: int| 0 <= k < a.len() && a[k] == t;
                    assert(a.push(x)[k] == t);
                }
                if t == x {
                    assert(a.push(x)[a.len() as int] == t);
                }
                if a.push(x).contains(t) {
                    let k = choose|k: int| 0 <= k < a.push(x).len() && a.push(x)[k] == t;
                    if k < a.len() {
                        assert(a[k] == t);
                    }
                }
            }
        }
        i = i + 1;
    }
    assert(all.take(n as int) =~= all);
    r
}

/// Parts the songs to copy into those whose file can be read and the rest.
fn part_songs(songs: Vec<PreviewSong>, readable: &Vec<String>) -> (r: (
    Vec<PreviewSong>,
    Vec<PreviewSong>,
))
    ensures
        song_rows(r.0@) == song_rows(songs@).filter(|s: SongRow| is_readable(s, texts(readable@))),
        song_rows(r.1@) == song_rows(songs@).filter(|s: SongRow| !is_readable(s, texts(readable@))),
{
    let paths: StringHashSet = set_of_texts(readable);
    let mut good: Vec<PreviewSong> = Vec::new();
    let mut bad: Vec<PreviewSong> = Vec::new();
    let n: usize = songs.len();
    let mut i: usize = 0;
    let ghost all = song_rows(songs@);
    let ghost f = |s: SongRow| is_readable(s, texts(readable@));
    let ghost g = |s: SongRow| !is_readable(s, texts(readable@));
    proof {
        reveal(Seq::filter);
        assert(song_rows(good@) =~= all.take(0).filter(f));
        assert(song_rows(bad@) =~= all.take(0).filter(g));
    }
    while i < n
        invariant
            n == songs@.len(),
            all == song_rows(songs@),
            f == (|s: SongRow| is_readable(s, texts(readable@))),
            g == (|s: SongRow| !is_readable(s, texts(readable@))),
            i <= n,
            forall|t: Seq<char>| #[trigger]
                paths@.contains(t) <==> texts(readable@).contains(t),
            song_rows(good@) == all.take(i as int).filter(f),
            song_rows(bad@) == all.take(i as int).filter(g),
        decreases n - i,
    {
        let s: PreviewSong = songs[i].clone();
        let ghost sv = s@;
        let ghost had_good = song_rows(good@);
        let ghost had_bad = song_rows(bad@);
        proof {
            reveal(Seq::filter);
            assert(all.take(i + 1).drop_last() =~= all.take(i as int));
            assert(all.take(i + 1).last() == sv);
            assert(paths@.contains(sv.path) <==> texts(readable@).contains(sv.path));
        }
        if !s.path.as_str().is_empty() && paths.contains(s.path.as_str()) {
            good.push(s);
            assert(song_rows(good@) =~= had_good.push(sv));
        } else {
            bad.push(s);
            assert(song_rows(bad@) =~= had_bad.push(sv));
        }
        i = i + 1;
    }
    assert(all.take(n as int) =~= all);
    (good, bad)
}

/// The chosen playlists that the device does not have.
pub open spec fn new_playlists(lib: LibraryModel, scan: ScanModel) -> Seq<PlaylistRef> {
    checked_of(lib.playlists).filter(
        |p: PlaylistModel| !scan.line_counts.contains_key(p.name),
    ).map_values(|p: PlaylistModel| ref_of(p.name))
}

/// The playlists whose file would be deleted: the remembered ones that the user
/// wants deleted.
pub open spec fn removed_playlists(settings: SettingsView) -> Seq<PlaylistRef> {
    settings.remembered_playlists.filter(
        |r: RememberedView| r.action == PlaylistAction::Delete,
    ).map_values(|r: RememberedView| ref_of(r.name))
}

/// A playlist by its name.
fn reference(name: &String) -> (r: PreviewPlaylist)
    ensures
        r@ == ref_of(name@),
{
    let mut filename: String = name.clone();
    filename.append(".m3u");
    PreviewPlaylist { name: name.clone(), filename }
}

/// The chosen playlists that the device does not have.
fn find_new_playlists(lib: &Library, scan: &LastScan) -> (r: Vec<PreviewPlaylist>)
    ensures
        playlist_refs(r@) == new_playlists(lib@, scan@),
{
    let mut r: Vec<PreviewPlaylist> = Vec::new();
    let n: usize = lib.playlists.len();
    let mut i: usize = 0;
    let ghost all = lib@.playlists;
    let ghost chosen = |p: PlaylistModel| p.checked;
    let ghost keep = |p: PlaylistModel| !scan@.line_counts.contains_key(p.name);
    let ghost f = |p: PlaylistModel| ref_of(p.name);
    proof {
        reveal(Seq::filter);
        assert(playlist_refs(r@) =~= all.take(0).filter(chosen).filter(keep).map_values(f));
    }
    while i < n
        invariant
            n == lib.playlists@.len(),
            all == lib@.playlists,
            chosen == (|p: PlaylistModel| p.checked),
            keep == (|p: PlaylistModel| !scan@.line_counts.contains_key(p.name)),
            f == (|p: PlaylistModel| ref_of(p.name)),
            i <= n,
            playlist_refs(r@) == all.take(i as int).filter(chosen).filter(keep).map_values(f),
        decreases n - i,
    {
        let p: &Playlist = &lib.playlists[i];
        let ghost had = playlist_refs(r@);
        let ghost checked = all.take(i as int).filter(chosen);
        let ghost kept = checked.filter(keep);
        proof {
            reveal(Seq::filter);
            assert(all.take(i + 1).drop_last() =~= all.take(i as int));
            assert(all.take(i + 1).last() == p@);
            assert(checked.push(p@).drop_last() =~= checked);
        }
        if p.checked {
            if !scan.device_playlist_line_counts.contains_key(p.name.as_str()) {
                let item: PreviewPlaylist = reference(&p.name);
                let ghost iv = item@;
                r.push(item);
                proof {
                    assert(playlist_refs(r@) =~= had.push(iv));
                    assert(kept.push(p@).map_values(f) =~= kept.map_values(f).push(iv));
                }
            }
        }
        i = i + 1;
    }
    assert(all.take(n as int) =~= all);
    r
}

/// The playlists whose file would be deleted.
fn find_removed_playlists(settings: &Settings) -> (r: Vec<PreviewPlaylist>)
    ensures
        playlist_refs(r@) == removed_playlists(settings@),
{
    let mut r: Vec<PreviewPlaylist> = Vec::new();
    let n: usize = settings.remembered_playlists.len();
    let mut i: usize = 0;
    let ghost all = settings@.remembered_playlists;
    let ghost keep = |r: RememberedView| r.action == PlaylistAction::Delete;
    let ghost f = |r: RememberedView| ref_of(r.name);
    proof {
        reveal(Seq::filter);
        assert(playlist_refs(r@) =~= all.take(0).filter(keep).map_values(f));
    }
    while i < n
        invariant
            n == settings.remembered_playlists@.len(),
            all == settings@.remembered_playlists,
            keep == (|r: RememberedView| r.action == PlaylistAction::Delete),
            f == (|r: RememberedView| ref_of(r.name)),
            i <= n,
            playlist_refs(r@) == all.take(i as int).filter(keep).map_values(f),
        decreases n - i,
    {
        let p: &RememberedPlaylist = &settings.remembered_playlists[i];
        let ghost had = playlist_refs(r@);
        let ghost kept = all.take(i as int).filter(keep);
        proof {
            reveal(Seq::filter);
            assert(all.take(i + 1).drop_last() =~= all.take(i as int));
            assert(all.take(i + 1).last() == p@);
        }
        if p.action == PlaylistAction::Delete {
            let item: PreviewPlaylist = reference(&p.name);
            let ghost iv = item@;
            r.push(item);
            proof {
                assert(playlist_refs(r@) =~= had.push(iv));
                assert(kept.push(p@).map_values(f) =~= kept.map_values(f).push(iv));
            }
        }
        i = i + 1;
    }
    assert(all.take(n as int) =~= all);
    r
}

// ---------------------------------------------------------------------------
// Songs to delete
// ---------------------------------------------------------------------------

/// The size of the last file with a path.
pub open spec fn size_of_path(files: Seq<DeviceFileView>, path: Seq<char>) -> Option<u64>
    decreases files.len(),
{
    if files.len() == 0 {
        None
    } else if files.last().path == path {
        Some(files.last().size)
    } else {
        size_of_path(files.drop_last(), path)
    }
}

/// The last track of a size.
pub open spec fn track_of_size(tracks: Seq<TrackView>, size: u64) -> Option<TrackView>
    decreases tracks.len(),
{
    if tracks.len() == 0 {
        None
    } else if tracks.last().size == size {
        Some(tracks.last())
    } else {
        track_of_size(tracks.drop_last(), size)
    }
}

/// A song to delete: by the name and the artist of a track of its size, if
/// there is one.
pub open spec fn doomed_song(
    path: Seq<char>,
    files: Seq<DeviceFileView>,
    tracks: Seq<TrackView>,
) -> SongRow {
    let t = match size_of_path(files, path) {
        Some(size) => track_of_size(tracks, size),
        None => None,
    };
    SongRow {
        name: match t {
            Some(t) => t.name,
            None => Seq::empty(),
        },
        artist: match t {
            Some(t) => t.artist,
            None => Seq::empty(),
        },
        path,
        device_path: Seq::empty(),
    }
}

/// The sizes of files by path. Of two files with one path the later counts.
fn sizes_by_path(files: &Vec<DeviceFile>) -> (r: StringHashMap<u64>)
    ensures
        forall|p: Seq<char>| #[trigger]
            r@.contains_key(p) <==> size_of_path(file_views(files@), p) is Some,
        forall|p: Seq<char>| #[trigger]
            r@.contains_key(p) ==> size_of_path(file_views(files@), p) == Some(r@[p]),
{
    let mut r: StringHashMap<u64> = StringHashMap::new();
    let n: usize = files.len();
    let mut i: usize = 0;
    let ghost all = file_views(files@);
    while i < n
        invariant
            n == files@.len(),
            all == file_views(files@),
            i <= n,
            forall|p: Seq<char>| #[trigger]
                r@.contains_key(p) <==> size_of_path(all.take(i as int), p) is Some,
            forall|p: Seq<char>| #[trigger]
                r@.contains_key(p) ==> size_of_path(all.take(i as int), p) == Some(r@[p]),
        decreases n - i,
    {
        let ghost before = r@;
        let f: &DeviceFile = &files[i];
        r.insert(f.path.clone(), f.size);
        proof {
            assert(all.take(i + 1).drop_last() =~= all.take(i as int));
            assert(all.take(i + 1).last() == f@);
            assert forall|p: Seq<char>| #[trigger] r@.contains_key(p) <==> size_of_path(
                all.take(i + 1),
                p,
            ) is Some by {
                assert(before.contains_key(p) <==> size_of_path(all.take(i as int), p) is Some);
            }
            assert forall|p: Seq<char>| #[trigger] r@.contains_key(p) implies size_of_path(
                all.take(i + 1),
                p,
            ) == Some(r@[p]) by {
                if p != f@.path {
                    assert(before.contains_key(p));
                }
            }
        }
        i = i + 1;
    }
    assert(all.take(n as int) =~= all);
    r
}

/// The places of the last track of each size.
fn places_by_size(tracks: &TrackMap) -> (r: HashMap<u64, usize>)
    ensures
        forall|size: u64| #[trigger]
            r@.contains_key(size) <==> track_of_size(tracks.tracks(), size) is Some,
        forall|size: u64| #[trigger]
            r@.contains_key(size) ==> r@[size] < tracks.keys().len() && track_of_size(
                tracks.tracks(),
                size,
            ) == Some(tracks.tracks()[r@[size] as int]),
{
    let mut r: HashMap<u64, usize> = HashMap::new();
    let n: usize = tracks.len();
    let mut i: usize = 0;
    let ghost all = tracks.tracks();
    while i < n
        invariant
            n == tracks.keys().len(),
            n == all.len(),
            all == tracks.tracks(),
            i <= n,
            forall|size: u64| #[trigger]
                r@.contains_key(size) <==> track_of_size(all.take(i as int), size) is Some,
            forall|size: u64| #[trigger]
                r@.contains_key(size) ==> r@[size] < i && track_of_size(all.take(i as int), size)
                    == Some(all[r@[size] as int]),
        decreases n - i,
    {
        let ghost before = r@;
        let size: u64 = tracks.track_at(i).size;
        r.insert(size, i);
        proof {
            assert(all.take(i + 1).drop_last() =~= all.take(i as int));
            assert(all.take(i + 1).last() == all[i as int]);
            assert forall|s: u64| #[trigger] r@.contains_key(s) <==> track_of_size(
                all.take(i + 1),
                s,
            ) is Some by {
                assert(before.contains_key(s) <==> track_of_size(all.take(i as int), s) is Some);
            }
            assert forall|s: u64| #[trigger] r@.contains_key(s) implies r@[s] < i + 1
                && track_of_size(all.take(i + 1), s) == Some(all[r@[s] as int]) by {
                if s != size {
                    assert(before.contains_key(s));
                }
            }
        }
        i = i + 1;
    }
    assert(all.take(n as int) =~= all);
    r
}

/// The songs to delete, by their paths.
fn doomed_songs(
    paths: &Vec<String>,
    files: &Vec<DeviceFile>,
    tracks: &TrackMap,
) -> (r: Vec<PreviewSong>)
    ensures
        song_rows(r@) == texts(paths@).map_values(
            |p: Seq<char>| doomed_song(p, file_views(files@), tracks.tracks()),
        ),
{
    let sizes: StringHashMap<u64> = sizes_by_path(files);
    let places: HashMap<u64, usize> = places_by_size(tracks);
    let mut r: Vec<PreviewSong> = Vec::new();
    let n: usize = paths.len();
    let mut i: usize = 0;
    let ghost fv = file_views(files@);
    let ghost ts = tracks.tracks();
    let ghost all = texts(paths@).map_values(|p: Seq<char>| doomed_song(p, fv, ts));
    assert(song_rows(r@) =~= all.take(0));
    while i < n
        invariant
            n == paths@.len(),
            fv == file_views(files@),
            ts == tracks.tracks(),
            all == texts(paths@).map_values(|p: Seq<char>| doomed_song(p, fv, ts)),
            i <= n,
            forall|p: Seq<char>| #[trigger]
                sizes@.contains_key(p) <==> size_of_path(fv, p) is Some,
            forall|p: Seq<char>| #[trigger]
                sizes@.contains_key(p) ==> size_of_path(fv, p) == Some(sizes@[p]),
            forall|size: u64| #[trigger]
                places@.contains_key(size) <==> track_of_size(ts, size) is Some,
            forall|size: u64| #[trigger]
                places@.contains_key(size) ==> places@[size] < tracks.keys().len()
                    && track_of_size(ts, size) == Some(ts[places@[size] as int]),
            song_rows(r@) == all.take(i as int),
        decreases n - i,
    {
        let ghost had = song_rows(r@);
        let ghost pv = paths@[i as int]@;
        let mut name = String::new();
        let mut artist = String::new();
        proof {
            assert(sizes@.contains_key(pv) <==> size_of_path(fv, pv) is Some);
        }
        if let Some(size) = sizes.get(paths[i].as_str()) {
            assert(places@.contains_key(*size) <==> track_of_size(ts, *size) is Some);
            if let Some(place) = places.get(size) {
                let t: &Track = tracks.track_at(*place);
                name = t.name.clone();
                artist = t.artist.clone();
            }
        }
        let s = PreviewSong { name, artist, path: paths[i].clone(), device_path: String::new() };
        let ghost sv = s@;
        r.push(s);
        proof {
            assert(sv =~= doomed_song(pv, fv, ts));
            assert(song_rows(r@) =~= had.push(sv));
            assert(all[i as int] == sv);
            assert(all.take(i + 1) =~= had.push(sv));
        }
        i = i + 1;
    }
    assert(all.take(n as int) =~= all);
    r
}

/// The paths of songs.
pub open spec fn song_paths(songs: Seq<SongRow>) -> Seq<Seq<char>> {
    songs.map_values(|s: SongRow| s.path)
}

/// Whether a preview shows what a sync would do. `tracks` are the tracks in
/// order, `readable` the paths of the files that can be read.
pub open spec fn previews(
    p: SyncPreview,
    lib: LibraryModel,
    tracks: Seq<TrackView>,
    settings: SettingsView,
    scan: ScanModel,
    readable: Seq<Seq<char>>,
) -> bool {
    &&& song_rows(p.new_song_items@) == songs_to_copy(lib).filter(
        |s: SongRow| is_readable(s, readable),
    )
    &&& song_rows(p.missing_files@) == songs_to_copy(lib).filter(
        |s: SongRow| !is_readable(s, readable),
    )
    &&& playlist_refs(p.new_playlist_items@) == new_playlists(lib, scan)
    &&& playlist_refs(p.remove_playlist_items@) == removed_playlists(settings)
    &&& lists_unwanted(song_paths(song_rows(p.delete_song_items@)), lib, settings, scan)
    &&& song_rows(p.delete_song_items@) == song_paths(
        song_rows(p.delete_song_items@),
    ).map_values(|path: Seq<char>| doomed_song(path, scan.files, tracks))
    &&& p.new_playlists == p.new_playlist_items@.len()
    &&& p.new_songs == p.new_song_items@.len()
    &&& p.remove_playlists == p.remove_playlist_items@.len()
    &&& p.delete_songs == p.delete_song_items@.len()
}

/// Computes a preview of the next sync. `readable` are the paths of the files
/// of the desktop that can be read.
pub fn compute_preview(
    lib: &Library,
    settings: &Settings,
    last_scan: &LastScan,
    readable: &Vec<String>,
) -> (r: SyncPreview)
    ensures
        previews(r, lib@, lib.tracks.tracks(), settings@, last_scan@, texts(readable@)),
{
    let songs: Vec<PreviewSong> = preview_songs(lib);
    let (new_song_items, missing_files) = part_songs(songs, readable);
    let new_playlist_items: Vec<PreviewPlaylist> = find_new_playlists(lib, last_scan);
    let remove_playlist_items: Vec<PreviewPlaylist> = find_removed_playlists(settings);
    let paths: Vec<String> = tracks_to_delete(lib, settings, Some(last_scan));
    let delete_song_items: Vec<PreviewSong> = doomed_songs(
        &paths,
        &last_scan.device_files,
        &lib.tracks,
    );
    assert(song_paths(song_rows(delete_song_items@)) =~= texts(paths@));
    SyncPreview {
        new_playlists: new_playlist_items.len(),
        new_songs: new_song_items.len(),
        remove_playlists: remove_playlist_items.len(),
        delete_songs: delete_song_items.len(),
        new_playlist_items,
        new_song_items,
        remove_playlist_items,
        delete_song_items,
        missing_files,
    }
}

// ---------------------------------------------------------------------------
// Everything together
// ---------------------------------------------------------------------------

/// Everything that the user is shown of the library.
#[derive(Debug, PartialEq, Eq)]
pub struct LibraryView {
    pub track_count: usize,
    /// How many files of the device are no track's, after a scan.
    pub orphan_count: Option<usize>,
    /// A preview of the next sync, after a scan.
    pub preview: Option<SyncPreview>,
    pub playlists: Vec<PlaylistView>,
    pub music_folder: String,
    pub library_path: String,
    /// When the library was exported, in milliseconds since 1970.
    pub library_mtime_ms: Option<u64>,
    pub missing_playlists: Vec<MissingPlaylistView>,
}

/// Puts together what the user is shown of the library.
pub fn library_view(
    lib: &Library,
    library_path: String,
    library_mtime_ms: Option<u64>,
    playlists: Vec<PlaylistView>,
    missing_playlists: Vec<MissingPlaylistView>,
    orphan_count: Option<usize>,
    preview: Option<SyncPreview>,
) -> (v: LibraryView)
    ensures
        v.track_count == lib@.tracks.len(),
        v.orphan_count == orphan_count,
        v.preview == preview,
        v.playlists == playlists,
        v.music_folder@ == lib@.music_folder,
        v.library_path == library_path,
        v.library_mtime_ms == library_mtime_ms,
        v.missing_playlists == missing_playlists,
{
    LibraryView {
        track_count: lib.tracks.len(),
        orphan_count,
        preview,
        playlists,
        music_folder: lib.music_folder.clone(),
        library_path,
        library_mtime_ms,
        missing_playlists,
    }
}

/// Computes everything that the user is shown of the library.
pub fn current_view(
    lib: &Library,
    settings: &Settings,
    last_scan: Option<&LastScan>,
    library_mtime_ms: Option<u64>,
    readable: &Vec<String>,
) -> (v: LibraryView)
    ensures
        v.track_count == lib@.tracks.len(),
        v.orphan_count == match last_scan {
            Some(s) => Some(s.unused_device_paths.len()),
            None => None,
        },
        match last_scan {
            Some(s) => v.preview matches Some(p) && previews(
                p,
                lib@,
                lib.tracks.tracks(),
                settings@,
                s@,
                texts(readable@),
            ),
            None => v.preview is None,
        },
        rows(v.playlists@) == lib@.playlists.map_values(
            |p: PlaylistModel| row_of(p, lib@, settings@, opt_scan(last_scan)),
        ),
        v.music_folder@ == lib@.music_folder,
        v.library_path@ == match settings@.library_path {
            Some(p) => p,
            None => Seq::empty(),
        },
        v.library_mtime_ms == library_mtime_ms,
        missing_rows(v.missing_playlists@) == missing_list(lib@, settings@),
{
    let (playlists, missing) = build_views_with_scan(lib, settings, last_scan);
    let (orphans, preview): (Option<usize>, Option<SyncPreview>) = match last_scan {
        Some(s) => (
            Some(s.unused_device_paths.len()),
            Some(compute_preview(lib, settings, s, readable)),
        ),
        None => (None, None),
    };
    let library_path: String = match &settings.library_path {
        Some(p) => p.clone(),
        None => String::new(),
    };
    library_view(lib, library_path, library_mtime_ms, playlists, missing, orphans, preview)
}

// ---------------------------------------------------------------------------
// Laws
// ---------------------------------------------------------------------------

/// The preview shows, one for one, the songs that a sync of the same library
/// copies.
pub proof fn preview_shows_copies(lib: LibraryModel, root: Seq<char>)
    ensures
        songs_to_copy(lib).len() == copy_ops(lib.playlists, lib.tracks, root).len(),
        forall|i: int|
            0 <= i < songs_to_copy(lib).len() ==> ({
                let s = #[trigger] songs_to_copy(lib)[i];
                copy_ops(lib.playlists, lib.tracks, root)[i] matches SyncOpView::CopyTrack {
                    name,
                    local_path,
                    ..
                } && name == s.name && local_path == s.path
            }),
{
}

/// What is kept and what is not are together the whole list.
proof fn filter_parts_list(v: Seq<SongRow>, readable: Seq<Seq<char>>)
    ensures
        v.filter(|s: SongRow| is_readable(s, readable)).len() + v.filter(
            |s: SongRow| !is_readable(s, readable),
        ).len() == v.len(),
    decreases v.len(),
{
    reveal(Seq::filter);
    if v.len() > 0 {
        filter_parts_list(v.drop_last(), readable);
    }
}

/// Every song that a sync would copy is shown, as one to copy or as one whose
/// file cannot be read.
pub proof fn preview_shows_every_song(
    p: SyncPreview,
    lib: LibraryModel,
    tracks: Seq<TrackView>,
    settings: SettingsView,
    scan: ScanModel,
    readable: Seq<Seq<char>>,
)
    requires
        previews(p, lib, tracks, settings, scan, readable),
    ensures
        p.new_songs + p.missing_files@.len() == songs_to_copy(lib).len(),
{
    filter_parts_list(songs_to_copy(lib), readable);
    assert(song_rows(p.new_song_items@).len() == p.new_song_items@.len());
    assert(song_rows(p.missing_files@).len() == p.missing_files@.len());
}

/// The preview shows, one for one, the playlist files that a sync deletes.
pub proof fn preview_shows_deleted_playlists(
    p: SyncPreview,
    lib: LibraryModel,
    tracks: Seq<TrackView>,
    settings: SettingsView,
    scan: ScanModel,
    readable: Seq<Seq<char>>,
)
    requires
        previews(p, lib, tracks, settings, scan, readable),
    ensures
        playlist_refs(p.remove_playlist_items@).map_values(|r: PlaylistRef| r.filename)
            == settings.playlists_to_delete(),
        p.remove_playlists == settings.playlists_to_delete().len(),
{
    let shown = playlist_refs(p.remove_playlist_items@).map_values(|r: PlaylistRef| r.filename);
    assert(shown =~= settings.playlists_to_delete());
    assert(shown.len() == p.remove_playlist_items@.len());
}

} // verus!
