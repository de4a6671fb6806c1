//! What the user is shown of the playlists: a table of those in the library,
//! and a list of those that are gone from it.
use std::collections::HashSet;

use vstd::hash_set::StringHashSet;
use vstd::prelude::*;

use crate::cleanup::chosen_track_ids;
use crate::library::{Library, LibraryModel};
use crate::matching::{
    all_track_ids, file_views, has_file_of_size, missing_ids, referenced_playlists,
    tracks_to_upload, DeviceFile, DeviceFileView,
};
use crate::playlist::{playlist_models, Playlist, PlaylistModel};
use crate::scan::{LastScan, ScanModel};
use crate::settings::{PlaylistAction, RememberedPlaylist, RememberedView, Settings, SettingsView};
use crate::sync::{checked_of, copy_ops};
use crate::text::{has_text, texts};
use crate::track::TrackView;
use crate::tracks::TrackMap;

verus! {

broadcast use vstd::std_specs::hash::group_hash_axioms;

// ---------------------------------------------------------------------------
// The table of playlists
// ---------------------------------------------------------------------------

/// A row of the table of playlists.
#[derive(Debug, PartialEq, Eq)]
pub struct PlaylistView {
    pub playlist_id: String,
    pub name: String,
    /// How many tracks it has in the library.
    pub track_count: usize,
    /// How many entries its file on the device has, if a scan found it.
    pub device_tracks_count: Option<usize>,
    /// How many of its tracks a sync would copy, each once, after a scan.
    pub tracks_to_copy: Option<usize>,
    pub checked: bool,
    /// For a playlist that is not chosen, after a scan: how many of its tracks
    /// are on the device and in no chosen playlist.
    pub cleanup_count: Option<usize>,
    /// Whether the user wants its tracks deleted from the device.
    pub cleanup_checked: bool,
}

/// A row of the table of playlists, over characters.
#[verifier::ext_equal]
pub struct PlaylistRow {
    pub playlist_id: Seq<char>,
    pub name: Seq<char>,
    pub track_count: nat,
    pub device_tracks_count: Option<nat>,
    pub tracks_to_copy: Option<nat>,
    pub checked: bool,
    pub cleanup_count: Option<nat>,
    pub cleanup_checked: bool,
}

/// A number that may be absent.
pub open spec fn opt_nat(o: Option<usize>) -> Option<nat> {
    match o {
        Some(n) => Some(n as nat),
        None => None,
    }
}

impl View for PlaylistView {
    type V = PlaylistRow;

    open spec fn view(&self) -> PlaylistRow {
        PlaylistRow {
            playlist_id: self.playlist_id@,
            name: self.name@,
            track_count: self.track_count as nat,
            device_tracks_count: opt_nat(self.device_tracks_count),
            tracks_to_copy: opt_nat(self.tracks_to_copy),
            checked: self.checked,
            cleanup_count: opt_nat(self.cleanup_count),
            cleanup_checked: self.cleanup_checked,
        }
    }
}

/// The rows of a table, over characters.
pub open spec fn rows(v: Seq<PlaylistView>) -> Seq<PlaylistRow> {
    v.map_values(|p: PlaylistView| p@)
}

/// A playlist that was chosen once and is no longer in the library.
#[derive(Debug, PartialEq, Eq)]
pub struct MissingPlaylistView {
    pub id: String,
    pub name: String,
    /// `ignore` or `delete`.
    pub action: String,
}

/// A playlist that is no longer in the library, over characters.
#[verifier::ext_equal]
pub struct MissingRow {
    pub id: Seq<char>,
    pub name: Seq<char>,
    pub action: Seq<char>,
}

impl View for MissingPlaylistView {
    type V = MissingRow;

    open spec fn view(&self) -> MissingRow {
        MissingRow { id: self.id@, name: self.name@, action: self.action@ }
    }
}

/// The playlists of a list, over characters.
pub open spec fn missing_rows(v: Seq<MissingPlaylistView>) -> Seq<MissingRow> {
    v.map_values(|m: MissingPlaylistView| m@)
}

/// Whether a track of a playlist that is not chosen could be deleted from the
/// device: it is in no chosen playlist, and the device has a file of its size.
pub open spec fn can_be_cleaned(
    id: Seq<char>,
    tracks: Map<Seq<char>, TrackView>,
    chosen: Seq<Seq<char>>,
    files: Seq<DeviceFileView>,
) -> bool {
    !chosen.contains(id) && tracks.contains_key(id) && has_file_of_size(tracks[id], files)
}

/// The row of a playlist.
pub open spec fn row_of(
    p: PlaylistModel,
    lib: LibraryModel,
    settings: SettingsView,
    scan: Option<ScanModel>,
) -> PlaylistRow {
    PlaylistRow {
        playlist_id: p.playlist_id,
        name: p.name,
        track_count: p.track_ids.len(),
        device_tracks_count: match scan {
            Some(s) => if s.line_counts.contains_key(p.name) {
                Some(s.line_counts[p.name])
            } else {
                None
            },
            None => None,
        },
        tracks_to_copy: match scan {
            Some(s) => Some(missing_ids(p.track_ids, lib.tracks).len()),
            None => None,
        },
        checked: p.checked,
        cleanup_count: match scan {
            Some(s) => if p.checked {
                None
            } else {
                Some(
                    p.track_ids.filter(
                        |id: Seq<char>|
                            can_be_cleaned(
                                id,
                                lib.tracks,
                                all_track_ids(checked_of(lib.playlists)),
                                s.files,
                            ),
                    ).len(),
                )
            },
            None => None,
        },
        cleanup_checked: settings.cleanup_playlist_ids.contains(p.playlist_id),
    }
}

/// The IDs of playlists.
pub open spec fn playlist_ids(playlists: Seq<PlaylistModel>) -> Seq<Seq<char>> {
    playlists.map_values(|p: PlaylistModel| p.playlist_id)
}

/// What an action is called.
pub open spec fn action_text(a: PlaylistAction) -> Seq<char> {
    match a {
        PlaylistAction::Ignore => "ignore"@,
        PlaylistAction::Delete => "delete"@,
    }
}

/// The remembered playlists that are no longer in the library.
pub open spec fn missing_playlists(lib: LibraryModel, settings: SettingsView) -> Seq<
    RememberedView,
> {
    settings.remembered_playlists.filter(
        |r: RememberedView| !playlist_ids(lib.playlists).contains(r.id),
    )
}

/// The list of the playlists that are no longer in the library.
pub open spec fn missing_list(lib: LibraryModel, settings: SettingsView) -> Seq<MissingRow> {
    missing_playlists(lib, settings).map_values(
        |r: RememberedView| MissingRow { id: r.id, name: r.name, action: action_text(r.action) },
    )
}

/// Counts the tracks of a playlist that a sync would copy, each once.
fn count_missing(p: &Playlist, tracks: &TrackMap) -> (n: usize)
    ensures
        n == missing_ids(p@.track_ids, tracks@).len(),
{
    let mut one: Vec<&Playlist> = Vec::new();
    one.push(p);
    let ids: Vec<String> = tracks_to_upload(one.as_slice(), tracks);
    proof {
        let models = referenced_playlists(one@);
        assert(models =~= seq![p@]);
        all_track_ids_of_one(p@);
        assert(texts(ids@).len() == ids@.len());
    }
    ids.len()
}

/// The IDs of one playlist alone are its own.
proof fn all_track_ids_of_one(p: PlaylistModel)
    ensures
        all_track_ids(seq![p]) == p.track_ids,
{
    assert(seq![p].drop_last() =~= Seq::empty());
    assert(all_track_ids(seq![p].drop_last()) =~= Seq::empty());
    assert(all_track_ids(seq![p]) =~= p.track_ids);
}

/// The sizes of files.
fn file_sizes(files: &Vec<DeviceFile>) -> (r: HashSet<u64>)
    ensures
        forall|size: u64| #[trigger]
            r@.contains(size) <==> exists|i: int|
                0 <= i < file_views(files@).len() && (#[trigger] file_views(files@)[i]).size
                    == size,
{
    let mut r: HashSet<u64> = HashSet::new();
    let n: usize = files.len();
    let mut i: usize = 0;
    let ghost all = file_views(files@);
    while i < n
        invariant
            n == files@.len(),
            all == file_views(files@),
            i <= n,
            forall|size: u64| #[trigger]
                r@.contains(size) <==> exists|j: int|
                    0 <= j < i && (#[trigger] all[j]).size == size,
        decreases n - i,
    {
        let ghost before = r@;
        let size: u64 = files[i].size;
        r.insert(size);
        proof {
            assert(all[i as int].size == size);
            assert forall|s: u64| #[trigger] r@.contains(s) <==> exists|j: int|
                0 <= j < i + 1 && (#[trigger] all[j]).size == s by {
                assert(before.contains(s) <==> exists|j: int|
                    0 <= j < i && (#[trigger] all[j]).size == s);
                if before.contains(s) {
                    let j = choose|j: int| 0 <= j < i && (#[trigger] all[j]).size == s;
                    assert(0 <= j < i + 1 && all[j].size == s);
                }
                if exists|j: int| 0 <= j < i + 1 && (#[trigger] all[j]).size == s {
                    let j = choose|j: int| 0 <= j < i + 1 && (#[trigger] all[j]).size == s;
                    if j < i {
                        assert(0 <= j < i && all[j].size == s);
                    }
                }
            }
        }
        i = i + 1;
    }
    r
}

/// Counts the tracks of a list that could be deleted from the device.
fn count_cleanable(
    ids: &Vec<String>,
    tracks: &TrackMap,
    chosen: &StringHashSet,
    sizes: &HashSet<u64>,
    Ghost(chosen_ids): Ghost<Seq<Seq<char>>>,
    Ghost(files): Ghost<Seq<DeviceFileView>>,
) -> (n: usize)
    requires
        forall|id: Seq<char>| #[trigger] chosen@.contains(id) <==> chosen_ids.contains(id),
        forall|size: u64| #[trigger]
            sizes@.contains(size) <==> exists|i: int|
                0 <= i < files.len() && (#[trigger] files[i]).size == size,
    ensures
        n == texts(ids@).filter(
            |id: Seq<char>| can_be_cleaned(id, tracks@, chosen_ids, files),
        ).len(),
{
    let total: usize = ids.len();
    let mut n: usize = 0;
    let mut i: usize = 0;
    let ghost all = texts(ids@);
    let ghost f = |id: Seq<char>| can_be_cleaned(id, tracks@, chosen_ids, files);
    proof {
        reveal(Seq::filter);
        assert(all.take(0).filter(f).len() == 0);
    }
    while i < total
        invariant
            total == ids@.len(),
            all == texts(ids@),
            f == (|id: Seq<char>| can_be_cleaned(id, tracks@, chosen_ids, files)),
            n <= i <= total,
            forall|id: Seq<char>| #[trigger] chosen@.contains(id) <==> chosen_ids.contains(id),
            forall|size: u64| #[trigger]
                sizes@.contains(size) <==> exists|i: int|
                    0 <= i < files.len() && (#[trigger] files[i]).size == size,
            n == all.take(i as int).filter(f).len(),
        decreases total - i,
    {
        let ghost id = ids@[i as int]@;
        proof {
            reveal(Seq::filter);
            assert(all.take(i + 1).drop_last() =~= all.take(i as int));
            assert(all.take(i + 1).last() == id);
            assert(chosen@.contains(id) <==> chosen_ids.contains(id));
        }
        if !chosen.contains(ids[i].as_str()) {
            if let Some(t) = tracks.get(ids[i].as_str()) {
                proof {
                    assert(sizes@.contains(t.size) <==> has_file_of_size(tracks@[id], files));
                }
                if sizes.contains(&t.size) {
                    n = n + 1;
                }
            }
        }
        i = i + 1;
    }
    assert(all.take(total as int) =~= all);
    n
}

/// What a scan may have found, over characters.
pub open spec fn opt_scan(scan: Option<&LastScan>) -> Option<ScanModel> {
    match scan {
        Some(s) => Some(s@),
        None => None,
    }
}

/// The row of one playlist.
fn build_row(
    p: &Playlist,
    lib: &Library,
    settings: &Settings,
    scan: Option<&LastScan>,
    chosen: &StringHashSet,
    sizes: &HashSet<u64>,
) -> (r: PlaylistView)
    requires
        forall|id: Seq<char>| #[trigger]
            chosen@.contains(id) <==> all_track_ids(checked_of(lib@.playlists)).contains(id),
        scan matches Some(s) ==> forall|size: u64| #[trigger]
            sizes@.contains(size) <==> exists|i: int|
                0 <= i < s@.files.len() && (#[trigger] s@.files[i]).size == size,
    ensures
        r@ == row_of(p@, lib@, settings@, opt_scan(scan)),
{
    let mut device_tracks_count: Option<usize> = None;
    let mut tracks_to_copy: Option<usize> = None;
    let mut cleanup_count: Option<usize> = None;
    if let Some(s) = scan {
        match s.device_playlist_line_counts.get(p.name.as_str()) {
            Some(n) => device_tracks_count = Some(*n),
            None => {},
        }
        tracks_to_copy = Some(count_missing(p, &lib.tracks));
        if !p.checked {
            let ghost chosen_ids = all_track_ids(checked_of(lib@.playlists));
            let ghost files = s@.files;
            cleanup_count = Some(
                count_cleanable(
                    &p.track_ids,
                    &lib.tracks,
                    chosen,
                    sizes,
                    Ghost(chosen_ids),
                    Ghost(files),
                ),
            );
        }
    }
    PlaylistView {
        playlist_id: p.playlist_id.clone(),
        name: p.name.clone(),
        track_count: p.track_ids.len(),
        device_tracks_count,
        tracks_to_copy,
        checked: p.checked,
        cleanup_count,
        cleanup_checked: has_text(&settings.cleanup_playlist_ids, p.playlist_id.as_str()),
    }
}

/// The IDs of the playlists of a library.
pub fn ids_of_playlists(playlists: &Vec<Playlist>) -> (r: StringHashSet)
    ensures
        forall|id: Seq<char>| #[trigger]
            r@.contains(id) <==> playlist_ids(playlist_models(playlists@)).contains(id),
{
    let mut r = StringHashSet::new();
    let n: usize = playlists.len();
    let mut i: usize = 0;
    let ghost all = playlist_ids(playlist_models(playlists@));
    while i < n
        invariant
            n == playlists@.len(),
            all == playlist_ids(playlist_models(playlists@)),
            i <= n,
            forall|id: Seq<char>| #[trigger]
                r@.contains(id) <==> all.take(i as int).contains(id),
        decreases n - i,
    {
        let ghost before = r@;
        r.insert(playlists[i].playlist_id.clone());
        proof {
            let a = all.take(i as int);
            let b = all.take(i + 1);
            let x = all[i as int];
            assert(b =~= a.push(x));
            assert forall|id: Seq<char>| #[trigger] r@.contains(id) <==> b.contains(id) by {
                assert(before.contains(id) <==> a.contains(id));
                if a.contains(id) {
                    let k = choose|k: int| 0 <= k < a.len() && a[k] == id;
                    assert(b[k] == id);
                }
                if id == x {
                    assert(b[a.len() as int] == id);
                }
                if b.contains(id) {
                    let k = choose|k: int| 0 <= k < b.len() && b[k] == id;
                    if k < a.len() {
                        assert(a[k] == id);
                    }
                }
            }
        }
        i = i + 1;
    }
    assert(all.take(n as int) =~= all);
    r
}

/// The list of the playlists that are no longer in the library.
fn build_missing(lib: &Library, settings: &Settings) -> (r: Vec<MissingPlaylistView>)
    ensures
        missing_rows(r@) == missing_list(lib@, settings@),
{
    let ids: StringHashSet = ids_of_playlists(&lib.playlists);
    let mut r: Vec<MissingPlaylistView> = Vec::new();
    let n: usize = settings.remembered_playlists.len();
    let mut i: usize = 0;
    let ghost all = settings@.remembered_playlists;
    let ghost keep = |r: RememberedView| !playlist_ids(lib@.playlists).contains(r.id);
    let ghost f = |r: RememberedView|
        MissingRow { id: r.id, name: r.name, action: action_text(r.action) };
    proof {
        reveal(Seq::filter);
        assert(missing_rows(r@) =~= all.take(0).filter(keep).map_values(f));
    }
    while i < n
        invariant
            n == settings.remembered_playlists@.len(),
            all == settings@.remembered_playlists,
            keep == (|r: RememberedView| !playlist_ids(lib@.playlists).contains(r.id)),
            f == (|r: RememberedView|
                (MissingRow { id: r.id, name: r.name, action: action_text(r.action) })),
            i <= n,
            forall|id: Seq<char>| #[trigger]
                ids@.contains(id) <==> playlist_ids(lib@.playlists).contains(id),
            missing_rows(r@) == all.take(i as int).filter(keep).map_values(f),
        decreases n - i,
    {
        let ghost had = missing_rows(r@);
        let ghost kept = all.take(i as int).filter(keep);
        let p: &RememberedPlaylist = &settings.remembered_playlists[i];
        proof {
            reveal(Seq::filter);
            assert(all.take(i + 1).drop_last() =~= all.take(i as int));
            assert(all.take(i + 1).last() == p@);
            assert(ids@.contains(p.id@) <==> playlist_ids(lib@.playlists).contains(p.id@));
        }
        if !ids.contains(p.id.as_str()) {
            let m = MissingPlaylistView {
                id: p.id.clone(),
                name: p.name.clone(),
                action: match p.action {
                    PlaylistAction::Ignore => "ignore".to_owned(),
                    PlaylistAction::Delete => "delete".to_owned(),
                },
            };
            let ghost mv = m@;
            r.push(m);
            proof {
                assert(mv == f(p@));
                assert(missing_rows(r@) =~= had.push(mv));
                assert(kept.push(p@).map_values(f) =~= kept.map_values(f).push(mv));
            }
        }
        i = i + 1;
    }
    assert(all.take(n as int) =~= all);
    r
}

/// The table of playlists, and the list of the playlists that are no longer in
/// the library.
pub fn build_views_with_scan(
    lib: &Library,
    settings: &Settings,
    last_scan: Option<&LastScan>,
) -> (r: (Vec<PlaylistView>, Vec<MissingPlaylistView>))
    ensures
        rows(r.0@) == lib@.playlists.map_values(
            |p: PlaylistModel| row_of(p, lib@, settings@, opt_scan(last_scan)),
        ),
        missing_rows(r.1@) == missing_list(lib@, settings@),
{
    let chosen: StringHashSet = chosen_track_ids(&lib.playlists);
    let sizes: HashSet<u64> = match last_scan {
        Some(s) => file_sizes(&s.device_files),
        None => HashSet::new(),
    };
    proof {
        if let Some(s) = last_scan {
            assert(s@.files == file_views(s.device_files@));
        }
    }
    let mut table: Vec<PlaylistView> = Vec::new();
    let n: usize = lib.playlists.len();
    let mut i: usize = 0;
    let ghost all = lib@.playlists.map_values(
        |p: PlaylistModel| row_of(p, lib@, settings@, opt_scan(last_scan)),
    );
    assert(rows(table@) =~= all.take(0));
    while i < n
        invariant
            n == lib.playlists@.len(),
            all == lib@.playlists.map_values(
                |p: PlaylistModel| row_of(p, lib@, settings@, opt_scan(last_scan)),
            ),
            i <= n,
            forall|id: Seq<char>| #[trigger]
                chosen@.contains(id) <==> all_track_ids(checked_of(lib@.playlists)).contains(id),
            last_scan matches Some(s) ==> forall|size: u64| #[trigger]
                sizes@.contains(size) <==> exists|i: int|
                    0 <= i < s@.files.len() && (#[trigger] s@.files[i]).size == size,
            rows(table@) == all.take(i as int),
        decreases n - i,
    {
        let ghost had = rows(table@);
        let row: PlaylistView = build_row(
            &lib.playlists[i],
            lib,
            settings,
            last_scan,
            &chosen,
            &sizes,
        );
        let ghost rv = row@;
        table.push(row);
        proof {
            assert(rows(table@) =~= had.push(rv));
            assert(all[i as int] == rv);
            assert(all.take(i + 1) =~= had.push(rv));
        }
        i = i + 1;
    }
    assert(all.take(n as int) =~= all);
    let missing: Vec<MissingPlaylistView> = build_missing(lib, settings);
    (table, missing)
}

// ---------------------------------------------------------------------------
// Laws
// ---------------------------------------------------------------------------

/// Where a playlist is the only chosen one, its row tells how many tracks a
/// sync copies.
pub proof fn row_counts_copies(
    p: PlaylistModel,
    lib: LibraryModel,
    settings: SettingsView,
    scan: ScanModel,
    root: Seq<char>,
)
    requires
        checked_of(lib.playlists) == seq![p],
    ensures
        row_of(p, lib, settings, Some(scan)).tracks_to_copy == Some(
            copy_ops(lib.playlists, lib.tracks, root).len(),
        ),
{
    all_track_ids_of_one(p);
}

} // verus!
