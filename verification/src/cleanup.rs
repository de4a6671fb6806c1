//! What a sync deletes from the device.
use std::collections::HashMap;

use vstd::hash_set::StringHashSet;
use vstd::prelude::*;

use crate::library::{Library, LibraryModel};
use crate::matching::{all_track_ids, file_views, DeviceFile, DeviceFileView};
use crate::order::{same_members, sorted_list_is_unique, sorted_texts, strictly_sorted};
use crate::playlist::{m3u_filename, playlist_models, Playlist, PlaylistModel};
use crate::scan::{is_m3u, is_m3u_path, LastScan, ScanModel};
use crate::settings::{PlaylistAction, RememberedView, Settings, SettingsView};
use crate::sync::checked_of;
use crate::text::{has_text, texts};
use crate::track::TrackView;
use crate::tracks::TrackMap;

verus! {

broadcast use vstd::std_specs::hash::group_hash_axioms;

impl SettingsView {
    /// The playlist files that a sync deletes: those of the remembered
    /// playlists that the user wants deleted.
    pub open spec fn playlists_to_delete(self) -> Seq<Seq<char>> {
        self.remembered_playlists.filter(
            |r: RememberedView| r.action == PlaylistAction::Delete,
        ).map_values(|r: RememberedView| m3u_filename(r.name))
    }
}

impl Settings {
    /// The playlist files that a sync deletes.
    pub fn playlists_to_delete(&self) -> (r: Vec<String>)
        ensures
            texts(r@) == self@.playlists_to_delete(),
    {
        let mut r: Vec<String> = Vec::new();
        let n: usize = self.remembered_playlists.len();
        let mut i: usize = 0;
        let ghost all = self@.remembered_playlists;
        let ghost keep = |r: RememberedView| r.action == PlaylistAction::Delete;
        let ghost f = |r: RememberedView| m3u_filename(r.name);
        proof {
            reveal(Seq::filter);
            assert(texts(r@) =~= all.take(0).filter(keep).map_values(f));
        }
        while i < n
            invariant
                n == self.remembered_playlists@.len(),
                all == self@.remembered_playlists,
                keep == (|r: RememberedView| r.action == PlaylistAction::Delete),
                f == (|r: RememberedView| m3u_filename(r.name)),
                i <= n,
                texts(r@) == all.take(i as int).filter(keep).map_values(f),
            decreases n - i,
        {
            let ghost had = texts(r@);
            let ghost kept = all.take(i as int).filter(keep);
            proof {
                reveal(Seq::filter);
                assert(all.take(i + 1).drop_last() =~= all.take(i as int));
                assert(all.take(i + 1).last() == self.remembered_playlists@[i as int]@);
            }
            if self.remembered_playlists[i].action == PlaylistAction::Delete {
                let mut s: String = self.remembered_playlists[i].name.clone();
                s.append(".m3u");
                let ghost sv = s@;
                r.push(s);
                proof {
                    assert(texts(r@) =~= had.push(sv));
                    assert(kept.push(all[i as int]).map_values(f) =~= kept.map_values(f).push(sv));
                }
            }
            i = i + 1;
        }
        assert(all.take(n as int) =~= all);
        r
    }
}

/// The path of the first file of a size that is no playlist file.
pub open spec fn first_path_of_size(files: Seq<DeviceFileView>, size: u64) -> Option<Seq<char>>
    decreases files.len(),
{
    if files.len() == 0 {
        None
    } else {
        let before = first_path_of_size(files.drop_last(), size);
        let f = files.last();
        if before is Some {
            before
        } else if f.size == size && !is_m3u(f.path) {
            Some(f.path)
        } else {
            None
        }
    }
}

/// The path of the first file of each size that is no playlist file.
pub fn device_path_by_size(files: &Vec<DeviceFile>) -> (r: HashMap<u64, String>)
    ensures
        forall|size: u64| #[trigger]
            r@.contains_key(size) <==> first_path_of_size(file_views(files@), size) is Some,
        forall|size: u64| #[trigger]
            r@.contains_key(size) ==> first_path_of_size(file_views(files@), size) == Some(
                r@[size]@,
            ),
{
    let mut r: HashMap<u64, String> = HashMap::new();
    let n: usize = files.len();
    let mut i: usize = 0;
    let ghost all = file_views(files@);
    while i < n
        invariant
            n == files@.len(),
            all == file_views(files@),
            i <= n,
            forall|size: u64| #[trigger]
                r@.contains_key(size) <==> first_path_of_size(all.take(i as int), size) is Some,
            forall|size: u64| #[trigger]
                r@.contains_key(size) ==> first_path_of_size(all.take(i as int), size) == Some(
                    r@[size]@,
                ),
        decreases n - i,
    {
        let f: &DeviceFile = &files[i];
        let ghost before = r@;
        proof {
            assert(all.take(i + 1).drop_last() =~= all.take(i as int));
            assert(all.take(i + 1).last() == f@);
        }
        if !is_m3u_path(f.path.as_str()) {
            if !r.contains_key(&f.size) {
                r.insert(f.size, f.path.clone());
            }
        }
        proof {
            assert forall|size: u64| #[trigger]
                r@.contains_key(size) <==> first_path_of_size(all.take(i + 1), size) is Some by {
                assert(before.contains_key(size) <==> first_path_of_size(
                    all.take(i as int),
                    size,
                ) is Some);
            }
            assert forall|size: u64| #[trigger] r@.contains_key(size) implies first_path_of_size(
                all.take(i + 1),
                size,
            ) == Some(r@[size]@) by {
                assert(before.contains_key(size) <==> first_path_of_size(
                    all.take(i as int),
                    size,
                ) is Some);
            }
        }
        i = i + 1;
    }
    assert(all.take(n as int) =~= all);
    r
}

/// The path that is deleted for a track: none if the track is in a chosen
/// playlist, is not known, or has no file of its size on the device.
pub open spec fn cleanup_path(
    id: Seq<char>,
    tracks: Map<Seq<char>, TrackView>,
    chosen: Seq<Seq<char>>,
    files: Seq<DeviceFileView>,
) -> Option<Seq<char>> {
    if !chosen.contains(id) && tracks.contains_key(id) {
        first_path_of_size(files, tracks[id].size)
    } else {
        None
    }
}

/// The paths that are deleted for the playlists that are to be cleaned up, one
/// playlist after the other.
pub open spec fn cleanup_paths(
    playlists: Seq<PlaylistModel>,
    cleanup_ids: Seq<Seq<char>>,
    tracks: Map<Seq<char>, TrackView>,
    chosen: Seq<Seq<char>>,
    files: Seq<DeviceFileView>,
) -> Seq<Seq<char>>
    decreases playlists.len(),
{
    if playlists.len() == 0 {
        Seq::empty()
    } else {
        let before = cleanup_paths(playlists.drop_last(), cleanup_ids, tracks, chosen, files);
        let p = playlists.last();
        if cleanup_ids.contains(p.playlist_id) {
            before + p.track_ids.filter_map(
                |id: Seq<char>| cleanup_path(id, tracks, chosen, files),
            )
        } else {
            before
        }
    }
}

/// The files of the device that the last scan found to be no track's, if the
/// user wants them deleted, and the files of the playlists to be cleaned up.
pub open spec fn unwanted_paths(
    lib: LibraryModel,
    settings: SettingsView,
    scan: ScanModel,
) -> Seq<Seq<char>> {
    (if settings.delete_unused_songs {
        scan.unused
    } else {
        Seq::empty()
    }) + cleanup_paths(
        lib.playlists,
        settings.cleanup_playlist_ids,
        lib.tracks,
        all_track_ids(checked_of(lib.playlists)),
        scan.files,
    )
}

/// Whether a list holds the unwanted paths, in order and each once.
pub open spec fn lists_unwanted(
    paths: Seq<Seq<char>>,
    lib: LibraryModel,
    settings: SettingsView,
    scan: ScanModel,
) -> bool {
    strictly_sorted(paths) && same_members(paths, unwanted_paths(lib, settings, scan))
}

/// The IDs of the tracks of the chosen playlists.
pub fn chosen_track_ids(playlists: &Vec<Playlist>) -> (r: StringHashSet)
    ensures
        forall|id: Seq<char>| #[trigger]
            r@.contains(id) <==> all_track_ids(checked_of(playlist_models(playlists@))).contains(
                id,
            ),
{
    let mut r = StringHashSet::new();
    let n: usize = playlists.len();
    let mut i: usize = 0;
    let ghost all = playlist_models(playlists@);
    let ghost f = |p: PlaylistModel| p.checked;
    proof {
        reveal(Seq::filter);
        assert(all_track_ids(checked_of(all.take(0))) =~= Seq::empty());
    }
    while i < n
        invariant
            n == playlists@.len(),
            all == playlist_models(playlists@),
            f == (|p: PlaylistModel| p.checked),
            i <= n,
            forall|id: Seq<char>| #[trigger]
                r@.contains(id) <==> all_track_ids(checked_of(all.take(i as int))).contains(id),
        decreases n - i,
    {
        let p: &Playlist = &playlists[i];
        let ghost kept = checked_of(all.take(i as int));
        let ghost before = all_track_ids(kept);
        proof {
            reveal(Seq::filter);
            assert(all.take(i + 1).drop_last() =~= all.take(i as int));
            assert(all.take(i + 1).last() == p@);
        }
        if p.checked {
            let m: usize = p.track_ids.len();
            let mut j: usize = 0;
            let ghost ids = texts(p.track_ids@);
            assert(before + ids.take(0) =~= before);
            while j < m
                invariant
                    m == p.track_ids@.len(),
                    ids == texts(p.track_ids@),
                    j <= m,
                    forall|id: Seq<char>| #[trigger]
                        r@.contains(id) <==> (before + ids.take(j as int)).contains(id),
                decreases m - j,
            {
                let ghost had = r@;
                let ghost a = before + ids.take(j as int);
                let ghost x = p.track_ids@[j as int]@;
                r.insert(p.track_ids[j].clone());
                proof {
                    let b = before + ids.take(j + 1);
                    assert(b =~= a.push(x));
                    assert forall|id: Seq<char>| #[trigger] r@.contains(id) <==> b.contains(id) by {
                        assert(had.contains(id) <==> a.contains(id));
                        if a.contains(id) {
                            let k = choose|k: int| 0 <= k < a.len() && a[k] == id;
                            assert(b[k] == id);
                        }
                        if id == x {
                            assert(b[a.len() as int] == id);
                        }
                        if b.contains(id) {
                            let k = choose|k: int| 0 <= k < b.len() && b[k] == id;
                            if k < a.len() {
                                assert(a[k] == id);
                            }
                        }
                    }
                }
                j = j + 1;
            }
            proof {
                assert(ids.take(m as int) =~= ids);
                assert(kept.push(p@).drop_last() =~= kept);
            }
        }
        i = i + 1;
    }
    assert(all.take(n as int) =~= all);
    r
}

/// Adds the paths that are deleted for one playlist.
fn add_cleanup(
    found: &mut Vec<String>,
    ids: &Vec<String>,
    tracks: &TrackMap,
    chosen: &StringHashSet,
    by_size: &HashMap<u64, String>,
    Ghost(chosen_ids): Ghost<Seq<Seq<char>>>,
    Ghost(files): Ghost<Seq<DeviceFileView>>,
)
    requires
        forall|id: Seq<char>| #[trigger] chosen@.contains(id) <==> chosen_ids.contains(id),
        forall|size: u64| #[trigger]
            by_size@.contains_key(size) <==> first_path_of_size(files, size) is Some,
        forall|size: u64| #[trigger]
            by_size@.contains_key(size) ==> first_path_of_size(files, size) == Some(
                by_size@[size]@,
            ),
    ensures
        texts(final(found)@) == texts(old(found)@) + texts(ids@).filter_map(
            |id: Seq<char>| cleanup_path(id, tracks@, chosen_ids, files),
        ),
{
    let n: usize = ids.len();
    let mut i: usize = 0;
    let ghost before = texts(found@);
    let ghost all = texts(ids@);
    let ghost f = |id: Seq<char>| cleanup_path(id, tracks@, chosen_ids, files);
    assert(all.take(0).filter_map(f) =~= Seq::empty());
    assert(before + all.take(0).filter_map(f) =~= before);
    while i < n
        invariant
            n == ids@.len(),
            all == texts(ids@),
            f == (|id: Seq<char>| cleanup_path(id, tracks@, chosen_ids, files)),
            i <= n,
            forall|id: Seq<char>| #[trigger] chosen@.contains(id) <==> chosen_ids.contains(id),
            forall|size: u64| #[trigger]
                by_size@.contains_key(size) <==> first_path_of_size(files, size) is Some,
            forall|size: u64| #[trigger]
                by_size@.contains_key(size) ==> first_path_of_size(files, size) == Some(
                    by_size@[size]@,
                ),
            texts(found@) == before + all.take(i as int).filter_map(f),
        decreases n - i,
    {
        let ghost had = texts(found@);
        let ghost mapped = all.take(i as int).filter_map(f);
        let ghost id = ids@[i as int]@;
        proof {
            all.lemma_filter_map_take_succ(f, i as int);
            assert(chosen@.contains(id) <==> chosen_ids.contains(id));
        }
        if !chosen.contains(ids[i].as_str()) {
            if let Some(t) = tracks.get(ids[i].as_str()) {
                if let Some(path) = by_size.get(&t.size) {
                    found.push(path.clone());
                    proof {
                        assert(by_size@.contains_key(tracks@[id].size));
                        assert(f(id) == Some(path@));
                        assert(texts(found@) =~= had.push(path@));
                        assert(before + (mapped + seq![path@]) =~= had.push(path@));
                    }
                } else {
                    assert(!by_size@.contains_key(tracks@[id].size));
                    assert(f(id) is None);
                }
            } else {
                assert(f(id) is None);
            }
        } else {
            assert(f(id) is None);
        }
        proof {
            assert(all[i as int] == id);
            if f(id) is None {
                assert(all.take(i + 1).filter_map(f) =~= mapped);
            }
        }
        i = i + 1;
    }
    assert(all.take(n as int) =~= all);
}

/// The music files that a sync deletes, given the last scan: the unwanted
/// paths, in order and each once. Without a scan there are none.
pub fn tracks_to_delete(lib: &Library, settings: &Settings, scan: Option<&LastScan>) -> (r: Vec<
    String,
>)
    ensures
        match scan {
            Some(s) => lists_unwanted(texts(r@), lib@, settings@, s@),
            None => r@.len() == 0,
        },
{
    match scan {
        None => Vec::new(),
        Some(s) => {
            let mut found: Vec<String> = Vec::new();
            assert(texts(found@) =~= Seq::empty());
            if settings.delete_unused_songs {
                found = crate::text::clone_texts(&s.unused_device_paths);
            }
            let by_size: HashMap<u64, String> = device_path_by_size(&s.device_files);
            let chosen: StringHashSet = chosen_track_ids(&lib.playlists);
            let ghost start = texts(found@);
            let ghost chosen_ids = all_track_ids(checked_of(lib@.playlists));
            let ghost cleanup = settings@.cleanup_playlist_ids;
            let ghost files = s@.files;
            let n: usize = lib.playlists.len();
            let mut i: usize = 0;
            let ghost all = lib@.playlists;
            assert(start + cleanup_paths(all.take(0), cleanup, lib@.tracks, chosen_ids, files)
                =~= start);
            while i < n
                invariant
                    n == lib.playlists@.len(),
                    all == lib@.playlists,
                    cleanup == settings@.cleanup_playlist_ids,
                    files == s@.files,
                    chosen_ids == all_track_ids(checked_of(lib@.playlists)),
                    i <= n,
                    forall|id: Seq<char>| #[trigger]
                        chosen@.contains(id) <==> chosen_ids.contains(id),
                    forall|size: u64| #[trigger]
                        by_size@.contains_key(size) <==> first_path_of_size(files, size) is Some,
                    forall|size: u64| #[trigger]
                        by_size@.contains_key(size) ==> first_path_of_size(files, size) == Some(
                            by_size@[size]@,
                        ),
                    texts(found@) == start + cleanup_paths(
                        all.take(i as int),
                        cleanup,
                        lib@.tracks,
                        chosen_ids,
                        files,
                    ),
                decreases n - i,
            {
                let p: &Playlist = &lib.playlists[i];
                let ghost had = texts(found@);
                proof {
                    assert(all.take(i + 1).drop_last() =~= all.take(i as int));
                    assert(all.take(i + 1).last() == p@);
                }
                if has_text(&settings.cleanup_playlist_ids, p.playlist_id.as_str()) {
                    add_cleanup(
                        &mut found,
                        &p.track_ids,
                        &lib.tracks,
                        &chosen,
                        &by_size,
                        Ghost(chosen_ids),
                        Ghost(files),
                    );
                    proof {
                        let mapped = p@.track_ids.filter_map(
                            |id: Seq<char>| cleanup_path(id, lib@.tracks, chosen_ids, files),
                        );
                        let before = cleanup_paths(
                            all.take(i as int),
                            cleanup,
                            lib@.tracks,
                            chosen_ids,
                            files,
                        );
                        assert(start + before + mapped =~= start + (before + mapped));
                    }
                }
                i = i + 1;
            }
            assert(all.take(n as int) =~= all);
            sorted_texts(&found)
        },
    }
}

/// There is one list of the unwanted paths: what a preview shows as deleted is
/// what a sync with the same library, settings and scan deletes.
pub proof fn unwanted_list_is_unique(
    a: Seq<Seq<char>>,
    b: Seq<Seq<char>>,
    lib: LibraryModel,
    settings: SettingsView,
    scan: ScanModel,
)
    requires
        lists_unwanted(a, lib, settings, scan),
        lists_unwanted(b, lib, settings, scan),
    ensures
        a == b,
{
    let u = unwanted_paths(lib, settings, scan);
    assert forall|x: Seq<char>| #[trigger] a.contains(x) <==> b.contains(x) by {
        assert(a.contains(x) <==> u.contains(x));
        assert(b.contains(x) <==> u.contains(x));
    }
    sorted_list_is_unique(a, b);
}

/// Nothing is deleted without the user's word: with no playlist to be cleaned
/// up and the deletion of unused songs off, no music file is unwanted.
pub proof fn nothing_is_deleted_unasked(
    lib: LibraryModel,
    settings: SettingsView,
    scan: ScanModel,
)
    requires
        !settings.delete_unused_songs,
        settings.cleanup_playlist_ids.len() == 0,
    ensures
        unwanted_paths(lib, settings, scan).len() == 0,
{
    no_cleanup_without_flags(
        lib.playlists,
        settings.cleanup_playlist_ids,
        lib.tracks,
        all_track_ids(checked_of(lib.playlists)),
        scan.files,
    );
}

/// Without playlists to be cleaned up there is nothing to clean up.
proof fn no_cleanup_without_flags(
    playlists: Seq<PlaylistModel>,
    cleanup_ids: Seq<Seq<char>>,
    tracks: Map<Seq<char>, TrackView>,
    chosen: Seq<Seq<char>>,
    files: Seq<DeviceFileView>,
)
    requires
        cleanup_ids.len() == 0,
    ensures
        cleanup_paths(playlists, cleanup_ids, tracks, chosen, files).len() == 0,
    decreases playlists.len(),
{
    if playlists.len() > 0 {
        no_cleanup_without_flags(playlists.drop_last(), cleanup_ids, tracks, chosen, files);
    }
}

} // verus!
