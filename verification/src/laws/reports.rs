//! Laws on the summary of a sync and on the lines of the log.
use vstd::prelude::*;
use vstd::utf8::*;

use crate::laws::texts::splitting_undoes_joining;
use crate::library::LibraryModel;
use crate::logs::{
    bool_text, comes_before, file_lines, file_order_is_order, files_in_order, files_lines, in_order,
    library_lines, lines_of, manifest_lines, playlist_lines, playlist_order_is_order,
    playlists_in_order, playlists_lines, signed_decimal, track_line, without_return,
};
use crate::matching::DeviceFileView;
use crate::numbers::decimal;
use crate::order::{sorting_is_exact, text_less};
use crate::playlist::PlaylistModel;
use crate::protocol::ManifestPlaylistView;
use crate::run::SyncReportView;
use crate::scan_log::{
    distinct_sizes, is_near, list_text, match_lines, nearby_sizes, repeated_sizes, scan_lines,
};
use crate::summary::{counted, present_part, summary_text, with_count};
use crate::text::{joined, quoted, split_on};
use crate::track::TrackView;
use crate::tracks::{all_rebased, marks_copied};

verus! {

/// What a report counts is named in the plural, but for one.
pub proof fn plural_is_used(n: nat, before: Seq<char>, thing: Seq<char>)
    ensures
        counted(1, before, thing) == before + decimal(1) + thing,
        n != 1 ==> counted(n, before, thing) == before + decimal(n) + thing + "s"@,
{
    assert(counted(1, before, thing) =~= before + decimal(1) + thing);
}

/// A summary tells how long the sync took, then of the tracks, the playlists
/// and the deletions, each only where there are any, then of what was there
/// already, and last of the errors, where there are any.
pub proof fn summary_tells_what_was_done(r: SyncReportView, duration: Seq<char>)
    ensures
        ({
            let first = seq!["Sync complete in "@ + duration + "."@];
            let none = Seq::<Seq<char>>::empty();
            let tracks = if r.uploaded_tracks > 0 {
                seq![counted(r.uploaded_tracks, "Copied "@, " track"@)]
            } else {
                none
            };
            let playlists = if r.uploaded_playlists > 0 {
                seq![counted(r.uploaded_playlists, "wrote "@, " playlist"@)]
            } else {
                none
            };
            let files = if r.deleted_files > 0 {
                seq![counted(r.deleted_files, "deleted "@, " file"@)]
            } else {
                none
            };
            let present = if r.uploaded_tracks > 0 || r.uploaded_playlists > 0 || r.deleted_files
                > 0 {
                decimal(r.already_present) + " already present"@
            } else {
                counted(r.already_present, "nothing to do — "@, " track"@) + " already on phone"@
            };
            let errors = if r.errors.len() > 0 {
                counted(r.errors.len(), " "@, " error"@) + ": "@ + joined(r.errors, "; "@)
            } else {
                Seq::empty()
            };
            summary_text(r, duration) == joined(
                first + tracks + playlists + files + seq![present],
                " · "@,
            ) + "."@ + errors
        }),
{
    let first = seq!["Sync complete in "@ + duration + "."@];
    let a = with_count(first, r.uploaded_tracks, "Copied "@, " track"@);
    let b = with_count(a, r.uploaded_playlists, "wrote "@, " playlist"@);
    let c = with_count(b, r.deleted_files, "deleted "@, " file"@);
    let none = Seq::<Seq<char>>::empty();
    let tracks = if r.uploaded_tracks > 0 {
        seq![counted(r.uploaded_tracks, "Copied "@, " track"@)]
    } else {
        none
    };
    let playlists = if r.uploaded_playlists > 0 {
        seq![counted(r.uploaded_playlists, "wrote "@, " playlist"@)]
    } else {
        none
    };
    let files = if r.deleted_files > 0 {
        seq![counted(r.deleted_files, "deleted "@, " file"@)]
    } else {
        none
    };
    assert(a =~= first + tracks);
    assert(b =~= first + tracks + playlists);
    assert(c =~= first + tracks + playlists + files);
    assert(c.push(present_part(r)) =~= c + seq![present_part(r)]);
}

/// A truth value and a signed number are written as they are said.
pub proof fn values_are_written(b: bool, n: nat)
    ensures
        bool_text(true) == "true"@,
        bool_text(false) == "false"@,
        signed_decimal(n as int) == decimal(n),
        n > 0 ==> signed_decimal(-(n as int)) == "-"@ + decimal(n),
{
}

/// The lines of a text are those that it was put together from, whether each
/// ends in a line feed alone or with a carriage return in front of it, and
/// whether the last one is ended or not.
pub proof fn lines_are_read(lines: Seq<Seq<char>>, last: Seq<char>)
    requires
        forall|i: int|
            0 <= i < lines.len() ==> !(#[trigger] lines[i]).contains('\n') && (lines[i].len() > 0
                ==> lines[i].last() != '\r'),
        !last.contains('\n'),
    ensures
        lines_of(joined(lines.push(last), seq!['\n'])) == (if last.len() == 0 {
            lines
        } else {
            lines.push(last)
        }),
        lines_of(
            joined(lines.map_values(|l: Seq<char>| l.push('\r')).push(last), seq!['\n']),
        ) == (if last.len() == 0 {
            lines
        } else {
            lines.push(last)
        }),
{
    let a = lines.push(last);
    let f = |l: Seq<char>| l.push('\r');
    let g = |l: Seq<char>| without_return(l);
    let r = lines.map_values(f);
    let b = r.push(last);
    assert forall|i: int| 0 <= i < a.len() implies !(#[trigger] a[i]).contains('\n') by {
        if i < lines.len() {
            assert(a[i] == lines[i]);
        }
    }
    assert forall|i: int| 0 <= i < b.len() implies !(#[trigger] b[i]).contains('\n') by {
        if i < lines.len() {
            let l = lines[i];
            assert(b[i] == l.push('\r'));
            if b[i].contains('\n') {
                let k = choose|k: int| 0 <= k < b[i].len() && b[i][k] == '\n';
                assert(l[k] == '\n');
                assert(l.contains('\n'));
            }
        }
    }
    splitting_undoes_joining(a, '\n');
    splitting_undoes_joining(b, '\n');
    assert(a.drop_last() =~= lines);
    assert(b.drop_last() =~= r);
    assert forall|i: int| 0 <= i < lines.len() implies without_return(#[trigger] lines[i])
        == lines[i] by {}
    assert(lines.map_values(g) =~= lines);
    assert forall|i: int| 0 <= i < r.len() implies without_return(#[trigger] r[i]) == lines[i] by {
        assert(r[i] == lines[i].push('\r'));
        assert(lines[i].push('\r').drop_last() =~= lines[i]);
    }
    assert(r.map_values(g) =~= lines);
}

/// Playlists are ordered by their names, and those of one name by their IDs;
/// none is lost or added.
pub proof fn playlists_are_put_in_order(v: Seq<PlaylistModel>, i: int, j: int)
    ensures
        playlists_in_order(v).to_multiset() == v.to_multiset(),
        0 <= i < j < playlists_in_order(v).len() ==> !text_less(
            playlists_in_order(v)[j].name,
            playlists_in_order(v)[i].name,
        ),
        0 <= i < j < playlists_in_order(v).len() && playlists_in_order(v)[i].name
            == playlists_in_order(v)[j].name ==> !text_less(
            playlists_in_order(v)[j].playlist_id,
            playlists_in_order(v)[i].playlist_id,
        ),
{
    let less = |a: PlaylistModel, b: PlaylistModel| comes_before(a, b);
    playlist_order_is_order();
    sorting_is_exact(v, less);
    if 0 <= i < j < playlists_in_order(v).len() {
        assert(!less(playlists_in_order(v)[j], playlists_in_order(v)[i]));
    }
}

/// Playlist files are ordered by their names; none is lost or added.
pub proof fn files_are_put_in_order(v: Seq<ManifestPlaylistView>, i: int, j: int)
    ensures
        files_in_order(v).to_multiset() == v.to_multiset(),
        0 <= i < j < files_in_order(v).len() ==> !text_less(
            files_in_order(v)[j].name,
            files_in_order(v)[i].name,
        ),
{
    let less = |a: ManifestPlaylistView, b: ManifestPlaylistView| text_less(a.name, b.name);
    file_order_is_order();
    sorting_is_exact(v, less);
    if 0 <= i < j < files_in_order(v).len() {
        assert(!less(files_in_order(v)[j], files_in_order(v)[i]));
    }
}

/// The log of a library tells where it was read, how much it holds, then of
/// each track and then of each playlist with its tracks in order, each line
/// with the values of what it tells of.
pub proof fn library_log_tells_everything(
    path: Seq<char>,
    lib: LibraryModel,
    ids: Seq<Seq<char>>,
    p: PlaylistModel,
    v: Seq<PlaylistModel>,
    t: TrackView,
    i: int,
)
    ensures
        library_lines(path, lib, ids) == seq![
            "=== library load start: path="@ + quoted(path) + " tracks="@ + decimal(
                lib.tracks.len(),
            ) + " playlists="@ + decimal(lib.playlists.len()),
        ] + in_order(ids).map_values(|id: Seq<char>| track_line(lib.tracks[id]))
            + playlists_lines(playlists_in_order(lib.playlists), lib.tracks) + seq![
            "=== library load end"@,
        ],
        track_line(t) == "LIB_TRACK id="@ + t.id + " size="@ + decimal(t.size as nat) + " name="@
            + quoted(t.name) + " artist="@ + quoted(t.artist) + " local="@ + quoted(t.local_path)
            + " device="@ + quoted(t.device_path) + " on_device="@ + bool_text(t.on_device),
        playlists_lines(v.push(p), lib.tracks) == playlists_lines(v, lib.tracks) + playlist_lines(
            p,
            lib.tracks,
        ),
        playlists_lines(Seq::empty(), lib.tracks).len() == 0,
        playlist_lines(p, lib.tracks).len() == 1 + p.track_ids.len(),
        playlist_lines(p, lib.tracks)[0] == "LIB_PLAYLIST id="@ + p.playlist_id + " name="@
            + quoted(p.name) + " checked="@ + bool_text(p.checked) + " tracks="@ + decimal(
            p.track_ids.len(),
        ),
        0 <= i < p.track_ids.len() ==> ({
            let id = p.track_ids[i];
            let label = "  LIB_PLAYLIST_TRACK playlist_id="@ + p.playlist_id + " index="@
                + decimal(i as nat) + " track_id="@;
            let line = playlist_lines(p, lib.tracks)[1 + i];
            &&& !lib.tracks.contains_key(id) ==> line == label + id + " MISSING_FROM_LIBRARY"@
            &&& lib.tracks.contains_key(id) ==> line == label + lib.tracks[id].id + " name="@
                + quoted(lib.tracks[id].name) + " artist="@ + quoted(lib.tracks[id].artist)
                + " size="@ + decimal(lib.tracks[id].size as nat) + " local="@ + quoted(
                lib.tracks[id].local_path,
            ) + " device="@ + quoted(lib.tracks[id].device_path)
        }),
{
    assert(v.push(p).drop_last() =~= v);
}

/// The log of the playlist files tells of each file in order: how large it is,
/// then line by line what it holds, and that it is empty where it is.
pub proof fn manifest_log_tells_everything(
    v: Seq<ManifestPlaylistView>,
    p: ManifestPlaylistView,
    i: int,
)
    ensures
        manifest_lines(v) == seq![
            "=== device playlist manifest start: "@ + decimal(v.len()) + " playlist files"@,
        ] + files_lines(files_in_order(v)) + seq!["=== device playlist manifest end"@],
        files_lines(Seq::empty()).len() == 0,
        files_lines(v.push(p)) == files_lines(v) + file_lines(p),
        file_lines(p)[0] == "DEVICE_PLAYLIST name="@ + quoted(p.name) + " mtime="@ + signed_decimal(
            p.mtime as int,
        ) + " bytes="@ + decimal(encode_utf8(p.content).len()) + " content_start"@,
        file_lines(p).last() == "DEVICE_PLAYLIST name="@ + quoted(p.name) + " content_end"@,
        0 <= i < lines_of(p.content).len() ==> file_lines(p)[1 + i]
            == "  DEVICE_PLAYLIST_LINE name="@ + quoted(p.name) + " line="@ + decimal(i as nat)
            + " text="@ + quoted(lines_of(p.content)[i]),
        p.content.len() > 0 ==> file_lines(p).len() == lines_of(p.content).len() + 2,
        p.content.len() == 0 ==> file_lines(p).len() == 3 && file_lines(p)[1]
            == "  DEVICE_PLAYLIST_LINE name="@ + quoted(p.name) + " EMPTY"@,
{
    assert(v.push(p).drop_last() =~= v);
    if p.content.len() == 0 {
        assert(p.content =~= Seq::empty());
        let parts = split_on(p.content, '\n');
        assert(parts =~= seq![Seq::<char>::empty()]);
        assert(parts.drop_last().len() == 0);
        assert(lines_of(p.content).len() == 0);
    }
}

/// Sizes are listed once, in the order in which they first appear.
pub proof fn sizes_are_listed_once(files: Seq<DeviceFileView>, f: DeviceFileView)
    ensures
        distinct_sizes(Seq::empty()).len() == 0,
        distinct_sizes(files.push(f)) == (if exists|i: int|
            0 <= i < files.len() && (#[trigger] files[i]).size == f.size {
            distinct_sizes(files)
        } else {
            distinct_sizes(files).push(f.size)
        }),
        repeated_sizes(Seq::empty()).len() == 0,
        repeated_sizes(files.push(f)) == (if (exists|i: int|
            0 <= i < files.len() && (#[trigger] files[i]).size == f.size) && !repeated_sizes(
            files,
        ).contains(f.size) {
            repeated_sizes(files).push(f.size)
        } else {
            repeated_sizes(files)
        }),
{
    assert(files.push(f).drop_last() =~= files);
    listed_sizes(files, f.size);
}

proof fn listed_sizes(files: Seq<DeviceFileView>, size: u64)
    ensures
        distinct_sizes(files).contains(size) <==> exists|i: int|
            0 <= i < files.len() && (#[trigger] files[i]).size == size,
    decreases files.len(),
{
    if files.len() > 0 {
        let front = files.drop_last();
        listed_sizes(front, size);
        let before = distinct_sizes(front);
        let all = distinct_sizes(files);
        if before.contains(size) {
            let k = choose|k: int| 0 <= k < before.len() && before[k] == size;
            assert(all[k] == size);
            let i = choose|i: int| 0 <= i < front.len() && (#[trigger] front[i]).size == size;
            assert(files[i].size == size);
        }
        if files.last().size == size {
            assert(files[files.len() - 1].size == size);
            if !before.contains(size) {
                assert(all[before.len() as int] == size);
            }
        }
        if all.contains(size) && !before.contains(size) {
            let k = choose|k: int| 0 <= k < all.len() && all[k] == size;
            if k < before.len() {
                assert(before[k] == size);
            }
        }
        if exists|i: int| 0 <= i < files.len() && (#[trigger] files[i]).size == size {
            let i = choose|i: int| 0 <= i < files.len() && (#[trigger] files[i]).size == size;
            if i < front.len() {
                assert(front[i].size == size);
            }
        }
    }
}

/// Sizes are near where they differ by less than 1024, and of those near a
/// size the first five are told.
pub proof fn near_sizes_are_told(sizes: Seq<u64>, s: u64, size: u64)
    ensures
        is_near(s, size) == (s < size + 1024 && size < s + 1024),
        nearby_sizes(Seq::empty(), size).len() == 0,
        nearby_sizes(sizes.push(s), size) == (if s < size + 1024 && size < s + 1024 && nearby_sizes(
            sizes,
            size,
        ).len() < 5 {
            nearby_sizes(sizes, size).push(s)
        } else {
            nearby_sizes(sizes, size)
        }),
{
    reveal(Seq::filter);
    let f = |x: u64| is_near(x, size);
    assert(sizes.push(s).drop_last() =~= sizes);
    let near = sizes.filter(f);
    if near.len() > 5 {
        assert(near.push(s).take(5) =~= near.take(5));
    } else if near.len() == 5 {
        assert(near.push(s).take(5) =~= near);
    }
}

/// The log of a scan tells how much there is and of each file, and that of the
/// matching of each track and how many are on the device and how many not.
pub proof fn scan_log_tells_everything(
    count: nat,
    files: Seq<DeviceFileView>,
    tracks: Seq<TrackView>,
    i: int,
)
    ensures
        scan_lines(count, files).len() == files.len() + 2,
        scan_lines(count, files)[0] == "=== scan_device start: "@ + decimal(count)
            + " iTunes tracks, "@ + decimal(files.len()) + " device files"@,
        scan_lines(count, files)[1] == "device file size distribution: "@ + decimal(
            distinct_sizes(files).len(),
        ) + " unique sizes, "@ + decimal(repeated_sizes(files).len()) + " duplicates"@,
        0 <= i < files.len() ==> scan_lines(count, files)[2 + i] == "  device["@ + decimal(i as nat)
            + "] size="@ + decimal(files[i].size as nat) + " path="@ + quoted(files[i].path),
        match_lines(tracks, files).len() == tracks.len() + 1,
        0 <= i < tracks.len() && tracks[i].on_device ==> match_lines(tracks, files)[i]
            == "MATCHED  track id="@ + tracks[i].id + " size="@ + decimal(tracks[i].size as nat)
            + " name="@ + quoted(tracks[i].name) + " -> some device file with size "@ + decimal(
            tracks[i].size as nat,
        ),
        0 <= i < tracks.len() && !tracks[i].on_device ==> match_lines(tracks, files)[i]
            == "MISSING  track id="@ + tracks[i].id + " size="@ + decimal(tracks[i].size as nat)
            + " name="@ + quoted(tracks[i].name) + " local="@ + quoted(tracks[i].local_path)
            + " | nearby device sizes (±1KB): "@ + list_text(
            nearby_sizes(distinct_sizes(files), tracks[i].size),
        ),
{
}

/// The last line about the matching tells how many tracks are on the device,
/// how many are not, and how many there are.
pub proof fn matches_add_up(tracks: Seq<TrackView>, files: Seq<DeviceFileView>)
    ensures
        match_lines(tracks, files).last() == "=== matching summary: "@ + decimal(
            tracks.filter(|t: TrackView| t.on_device).len(),
        ) + " matched, "@ + decimal(
            (tracks.len() - tracks.filter(|t: TrackView| t.on_device).len()) as nat,
        ) + " unmatched (out of "@ + decimal(tracks.len()) + ")"@,
{
}

/// A list of numbers stands in square brackets, with commas between them.
pub proof fn number_lists_are_written(v: Seq<u64>)
    ensures
        list_text(v) == "["@ + joined(v.map_values(|n: u64| decimal(n as nat)), ", "@) + "]"@,
{
}

/// Marks that are carried over are those of the tracks with the same IDs;
/// tracks without one, and everything else of the tracks, stay as they were.
pub proof fn marks_are_carried_over(
    tracks: Map<Seq<char>, TrackView>,
    from: Map<Seq<char>, TrackView>,
    id: Seq<char>,
)
    ensures
        marks_copied(tracks, from).contains_key(id) == tracks.contains_key(id),
        tracks.contains_key(id) && from.contains_key(id) ==> marks_copied(tracks, from)[id] == (
        TrackView { on_device: from[id].on_device, ..tracks[id] }),
        tracks.contains_key(id) && !from.contains_key(id) ==> marks_copied(tracks, from)[id]
            == tracks[id],
{
}

/// Moving all tracks moves each of them and loses none.
pub proof fn all_tracks_are_moved(
    tracks: Map<Seq<char>, TrackView>,
    old_root: Seq<char>,
    new_root: Seq<char>,
    id: Seq<char>,
)
    ensures
        all_rebased(tracks, old_root, new_root).contains_key(id) == tracks.contains_key(id),
        tracks.contains_key(id) ==> all_rebased(tracks, old_root, new_root)[id]
            == tracks[id].rebased(old_root, new_root),
{
}

} // verus!
