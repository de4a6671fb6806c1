//! The lines of a detailed log about the library and about the playlist files
//! of the device.
use vstd::prelude::*;
use vstd::utf8::encode_utf8;

use crate::library::{Library, LibraryModel};
use crate::numbers::{decimal, push_decimal};
use crate::order::{
    inserted_at, is_order, order_texts, same_members, sorted_by, sorted_list_is_unique,
    sorted_texts, strictly_sorted, text_less, text_less_irreflexive, text_less_total,
    text_less_transitive, text_order_is_order, TextOrder,
};
use crate::playlist::{playlist_models, Playlist, PlaylistModel};
use crate::protocol::{manifest_playlist_views, ManifestPlaylist, ManifestPlaylistView};
use crate::text::{
    chars_of, quote, quoted, split_is_not_empty, split_on, split_text, string_between, texts,
};
use crate::track::{Track, TrackView};
use crate::tracks::TrackMap;

verus! {

broadcast use vstd::std_specs::hash::group_hash_axioms;

// ---------------------------------------------------------------------------
// Values
// ---------------------------------------------------------------------------

/// `true` or `false`.
pub open spec fn bool_text(b: bool) -> Seq<char> {
    if b {
        "true"@
    } else {
        "false"@
    }
}

/// A number that may be negative.
pub open spec fn signed_decimal(n: int) -> Seq<char> {
    if n < 0 {
        "-"@ + decimal((-n) as nat)
    } else {
        decimal(n as nat)
    }
}

/// Adds a truth value to a text.
fn push_bool(s: &mut String, b: bool)
    ensures
        final(s)@ == old(s)@ + bool_text(b),
{
    if b {
        s.append("true");
    } else {
        s.append("false");
    }
}

/// Adds a number that may be negative to a text.
fn push_signed(s: &mut String, n: i64)
    ensures
        final(s)@ == old(s)@ + signed_decimal(n as int),
{
    if n < 0 {
        s.append("-");
        let m: u64 = (-(n + 1)) as u64 + 1;
        push_decimal(s, m);
        assert(s@ =~= old(s)@ + signed_decimal(n as int));
    } else {
        push_decimal(s, n as u64);
    }
}

/// Adds a text in quotes to a text.
pub fn push_quoted(s: &mut String, t: &str)
    ensures
        final(s)@ == old(s)@ + quoted(t@),
{
    let q: String = quote(t);
    s.append(q.as_str());
}

/// Adds a line to a list.
pub fn push_line(lines: &mut Vec<String>, line: String)
    ensures
        texts(final(lines)@) == texts(old(lines)@).push(line@),
{
    let ghost had = texts(lines@);
    let ghost lv = line@;
    lines.push(line);
    assert(texts(lines@) =~= had.push(lv));
}

// ---------------------------------------------------------------------------
// The library
// ---------------------------------------------------------------------------

/// The texts of a list in order, each once.
pub open spec fn in_order(v: Seq<Seq<char>>) -> Seq<Seq<char>> {
    choose|r: Seq<Seq<char>>| strictly_sorted(r) && same_members(r, v)
}

/// There is one such list.
pub proof fn in_order_is(r: Seq<Seq<char>>, v: Seq<Seq<char>>)
    requires
        strictly_sorted(r),
        same_members(r, v),
    ensures
        in_order(v) == r,
{
    let o = in_order(v);
    assert(strictly_sorted(o) && same_members(o, v));
    assert forall|x: Seq<char>| #[trigger] o.contains(x) <==> r.contains(x) by {
        assert(o.contains(x) <==> v.contains(x));
        assert(r.contains(x) <==> v.contains(x));
    }
    sorted_list_is_unique(o, r);
}

/// Whether a playlist comes before another: by name, then by ID.
pub open spec fn comes_before(a: PlaylistModel, b: PlaylistModel) -> bool {
    text_less(a.name, b.name) || (a.name == b.name && text_less(a.playlist_id, b.playlist_id))
}

/// The playlists by name, then by ID, and else as they were.
pub open spec fn playlists_in_order(v: Seq<PlaylistModel>) -> Seq<PlaylistModel> {
    sorted_by(v, |a: PlaylistModel, b: PlaylistModel| comes_before(a, b))
}

/// The order of playlists is one.
pub proof fn playlist_order_is_order()
    ensures
        is_order(|a: PlaylistModel, b: PlaylistModel| comes_before(a, b)),
{
    assert forall|a: PlaylistModel, b: PlaylistModel| #[trigger] comes_before(
        a,
        b,
    ) implies !comes_before(b, a) by {
        text_order_is_order(a.name, b.name, b.name);
        text_order_is_order(a.playlist_id, b.playlist_id, b.playlist_id);
        text_less_irreflexive(a.name);
    }
    assert forall|a: PlaylistModel, b: PlaylistModel, c: PlaylistModel|
        #![trigger comes_before(a, b), comes_before(c, b)]
        comes_before(a, b) && !comes_before(c, b) implies comes_before(a, c) by {
        text_order_is_order(a.name, b.name, c.name);
        text_order_is_order(a.playlist_id, b.playlist_id, c.playlist_id);
        text_less_total(b.name, c.name);
        text_less_total(a.name, c.name);
        text_less_irreflexive(b.name);
        if a.name == b.name && text_less(c.name, a.name) {
            assert(text_less(c.name, b.name));
        }
    }
}

/// One track of the library.
pub open spec fn track_line(t: TrackView) -> Seq<char> {
    "LIB_TRACK id="@ + t.id + " size="@ + decimal(t.size as nat) + " name="@ + quoted(t.name)
        + " artist="@ + quoted(t.artist) + " local="@ + quoted(t.local_path) + " device="@
        + quoted(t.device_path) + " on_device="@ + bool_text(t.on_device)
}

/// One playlist of the library.
pub open spec fn playlist_line(p: PlaylistModel) -> Seq<char> {
    "LIB_PLAYLIST id="@ + p.playlist_id + " name="@ + quoted(p.name) + " checked="@ + bool_text(
        p.checked,
    ) + " tracks="@ + decimal(p.track_ids.len())
}

/// One track of a playlist.
pub open spec fn item_line(
    playlist_id: Seq<char>,
    i: nat,
    id: Seq<char>,
    tracks: Map<Seq<char>, TrackView>,
) -> Seq<char> {
    let label = "  LIB_PLAYLIST_TRACK playlist_id="@ + playlist_id + " index="@ + decimal(i)
        + " track_id="@;
    if tracks.contains_key(id) {
        let t = tracks[id];
        label + t.id + " name="@ + quoted(t.name) + " artist="@ + quoted(t.artist) + " size="@
            + decimal(t.size as nat) + " local="@ + quoted(t.local_path) + " device="@ + quoted(
            t.device_path,
        )
    } else {
        label + id + " MISSING_FROM_LIBRARY"@
    }
}

/// A playlist and its tracks.
pub open spec fn playlist_lines(
    p: PlaylistModel,
    tracks: Map<Seq<char>, TrackView>,
) -> Seq<Seq<char>> {
    seq![playlist_line(p)] + Seq::new(
        p.track_ids.len(),
        |i: int| item_line(p.playlist_id, i as nat, p.track_ids[i], tracks),
    )
}

/// Playlists and their tracks, one after the other.
pub open spec fn playlists_lines(
    v: Seq<PlaylistModel>,
    tracks: Map<Seq<char>, TrackView>,
) -> Seq<Seq<char>>
    decreases v.len(),
{
    if v.len() == 0 {
        Seq::empty()
    } else {
        playlists_lines(v.drop_last(), tracks) + playlist_lines(v.last(), tracks)
    }
}

/// The first line about the library.
pub open spec fn library_header(path: Seq<char>, tracks: nat, playlists: nat) -> Seq<char> {
    "=== library load start: path="@ + quoted(path) + " tracks="@ + decimal(tracks)
        + " playlists="@ + decimal(playlists)
}

/// Everything about the library: the tracks by ID, then the playlists by name.
pub open spec fn library_lines(path: Seq<char>, lib: LibraryModel, ids: Seq<Seq<char>>) -> Seq<
    Seq<char>,
> {
    seq![library_header(path, lib.tracks.len(), lib.playlists.len())] + in_order(ids).map_values(
        |id: Seq<char>| track_line(lib.tracks[id]),
    ) + playlists_lines(playlists_in_order(lib.playlists), lib.tracks) + seq![
        "=== library load end"@,
    ]
}

/// Writes one track of the library.
fn write_track_line(t: &Track) -> (s: String)
    ensures
        s@ == track_line(t@),
{
    let mut s: String = "LIB_TRACK id=".to_owned();
    s.append(t.id.as_str());
    s.append(" size=");
    push_decimal(&mut s, t.size);
    s.append(" name=");
    push_quoted(&mut s, t.name.as_str());
    s.append(" artist=");
    push_quoted(&mut s, t.artist.as_str());
    s.append(" local=");
    push_quoted(&mut s, t.local_path.as_str());
    s.append(" device=");
    push_quoted(&mut s, t.device_path.as_str());
    s.append(" on_device=");
    push_bool(&mut s, t.on_device);
    s
}

/// Writes one track of a playlist.
fn write_item_line(playlist_id: &str, i: usize, id: &str, tracks: &TrackMap) -> (s: String)
    ensures
        s@ == item_line(playlist_id@, i as nat, id@, tracks@),
{
    let mut s: String = "  LIB_PLAYLIST_TRACK playlist_id=".to_owned();
    s.append(playlist_id);
    s.append(" index=");
    push_decimal(&mut s, i as u64);
    s.append(" track_id=");
    match tracks.get(id) {
        Some(t) => {
            s.append(t.id.as_str());
            s.append(" name=");
            push_quoted(&mut s, t.name.as_str());
            s.append(" artist=");
            push_quoted(&mut s, t.artist.as_str());
            s.append(" size=");
            push_decimal(&mut s, t.size);
            s.append(" local=");
            push_quoted(&mut s, t.local_path.as_str());
            s.append(" device=");
            push_quoted(&mut s, t.device_path.as_str());
        },
        None => {
            s.append(id);
            s.append(" MISSING_FROM_LIBRARY");
        },
    }
    s
}

/// Whether a playlist comes before another.
fn precedes(a: &Playlist, b: &Playlist) -> (r: bool)
    ensures
        r == comes_before(a@, b@),
{
    proof {
        text_less_irreflexive(a@.name);
        text_less_irreflexive(a@.playlist_id);
        text_less_irreflexive(b@.name);
    }
    match order_texts(a.name.as_str(), b.name.as_str()) {
        TextOrder::Before => true,
        TextOrder::Same => match order_texts(a.playlist_id.as_str(), b.playlist_id.as_str()) {
            TextOrder::Before => true,
            TextOrder::Same => false,
            TextOrder::After => {
                proof {
                    if text_less(a@.playlist_id, b@.playlist_id) {
                        text_less_transitive(a@.playlist_id, b@.playlist_id, a@.playlist_id);
                    }
                }
                false
            },
        },
        TextOrder::After => {
            proof {
                if text_less(a@.name, b@.name) {
                    text_less_transitive(a@.name, b@.name, a@.name);
                }
            }
            false
        },
    }
}

/// The playlists behind references, over characters.
pub open spec fn models_of(v: Seq<&Playlist>) -> Seq<PlaylistModel> {
    v.map_values(|p: &Playlist| p@)
}

/// The playlists by name, then by ID.
fn sort_playlists<'a>(v: &'a Vec<Playlist>) -> (r: Vec<&'a Playlist>)
    ensures
        models_of(r@) == playlists_in_order(playlist_models(v@)),
{
    let mut r: Vec<&'a Playlist> = Vec::new();
    let n: usize = v.len();
    let mut i: usize = 0;
    let ghost all = playlist_models(v@);
    assert(models_of(r@) =~= playlists_in_order(all.take(0)));
    while i < n
        invariant
            n == v@.len(),
            all == playlist_models(v@),
            i <= n,
            models_of(r@) == playlists_in_order(all.take(i as int)),
        decreases n - i,
    {
        let p: &'a Playlist = &v[i];
        let ghost before = models_of(r@);
        let mut k: usize = r.len();
        while k > 0 && precedes(p, r[k - 1])
            invariant
                k <= r@.len(),
                before == models_of(r@),
                forall|j: int| k <= j < r@.len() ==> comes_before(p@, #[trigger] before[j]),
            decreases k,
        {
            assert(before[k - 1] == r@[k - 1]@);
            k = k - 1;
        }
        proof {
            if k > 0 {
                assert(before[k - 1] == r@[k - 1]@);
            }
            inserted_at(
                before,
                p@,
                |a: PlaylistModel, b: PlaylistModel| comes_before(a, b),
                k as int,
            );
            assert(all.take(i + 1).drop_last() =~= all.take(i as int));
            assert(all.take(i + 1).last() == p@);
        }
        r.insert(k, p);
        assert(models_of(r@) =~= before.insert(k as int, p@));
        i = i + 1;
    }
    assert(all.take(n as int) =~= all);
    r
}

/// Writes a playlist and its tracks.
fn write_playlist(lines: &mut Vec<String>, p: &Playlist, tracks: &TrackMap)
    ensures
        texts(final(lines)@) == texts(old(lines)@) + playlist_lines(p@, tracks@),
{
    let ghost before = texts(lines@);
    let n: usize = p.track_ids.len();
    let mut s: String = "LIB_PLAYLIST id=".to_owned();
    s.append(p.playlist_id.as_str());
    s.append(" name=");
    push_quoted(&mut s, p.name.as_str());
    s.append(" checked=");
    push_bool(&mut s, p.checked);
    s.append(" tracks=");
    push_decimal(&mut s, n as u64);
    push_line(lines, s);
    let ghost all = playlist_lines(p@, tracks@);
    let mut i: usize = 0;
    assert(before + all.take(1) =~= texts(lines@));
    while i < n
        invariant
            n == p.track_ids@.len(),
            all == playlist_lines(p@, tracks@),
            i <= n,
            texts(lines@) == before + all.take(i + 1),
        decreases n - i,
    {
        let ghost had = texts(lines@);
        let line: String = write_item_line(
            p.playlist_id.as_str(),
            i,
            p.track_ids[i].as_str(),
            tracks,
        );
        let ghost lv = line@;
        push_line(lines, line);
        proof {
            assert(all[i + 1] == lv);
            assert(before + all.take(i + 2) =~= had.push(lv));
        }
        i = i + 1;
    }
    assert(all.take(n + 1) =~= all);
}

/// The lines about the library, if the log is a detailed one.
pub fn log_library_inventory(verbose: bool, library_path: &str, lib: &Library) -> (r: Vec<String>)
    ensures
        texts(r@) == if verbose {
            library_lines(library_path@, lib@, lib.tracks.keys())
        } else {
            Seq::empty()
        },
{
    let mut lines: Vec<String> = Vec::new();
    assert(texts(lines@) =~= Seq::empty());
    if !verbose {
        return lines;
    }
    let count: usize = lib.tracks.len();
    let mut s: String = "=== library load start: path=".to_owned();
    push_quoted(&mut s, library_path);
    s.append(" tracks=");
    push_decimal(&mut s, count as u64);
    s.append(" playlists=");
    push_decimal(&mut s, lib.playlists.len() as u64);
    push_line(&mut lines, s);
    let ghost header = texts(lines@);
    // The tracks by ID.
    let mut keys: Vec<String> = Vec::new();
    let mut k: usize = 0;
    let ghost all_keys = lib.tracks.keys();
    assert(texts(keys@) =~= all_keys.take(0));
    while k < count
        invariant
            count == all_keys.len(),
            all_keys == lib.tracks.keys(),
            k <= count,
            texts(keys@) == all_keys.take(k as int),
        decreases count - k,
    {
        let ghost had = texts(keys@);
        push_line(&mut keys, lib.tracks.key_at(k).clone());
        assert(all_keys.take(k + 1) =~= had.push(all_keys[k as int]));
        k = k + 1;
    }
    assert(all_keys.take(count as int) =~= all_keys);
    let ids: Vec<String> = sorted_texts(&keys);
    proof {
        in_order_is(texts(ids@), all_keys);
    }
    let n: usize = ids.len();
    let mut i: usize = 0;
    let ghost track_part = texts(ids@).map_values(|id: Seq<char>| track_line(lib@.tracks[id]));
    assert(header + track_part.take(0) =~= header);
    while i < n
        invariant
            n == ids@.len(),
            same_members(texts(ids@), all_keys),
            all_keys == lib.tracks.keys(),
            track_part == texts(ids@).map_values(
                |id: Seq<char>| track_line(lib@.tracks[id]),
            ),
            i <= n,
            texts(lines@) == header + track_part.take(i as int),
        decreases n - i,
    {
        let ghost had = texts(lines@);
        let ghost id = ids@[i as int]@;
        proof {
            assert(texts(ids@)[i as int] == id);
            assert(texts(ids@).contains(id));
            assert(all_keys.contains(id));
            assert(lib@.tracks.contains_key(id));
        }
        if let Some(t) = lib.tracks.get(ids[i].as_str()) {
            let line: String = write_track_line(t);
            let ghost lv = line@;
            push_line(&mut lines, line);
            proof {
                assert(track_part[i as int] == lv);
                assert(header + track_part.take(i + 1) =~= had.push(lv));
            }
        }
        i = i + 1;
    }
    assert(track_part.take(n as int) =~= track_part);
    let ghost middle = texts(lines@);
    // The playlists by name.
    let sorted: Vec<&Playlist> = sort_playlists(&lib.playlists);
    let ghost pls = playlists_in_order(lib@.playlists);
    let m: usize = sorted.len();
    let mut j: usize = 0;
    assert(middle + playlists_lines(pls.take(0), lib@.tracks) =~= middle);
    while j < m
        invariant
            m == sorted@.len(),
            models_of(sorted@) == pls,
            j <= m,
            texts(lines@) == middle + playlists_lines(pls.take(j as int), lib@.tracks),
        decreases m - j,
    {
        proof {
            assert(pls.take(j + 1).drop_last() =~= pls.take(j as int));
            assert(pls.take(j + 1).last() == sorted@[j as int]@);
            let front = playlists_lines(pls.take(j as int), lib@.tracks);
            let last = playlist_lines(sorted@[j as int]@, lib@.tracks);
            assert(middle + front + last =~= middle + (front + last));
        }
        write_playlist(&mut lines, sorted[j], &lib.tracks);
        j = j + 1;
    }
    assert(pls.take(m as int) =~= pls);
    push_line(&mut lines, "=== library load end".to_owned());
    assert(texts(lines@) =~= library_lines(library_path@, lib@, all_keys));
    lines
}

// ---------------------------------------------------------------------------
// The playlist files of the device
// ---------------------------------------------------------------------------

/// A line without the carriage return at its end, if it has one.
pub open spec fn without_return(line: Seq<char>) -> Seq<char> {
    if line.len() > 0 && line.last() == '\r' {
        line.drop_last()
    } else {
        line
    }
}

/// The lines of a text. A line ends in a line feed, with or without a carriage
/// return in front; the last line need not end so.
pub open spec fn lines_of(s: Seq<char>) -> Seq<Seq<char>> {
    let parts = split_on(s, '\n');
    let ended = parts.drop_last().map_values(|line: Seq<char>| without_return(line));
    if parts.last().len() == 0 {
        ended
    } else {
        ended.push(parts.last())
    }
}

/// The lines of a text.
pub fn text_lines(s: &str) -> (r: Vec<String>)
    ensures
        texts(r@) == lines_of(s@),
{
    let parts: Vec<String> = split_text(s, '\n');
    let n: usize = parts.len();
    let ghost all = texts(parts@);
    proof {
        split_is_not_empty(s@, '\n');
    }
    let mut r: Vec<String> = Vec::new();
    let mut i: usize = 0;
    let ghost goal = all.drop_last().map_values(|line: Seq<char>| without_return(line));
    assert(texts(r@) =~= goal.take(0));
    while i < n - 1
        invariant
            n == parts@.len(),
            n > 0,
            all == texts(parts@),
            goal == all.drop_last().map_values(|line: Seq<char>| without_return(line)),
            i <= n - 1,
            texts(r@) == goal.take(i as int),
        decreases n - i,
    {
        let ghost had = texts(r@);
        let v: Vec<char> = chars_of(parts[i].as_str());
        let m: usize = v.len();
        let line: String = if m > 0 && v[m - 1] == '\r' {
            string_between(&v, 0, m - 1)
        } else {
            parts[i].clone()
        };
        proof {
            assert(goal[i as int] == without_return(parts@[i as int]@));
            assert(line@ =~= goal[i as int]);
            assert(goal.take(i + 1) =~= had.push(line@));
        }
        push_line(&mut r, line);
        i = i + 1;
    }
    proof {
        assert(goal.take(n - 1) =~= goal);
        assert(all.last() == parts@[n - 1]@);
    }
    if !parts[n - 1].as_str().is_empty() {
        push_line(&mut r, parts[n - 1].clone());
    }
    r
}

/// The playlist files by name, and else as they were.
pub open spec fn files_in_order(v: Seq<ManifestPlaylistView>) -> Seq<ManifestPlaylistView> {
    sorted_by(v, |a: ManifestPlaylistView, b: ManifestPlaylistView| text_less(a.name, b.name))
}

/// The order of playlist files is one.
pub proof fn file_order_is_order()
    ensures
        is_order(|a: ManifestPlaylistView, b: ManifestPlaylistView| text_less(a.name, b.name)),
{
    let less = |a: ManifestPlaylistView, b: ManifestPlaylistView| text_less(a.name, b.name);
    assert forall|a: ManifestPlaylistView, b: ManifestPlaylistView| #[trigger] less(
        a,
        b,
    ) implies !less(b, a) by {
        text_order_is_order(a.name, b.name, b.name);
    }
    assert forall|a: ManifestPlaylistView, b: ManifestPlaylistView, c: ManifestPlaylistView|
        #![trigger less(a, b), less(c, b)]
        less(a, b) && !less(c, b) implies less(a, c) by {
        text_order_is_order(a.name, b.name, c.name);
    }
}

/// The first line about a playlist file.
pub open spec fn file_header(p: ManifestPlaylistView) -> Seq<char> {
    "DEVICE_PLAYLIST name="@ + quoted(p.name) + " mtime="@ + signed_decimal(p.mtime as int)
        + " bytes="@ + decimal(encode_utf8(p.content).len()) + " content_start"@
}

/// One line of a playlist file.
pub open spec fn content_line(name: Seq<char>, i: nat, line: Seq<char>) -> Seq<char> {
    "  DEVICE_PLAYLIST_LINE name="@ + quoted(name) + " line="@ + decimal(i) + " text="@ + quoted(
        line,
    )
}

/// A playlist file and its lines.
pub open spec fn file_lines(p: ManifestPlaylistView) -> Seq<Seq<char>> {
    let lines = lines_of(p.content);
    seq![file_header(p)] + Seq::new(
        lines.len(),
        |i: int| content_line(p.name, i as nat, lines[i]),
    ) + (if p.content.len() == 0 {
        seq!["  DEVICE_PLAYLIST_LINE name="@ + quoted(p.name) + " EMPTY"@]
    } else {
        Seq::empty()
    }) + seq!["DEVICE_PLAYLIST name="@ + quoted(p.name) + " content_end"@]
}

/// Playlist files and their lines, one after the other.
pub open spec fn files_lines(v: Seq<ManifestPlaylistView>) -> Seq<Seq<char>>
    decreases v.len(),
{
    if v.len() == 0 {
        Seq::empty()
    } else {
        files_lines(v.drop_last()) + file_lines(v.last())
    }
}

/// Everything about the playlist files of the device, by name.
pub open spec fn manifest_lines(v: Seq<ManifestPlaylistView>) -> Seq<Seq<char>> {
    seq!["=== device playlist manifest start: "@ + decimal(v.len()) + " playlist files"@]
        + files_lines(files_in_order(v)) + seq!["=== device playlist manifest end"@]
}

/// The playlist files behind references, over characters.
pub open spec fn file_models_of(v: Seq<&ManifestPlaylist>) -> Seq<ManifestPlaylistView> {
    v.map_values(|p: &ManifestPlaylist| p@)
}

/// Whether a text comes before another.
fn text_precedes(a: &str, b: &str) -> (r: bool)
    ensures
        r == text_less(a@, b@),
{
    proof {
        text_less_irreflexive(a@);
        text_order_is_order(a@, b@, b@);
    }
    match order_texts(a, b) {
        TextOrder::Before => true,
        TextOrder::Same => false,
        TextOrder::After => false,
    }
}

/// The playlist files by name.
fn sort_files<'a>(v: &'a Vec<ManifestPlaylist>) -> (r: Vec<&'a ManifestPlaylist>)
    ensures
        file_models_of(r@) == files_in_order(manifest_playlist_views(v@)),
{
    let mut r: Vec<&'a ManifestPlaylist> = Vec::new();
    let n: usize = v.len();
    let mut i: usize = 0;
    let ghost all = manifest_playlist_views(v@);
    let ghost less = |a: ManifestPlaylistView, b: ManifestPlaylistView|
        text_less(a.name, b.name);
    assert(file_models_of(r@) =~= files_in_order(all.take(0)));
    while i < n
        invariant
            n == v@.len(),
            all == manifest_playlist_views(v@),
            less == (|a: ManifestPlaylistView, b: ManifestPlaylistView|
                text_less(a.name, b.name)),
            i <= n,
            file_models_of(r@) == files_in_order(all.take(i as int)),
        decreases n - i,
    {
        let p: &'a ManifestPlaylist = &v[i];
        let ghost before = file_models_of(r@);
        let mut k: usize = r.len();
        while k > 0 && text_precedes(p.name.as_str(), r[k - 1].name.as_str())
            invariant
                k <= r@.len(),
                before == file_models_of(r@),
                less == (|a: ManifestPlaylistView, b: ManifestPlaylistView|
                    text_less(a.name, b.name)),
                forall|j: int| k <= j < r@.len() ==> less(p@, #[trigger] before[j]),
            decreases k,
        {
            assert(before[k - 1] == r@[k - 1]@);
            k = k - 1;
        }
        proof {
            if k > 0 {
                assert(before[k - 1] == r@[k - 1]@);
            }
            inserted_at(before, p@, less, k as int);
            assert(all.take(i + 1).drop_last() =~= all.take(i as int));
            assert(all.take(i + 1).last() == p@);
        }
        r.insert(k, p);
        assert(file_models_of(r@) =~= before.insert(k as int, p@));
        i = i + 1;
    }
    assert(all.take(n as int) =~= all);
    r
}

/// Writes a playlist file and its lines.
fn write_file(lines: &mut Vec<String>, p: &ManifestPlaylist)
    ensures
        texts(final(lines)@) == texts(old(lines)@) + file_lines(p@),
{
    let ghost before = texts(lines@);
    let mut s: String = "DEVICE_PLAYLIST name=".to_owned();
    push_quoted(&mut s, p.name.as_str());
    s.append(" mtime=");
    push_signed(&mut s, p.mtime);
    s.append(" bytes=");
    push_decimal(&mut s, p.content.as_str().as_bytes().len() as u64);
    s.append(" content_start");
    assert(s@ =~= file_header(p@));
    push_line(lines, s);
    let content: Vec<String> = text_lines(p.content.as_str());
    let n: usize = content.len();
    let ghost body = Seq::new(
        lines_of(p@.content).len(),
        |i: int| content_line(p@.name, i as nat, lines_of(p@.content)[i]),
    );
    let ghost head = before.push(file_header(p@));
    let mut i: usize = 0;
    assert(head + body.take(0) =~= head);
    while i < n
        invariant
            n == content@.len(),
            texts(content@) == lines_of(p@.content),
            body == Seq::new(
                lines_of(p@.content).len(),
                |i: int| content_line(p@.name, i as nat, lines_of(p@.content)[i]),
            ),
            i <= n,
            texts(lines@) == head + body.take(i as int),
        decreases n - i,
    {
        let ghost had = texts(lines@);
        let mut t: String = "  DEVICE_PLAYLIST_LINE name=".to_owned();
        push_quoted(&mut t, p.name.as_str());
        t.append(" line=");
        push_decimal(&mut t, i as u64);
        t.append(" text=");
        push_quoted(&mut t, content[i].as_str());
        proof {
            assert(texts(content@)[i as int] == content@[i as int]@);
            assert(body[i as int] == t@);
            assert(head + body.take(i + 1) =~= had.push(t@));
        }
        push_line(lines, t);
        i = i + 1;
    }
    assert(body.take(n as int) =~= body);
    if p.content.as_str().is_empty() {
        let mut t: String = "  DEVICE_PLAYLIST_LINE name=".to_owned();
        push_quoted(&mut t, p.name.as_str());
        t.append(" EMPTY");
        push_line(lines, t);
    }
    let mut t: String = "DEVICE_PLAYLIST name=".to_owned();
    push_quoted(&mut t, p.name.as_str());
    t.append(" content_end");
    push_line(lines, t);
    assert(texts(lines@) =~= before + file_lines(p@));
}

/// The lines about the playlist files of the device, if the log is a detailed
/// one.
pub fn log_device_manifest_playlists(
    verbose: bool,
    device_playlists: &Vec<ManifestPlaylist>,
) -> (r: Vec<String>)
    ensures
        texts(r@) == if verbose {
            manifest_lines(manifest_playlist_views(device_playlists@))
        } else {
            Seq::empty()
        },
{
    let mut lines: Vec<String> = Vec::new();
    assert(texts(lines@) =~= Seq::empty());
    if !verbose {
        return lines;
    }
    let mut s: String = "=== device playlist manifest start: ".to_owned();
    push_decimal(&mut s, device_playlists.len() as u64);
    s.append(" playlist files");
    push_line(&mut lines, s);
    let ghost head = texts(lines@);
    let sorted: Vec<&ManifestPlaylist> = sort_files(device_playlists);
    let ghost all = files_in_order(manifest_playlist_views(device_playlists@));
    let n: usize = sorted.len();
    let mut i: usize = 0;
    assert(head + files_lines(all.take(0)) =~= head);
    while i < n
        invariant
            n == sorted@.len(),
            file_models_of(sorted@) == all,
            i <= n,
            texts(lines@) == head + files_lines(all.take(i as int)),
        decreases n - i,
    {
        proof {
            assert(all.take(i + 1).drop_last() =~= all.take(i as int));
            assert(all.take(i + 1).last() == sorted@[i as int]@);
            let front = files_lines(all.take(i as int));
            let last = file_lines(sorted@[i as int]@);
            assert(head + front + last =~= head + (front + last));
        }
        write_file(&mut lines, sorted[i]);
        i = i + 1;
    }
    assert(all.take(n as int) =~= all);
    push_line(&mut lines, "=== device playlist manifest end".to_owned());
    assert(texts(lines@) =~= manifest_lines(manifest_playlist_views(device_playlists@)));
    lines
}

} // verus!
