//! The lines of a detailed log about a scan of the device.
use std::collections::HashSet;

use vstd::prelude::*;

use crate::logs::{push_line, push_quoted};
use crate::matching::{file_views, DeviceFile, DeviceFileView};
use crate::numbers::{decimal, push_decimal};
use crate::text::{join_text, joined, quoted, texts};
use crate::track::{Track, TrackView};
use crate::tracks::TrackMap;

verus! {

broadcast use vstd::std_specs::hash::group_hash_axioms;

/// The sizes of files, each once, in the order of their first appearance.
pub open spec fn distinct_sizes(files: Seq<DeviceFileView>) -> Seq<u64>
    decreases files.len(),
{
    if files.len() == 0 {
        Seq::empty()
    } else {
        let before = distinct_sizes(files.drop_last());
        let size = files.last().size;
        if before.contains(size) {
            before
        } else {
            before.push(size)
        }
    }
}

/// The sizes that more than one file has, each once, in the order of their
/// second appearance.
pub open spec fn repeated_sizes(files: Seq<DeviceFileView>) -> Seq<u64>
    decreases files.len(),
{
    if files.len() == 0 {
        Seq::empty()
    } else {
        let before = repeated_sizes(files.drop_last());
        let size = files.last().size;
        if distinct_sizes(files.drop_last()).contains(size) && !before.contains(size) {
            before.push(size)
        } else {
            before
        }
    }
}

/// What stays in a list when one more is pushed.
proof fn pushed_size(v: Seq<u64>, x: u64, y: u64)
    ensures
        v.push(x).contains(y) <==> v.contains(y) || y == x,
{
    if v.contains(y) {
        let k = choose|k: int| 0 <= k < v.len() && v[k] == y;
        assert(v.push(x)[k] == y);
    }
    if y == x {
        assert(v.push(x)[v.len() as int] == y);
    }
    if v.push(x).contains(y) && y != x {
        let k = choose|k: int| 0 <= k < v.push(x).len() && v.push(x)[k] == y;
        assert(v[k] == y);
    }
}

/// The sizes of files, and those that more than one has.
fn count_sizes(files: &Vec<DeviceFile>) -> (r: (Vec<u64>, Vec<u64>))
    ensures
        r.0@ == distinct_sizes(file_views(files@)),
        r.1@ == repeated_sizes(file_views(files@)),
{
    let mut seen: HashSet<u64> = HashSet::new();
    let mut twice: HashSet<u64> = HashSet::new();
    let mut distinct: Vec<u64> = Vec::new();
    let mut repeated: Vec<u64> = Vec::new();
    let n: usize = files.len();
    let mut i: usize = 0;
    let ghost all = file_views(files@);
    assert(all.take(0) =~= Seq::empty());
    while i < n
        invariant
            n == files@.len(),
            all == file_views(files@),
            i <= n,
            distinct@ == distinct_sizes(all.take(i as int)),
            repeated@ == repeated_sizes(all.take(i as int)),
            forall|s: u64| #[trigger] seen@.contains(s) <==> distinct@.contains(s),
            forall|s: u64| #[trigger] twice@.contains(s) <==> repeated@.contains(s),
        decreases n - i,
    {
        let size: u64 = files[i].size;
        let ghost d = distinct@;
        let ghost r = repeated@;
        let ghost had_seen = seen@;
        let ghost had_twice = twice@;
        proof {
            assert(all.take(i + 1).drop_last() =~= all.take(i as int));
            assert(all.take(i + 1).last() == files@[i as int]@);
            assert(seen@.contains(size) <==> d.contains(size));
            assert(twice@.contains(size) <==> r.contains(size));
            assert forall|s: u64| d.push(size).contains(s) <==> d.contains(s) || s == size by {
                pushed_size(d, size, s);
            }
            assert forall|s: u64| r.push(size).contains(s) <==> r.contains(s) || s == size by {
                pushed_size(r, size, s);
            }
        }
        if seen.insert(size) {
            distinct.push(size);
        } else if twice.insert(size) {
            repeated.push(size);
        }
        proof {
            assert forall|s: u64| #[trigger] seen@.contains(s) <==> distinct@.contains(s) by {
                assert(had_seen.contains(s) <==> d.contains(s));
            }
            assert forall|s: u64| #[trigger] twice@.contains(s) <==> repeated@.contains(s) by {
                assert(had_twice.contains(s) <==> r.contains(s));
            }
        }
        i = i + 1;
    }
    assert(all.take(n as int) =~= all);
    (distinct, repeated)
}

/// The first line about a scan.
pub open spec fn scan_header(tracks: nat, files: nat) -> Seq<char> {
    "=== scan_device start: "@ + decimal(tracks) + " iTunes tracks, "@ + decimal(files)
        + " device files"@
}

/// The line about the sizes of the files.
pub open spec fn size_line(files: Seq<DeviceFileView>) -> Seq<char> {
    "device file size distribution: "@ + decimal(distinct_sizes(files).len()) + " unique sizes, "@
        + decimal(repeated_sizes(files).len()) + " duplicates"@
}

/// One file of the device.
pub open spec fn file_line(i: nat, f: DeviceFileView) -> Seq<char> {
    "  device["@ + decimal(i) + "] size="@ + decimal(f.size as nat) + " path="@ + quoted(f.path)
}

/// What the device has.
pub open spec fn scan_lines(tracks: nat, files: Seq<DeviceFileView>) -> Seq<Seq<char>> {
    seq![scan_header(tracks, files.len()), size_line(files)] + Seq::new(
        files.len(),
        |i: int| file_line(i as nat, files[i]),
    )
}

/// The lines about what the device has. `tracks` is the number of tracks of the
/// library.
pub fn log_scan_start(tracks: usize, files: &Vec<DeviceFile>) -> (r: Vec<String>)
    ensures
        texts(r@) == scan_lines(tracks as nat, file_views(files@)),
{
    let mut lines: Vec<String> = Vec::new();
    assert(texts(lines@) =~= Seq::empty());
    let ghost all = file_views(files@);
    let n: usize = files.len();
    let mut s: String = "=== scan_device start: ".to_owned();
    push_decimal(&mut s, tracks as u64);
    s.append(" iTunes tracks, ");
    push_decimal(&mut s, n as u64);
    s.append(" device files");
    push_line(&mut lines, s);
    let (distinct, repeated) = count_sizes(files);
    let mut t: String = "device file size distribution: ".to_owned();
    push_decimal(&mut t, distinct.len() as u64);
    t.append(" unique sizes, ");
    push_decimal(&mut t, repeated.len() as u64);
    t.append(" duplicates");
    push_line(&mut lines, t);
    let ghost head = texts(lines@);
    let ghost body = Seq::new(all.len(), |i: int| file_line(i as nat, all[i]));
    let mut i: usize = 0;
    assert(head + body.take(0) =~= head);
    while i < n
        invariant
            n == files@.len(),
            all == file_views(files@),
            body == Seq::new(all.len(), |i: int| file_line(i as nat, all[i])),
            i <= n,
            texts(lines@) == head + body.take(i as int),
        decreases n - i,
    {
        let ghost had = texts(lines@);
        let mut u: String = "  device[".to_owned();
        push_decimal(&mut u, i as u64);
        u.append("] size=");
        push_decimal(&mut u, files[i].size);
        u.append(" path=");
        push_quoted(&mut u, files[i].path.as_str());
        proof {
            assert(all[i as int] == files@[i as int]@);
            assert(body[i as int] == u@);
            assert(head + body.take(i + 1) =~= had.push(u@));
        }
        push_line(&mut lines, u);
        i = i + 1;
    }
    assert(body.take(n as int) =~= body);
    assert(texts(lines@) =~= scan_lines(tracks as nat, all));
    lines
}

// ---------------------------------------------------------------------------
// How tracks were matched
// ---------------------------------------------------------------------------

/// Whether two sizes differ by less than 1024 bytes.
pub open spec fn is_near(a: u64, b: u64) -> bool {
    -1024 < a - b < 1024
}

/// The sizes near a size, as far as there is room for them.
pub open spec fn nearby_sizes(sizes: Seq<u64>, size: u64) -> Seq<u64> {
    let near = sizes.filter(|s: u64| is_near(s, size));
    if near.len() > 5 {
        near.take(5)
    } else {
        near
    }
}

/// Numbers in square brackets.
pub open spec fn list_text(v: Seq<u64>) -> Seq<char> {
    "["@ + joined(v.map_values(|n: u64| decimal(n as nat)), ", "@) + "]"@
}

/// How a track was matched. `sizes` are those of the files of the device.
pub open spec fn match_line(t: TrackView, sizes: Seq<u64>) -> Seq<char> {
    if t.on_device {
        "MATCHED  track id="@ + t.id + " size="@ + decimal(t.size as nat) + " name="@ + quoted(
            t.name,
        ) + " -> some device file with size "@ + decimal(t.size as nat)
    } else {
        "MISSING  track id="@ + t.id + " size="@ + decimal(t.size as nat) + " name="@ + quoted(
            t.name,
        ) + " local="@ + quoted(t.local_path) + " | nearby device sizes (±1KB): "@ + list_text(
            nearby_sizes(sizes, t.size),
        )
    }
}

/// The last line about the matching.
pub open spec fn match_summary(matched: nat, total: nat) -> Seq<char> {
    "=== matching summary: "@ + decimal(matched) + " matched, "@ + decimal((total - matched) as nat)
        + " unmatched (out of "@ + decimal(total) + ")"@
}

/// How the tracks were matched.
pub open spec fn match_lines(tracks: Seq<TrackView>, files: Seq<DeviceFileView>) -> Seq<Seq<char>> {
    tracks.map_values(|t: TrackView| match_line(t, distinct_sizes(files))).push(
        match_summary(
            tracks.filter(|t: TrackView| t.on_device).len(),
            tracks.len(),
        ),
    )
}

/// The sizes near a size, as far as there is room for them.
fn find_nearby(sizes: &Vec<u64>, size: u64) -> (r: Vec<u64>)
    ensures
        r@ == nearby_sizes(sizes@, size),
{
    let mut r: Vec<u64> = Vec::new();
    let n: usize = sizes.len();
    let mut i: usize = 0;
    let ghost f = |s: u64| is_near(s, size);
    proof {
        reveal(Seq::filter);
        assert(r@ =~= sizes@.take(0).filter(f));
    }
    while i < n
        invariant
            n == sizes@.len(),
            f == (|s: u64| is_near(s, size)),
            i <= n,
            r@ == sizes@.take(i as int).filter(f),
        decreases n - i,
    {
        proof {
            reveal(Seq::filter);
            assert(sizes@.take(i + 1).drop_last() =~= sizes@.take(i as int));
        }
        let s: u64 = sizes[i];
        let near: bool = if s >= size {
            s - size < 1024
        } else {
            size - s < 1024
        };
        if near {
            r.push(s);
        }
        i = i + 1;
    }
    assert(sizes@.take(n as int) =~= sizes@);
    let ghost all = r@;
    r.truncate(5);
    assert(r@ =~= nearby_sizes(sizes@, size));
    r
}

/// Adds numbers in square brackets to a text.
fn push_list(s: &mut String, v: &Vec<u64>)
    ensures
        final(s)@ == old(s)@ + list_text(v@),
{
    let mut parts: Vec<String> = Vec::new();
    let n: usize = v.len();
    let mut i: usize = 0;
    let ghost all = v@.map_values(|n: u64| decimal(n as nat));
    assert(texts(parts@) =~= all.take(0));
    while i < n
        invariant
            n == v@.len(),
            all == v@.map_values(|n: u64| decimal(n as nat)),
            i <= n,
            texts(parts@) == all.take(i as int),
        decreases n - i,
    {
        let ghost had = texts(parts@);
        let t: String = crate::numbers::decimal_text(v[i]);
        assert(all.take(i + 1) =~= had.push(t@));
        push_line(&mut parts, t);
        i = i + 1;
    }
    assert(all.take(n as int) =~= all);
    let list: String = join_text(&parts, 0, ", ");
    assert(texts(parts@).skip(0) =~= texts(parts@));
    s.append("[");
    s.append(list.as_str());
    s.append("]");
    assert(s@ =~= old(s)@ + list_text(v@));
}

/// Writes how a track was matched.
fn write_match_line(t: &Track, sizes: &Vec<u64>) -> (s: String)
    ensures
        s@ == match_line(t@, sizes@),
{
    let mut s = String::new();
    if t.on_device {
        s.append("MATCHED  track id=");
    } else {
        s.append("MISSING  track id=");
    }
    s.append(t.id.as_str());
    s.append(" size=");
    push_decimal(&mut s, t.size);
    s.append(" name=");
    push_quoted(&mut s, t.name.as_str());
    if t.on_device {
        s.append(" -> some device file with size ");
        push_decimal(&mut s, t.size);
    } else {
        s.append(" local=");
        push_quoted(&mut s, t.local_path.as_str());
        s.append(" | nearby device sizes (±1KB): ");
        let near: Vec<u64> = find_nearby(sizes, t.size);
        push_list(&mut s, &near);
    }
    assert(s@ =~= match_line(t@, sizes@));
    s
}

/// The lines about how the tracks were matched.
pub fn log_matching(tracks: &TrackMap, files: &Vec<DeviceFile>) -> (r: Vec<String>)
    ensures
        texts(r@) == match_lines(tracks.tracks(), file_views(files@)),
{
    let mut lines: Vec<String> = Vec::new();
    let (sizes, _repeated) = count_sizes(files);
    let n: usize = tracks.len();
    let matched: usize = tracks.count_on_device();
    let ghost all = tracks.tracks();
    proof {
        all.lemma_filter_len(|t: TrackView| t.on_device);
    }
    let ghost body = all.map_values(|t: TrackView| match_line(t, sizes@));
    let mut i: usize = 0;
    assert(texts(lines@) =~= body.take(0));
    while i < n
        invariant
            n == tracks.keys().len(),
            n == all.len(),
            all == tracks.tracks(),
            body == all.map_values(|t: TrackView| match_line(t, sizes@)),
            i <= n,
            texts(lines@) == body.take(i as int),
        decreases n - i,
    {
        let ghost had = texts(lines@);
        let line: String = write_match_line(tracks.track_at(i), &sizes);
        proof {
            assert(body[i as int] == line@);
            assert(body.take(i + 1) =~= had.push(line@));
        }
        push_line(&mut lines, line);
        i = i + 1;
    }
    assert(body.take(n as int) =~= body);
    let mut s: String = "=== matching summary: ".to_owned();
    push_decimal(&mut s, matched as u64);
    s.append(" matched, ");
    push_decimal(&mut s, (n - matched) as u64);
    s.append(" unmatched (out of ");
    push_decimal(&mut s, n as u64);
    s.append(")");
    push_line(&mut lines, s);
    assert(texts(lines@) =~= match_lines(all, file_views(files@)));
    lines
}

/// The line about a device with another music root than before.
pub fn log_root_change(old_root: &str, new_root: &str, tracks: usize) -> (s: String)
    ensures
        s@ == "music_root changed: was "@ + quoted(old_root@) + ", now "@ + quoted(new_root@)
            + " — rebased "@ + decimal(tracks as nat) + " tracks"@,
{
    let mut s: String = "music_root changed: was ".to_owned();
    push_quoted(&mut s, old_root);
    s.append(", now ");
    push_quoted(&mut s, new_root);
    s.append(" — rebased ");
    push_decimal(&mut s, tracks as u64);
    s.append(" tracks");
    s
}

/// Each size is counted once.
pub proof fn sizes_are_counted_once(files: Seq<DeviceFileView>)
    ensures
        distinct_sizes(files).no_duplicates(),
        forall|s: u64| #[trigger]
            distinct_sizes(files).contains(s) <==> exists|i: int|
                0 <= i < files.len() && (#[trigger] files[i]).size == s,
    decreases files.len(),
{
    if files.len() > 0 {
        let front = files.drop_last();
        let before = distinct_sizes(front);
        let size = files.last().size;
        sizes_are_counted_once(front);
        assert forall|s: u64| #[trigger] distinct_sizes(files).contains(s) <==> exists|i: int|
            0 <= i < files.len() && (#[trigger] files[i]).size == s by {
            pushed_size(before, size, s);
            if before.contains(s) {
                let i = choose|i: int| 0 <= i < front.len() && (#[trigger] front[i]).size == s;
                assert(files[i].size == s);
            }
            if s == size {
                assert(files[files.len() - 1].size == s);
            }
            if exists|i: int| 0 <= i < files.len() && (#[trigger] files[i]).size == s {
                let i = choose|i: int| 0 <= i < files.len() && (#[trigger] files[i]).size == s;
                if i < front.len() {
                    assert(front[i].size == s);
                }
            }
        }
    }
}

} // verus!
