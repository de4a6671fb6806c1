//! Laws on the paths that a location gives a track.
use vstd::prelude::*;

use crate::laws::escapes::{
    escapes_suffice, file_url_names_its_path, no_bytes, partly_escaped, partly_escaped_bytes,
    partly_escaped_holds, partly_escaped_text_is_read_back, written,
};
use crate::laws::texts::{
    containing_is_exact, first_position_is_exact, joining_adds_parts, parts_hold_no_separator,
    splitting_undoes_joining,
};
use crate::text::{
    contains_text, has_prefix, joined, joined_split, split_is_not_empty, split_on, trimmed_end,
    trimmed_start,
};
use crate::track::{
    device_path_of, last_components, path_joined, track_of_fields, without_leading_dir, TrackView,
};
use crate::xml_helpers::{file_url_path, plain_front_is_kept, unescaped, unescaped_bytes};

verus! {

/// Whether a path begins with no slash and with none of the directories that
/// the device leaves out.
pub open spec fn begins_plainly(t: Seq<char>) -> bool {
    &&& t.len() > 0 ==> t[0] != '/'
    &&& !has_prefix(t, "Music/"@)
    &&& !has_prefix(t, "mp3/"@)
}

/// A path that begins plainly stands below the root as it is.
proof fn plain_path_is_joined(root: Seq<char>, t: Seq<char>)
    requires
        begins_plainly(t),
    ensures
        without_leading_dir(t, "Music"@) == t,
        without_leading_dir(t, "mp3"@) == t,
        path_joined(root, t) == trimmed_end(root, '/') + seq!['/'] + t,
{
    reveal_strlit("Music/");
    reveal_strlit("mp3/");
    reveal_strlit("Music");
    reveal_strlit("mp3");
    assert("Music"@ + seq!['/'] =~= "Music/"@);
    assert("mp3"@ + seq!['/'] =~= "mp3/"@);
    let a = seq!['/'] + "Music"@ + seq!['/'];
    let b = seq!['/'] + "mp3"@ + seq!['/'];
    if has_prefix(t, a) {
        assert(t.subrange(0, a.len() as int)[0] == a[0]);
    }
    if has_prefix(t, b) {
        assert(t.subrange(0, b.len() as int)[0] == b[0]);
    }
}

/// A location below the music folder is copied to the same path below the
/// device's music root, with its escapes resolved, whatever stands in front of
/// the folder. Directories `Music` and `mp3` at its start are left out, with or
/// without a slash in front of them.
pub proof fn location_in_the_folder(
    front: Seq<char>,
    folder: Seq<char>,
    dirs: Seq<char>,
    t: Seq<char>,
    plain: Seq<bool>,
    root: Seq<char>,
)
    requires
        dirs == ""@ || dirs == "Music/"@ || dirs == "/Music/"@ || dirs == "mp3/"@ || dirs
            == "/mp3/"@ || dirs == "Music/mp3/"@ || dirs == "/Music/mp3/"@,
        escapes_suffice(t, plain),
        begins_plainly(t),
        forall|j: int|
            0 <= j < front.len() ==> !has_prefix(
                #[trigger] (front + folder + (dirs + partly_escaped(t, plain))).skip(j),
                folder,
            ),
    ensures
        device_path_of(front + folder + (dirs + partly_escaped(t, plain)), folder, root)
            == trimmed_end(root, '/') + seq!['/'] + t,
{
    let raw = dirs + partly_escaped(t, plain);
    let location = front + folder + raw;
    first_position_is_exact(front, folder, raw);
    containing_is_exact(front, folder, raw);
    assert(location.skip(front.len() as int + folder.len() as int) =~= raw);
    resolved_behind(dirs, t, plain);
    let path = dirs + t;
    reveal_strlit("");
    reveal_strlit("Music/");
    reveal_strlit("/Music/");
    reveal_strlit("mp3/");
    reveal_strlit("/mp3/");
    reveal_strlit("Music/mp3/");
    reveal_strlit("/Music/mp3/");
    reveal_strlit("Music");
    reveal_strlit("mp3");
    let music = "Music"@;
    let mp3 = "mp3"@;
    plain_path_is_joined(root, t);
    if dirs == ""@ {
        assert(path =~= t);
    } else if dirs == "Music/"@ {
        directory_is_left_out_once(music, t);
        assert(music + seq!['/'] + t =~= path);
    } else if dirs == "/Music/"@ {
        directory_is_left_out_once(music, t);
        assert(seq!['/'] + music + seq!['/'] + t =~= path);
    } else if dirs == "mp3/"@ {
        other_dir(path, music);
        directory_is_left_out_once(mp3, t);
        assert(mp3 + seq!['/'] + t =~= path);
    } else if dirs == "/mp3/"@ {
        other_dir(path, music);
        directory_is_left_out_once(mp3, t);
        assert(seq!['/'] + mp3 + seq!['/'] + t =~= path);
    } else {
        let rest = mp3 + seq!['/'] + t;
        directory_is_left_out_once(music, rest);
        directory_is_left_out_once(mp3, t);
        if dirs == "Music/mp3/"@ {
            assert(music + seq!['/'] + rest =~= path);
        } else {
            assert(seq!['/'] + music + seq!['/'] + rest =~= path);
        }
    }
}

/// Plain directories in front of a partly escaped path.
proof fn resolved_behind(dirs: Seq<char>, t: Seq<char>, plain: Seq<bool>)
    requires
        dirs == ""@ || dirs == "Music/"@ || dirs == "/Music/"@ || dirs == "mp3/"@ || dirs
            == "/mp3/"@ || dirs == "Music/mp3/"@ || dirs == "/Music/mp3/"@,
        escapes_suffice(t, plain),
    ensures
        unescaped(dirs + partly_escaped(t, plain)) == dirs + t,
{
    reveal_strlit("");
    reveal_strlit("Music/");
    reveal_strlit("/Music/");
    reveal_strlit("mp3/");
    reveal_strlit("/mp3/");
    reveal_strlit("Music/mp3/");
    reveal_strlit("/Music/mp3/");
    assert forall|i: int| 0 <= i < dirs.len() implies dirs[i] != '&' && dirs[i] != '%' by {}
    resolved_behind_plain(dirs, t, plain);
}

/// A plain text in front of a partly escaped one.
proof fn resolved_behind_plain(p: Seq<char>, t: Seq<char>, plain: Seq<bool>)
    requires
        !p.contains('&'),
        !p.contains('%'),
        escapes_suffice(t, plain),
    ensures
        unescaped(p + partly_escaped(t, plain)) == p + t,
{
    partly_escaped_text_is_read_back(t, plain);
    partly_escaped_bytes(t, plain, Seq::empty());
    let e = partly_escaped(t, plain);
    assert(e + Seq::<char>::empty() =~= e);
    let none = Seq::<char>::empty();
    no_bytes();
    assert(vstd::utf8::encode_utf8(t) + unescaped_bytes(none) =~= vstd::utf8::encode_utf8(t));
    vstd::utf8::encode_utf8_valid_utf8(t);
    plain_front_is_kept(p, e);
}

/// A directory at the start of a path is left out once, with or without a
/// slash in front of it; a path that begins otherwise is kept.
pub proof fn directory_is_left_out_once(dir: Seq<char>, t: Seq<char>)
    requires
        dir.len() > 0,
        dir[0] != '/',
    ensures
        without_leading_dir(dir + seq!['/'] + t, dir) == t,
        without_leading_dir(seq!['/'] + dir + seq!['/'] + t, dir) == t,
        !has_prefix(t, dir + seq!['/']) && !has_prefix(t, seq!['/'] + dir + seq!['/'])
            ==> without_leading_dir(t, dir) == t,
{
    let a = dir + seq!['/'] + t;
    let b = seq!['/'] + dir + seq!['/'] + t;
    let long = seq!['/'] + dir + seq!['/'];
    let short = dir + seq!['/'];
    if has_prefix(a, long) {
        assert(a.subrange(0, long.len() as int)[0] == long[0]);
    }
    assert(a.subrange(0, short.len() as int) =~= short);
    assert(a.skip(dir.len() as int + 1) =~= t);
    assert(b.subrange(0, long.len() as int) =~= long);
    assert(b.skip(dir.len() as int + 2) =~= t);
}

/// A path with `mp3` at its start has no `Music` there.
proof fn other_dir(path: Seq<char>, dir: Seq<char>)
    requires
        dir == "Music"@,
        path.len() > 1,
        path[0] == 'm' || (path[0] == '/' && path[1] == 'm'),
    ensures
        without_leading_dir(path, dir) == path,
{
    reveal_strlit("Music");
    let long = seq!['/'] + dir + seq!['/'];
    let short = dir + seq!['/'];
    if has_prefix(path, long) {
        assert(path.subrange(0, long.len() as int)[0] == long[0]);
        assert(path.subrange(0, long.len() as int)[1] == long[1]);
    }
    if has_prefix(path, short) {
        assert(path.subrange(0, short.len() as int)[0] == short[0]);
    }
}

/// Two paths are joined with one slash, whatever slashes the one ends and the
/// other begins with.
pub proof fn paths_are_joined_with_one_slash(
    base: Seq<char>,
    a: Seq<char>,
    b: Seq<char>,
    rest: Seq<char>,
)
    requires
        base.len() > 0 ==> base.last() != '/',
        rest.len() > 0 ==> rest[0] != '/',
        forall|i: int| 0 <= i < a.len() ==> a[i] == '/',
        forall|i: int| 0 <= i < b.len() ==> b[i] == '/',
    ensures
        path_joined(base + a, b + rest) == base + seq!['/'] + rest,
{
    slashes_are_trimmed(b, rest);
    last_slashes_are_trimmed(base, a);
}

proof fn last_slashes_are_trimmed(base: Seq<char>, slashes: Seq<char>)
    requires
        base.len() > 0 ==> base.last() != '/',
        forall|i: int| 0 <= i < slashes.len() ==> slashes[i] == '/',
    ensures
        trimmed_end(base + slashes, '/') == base,
    decreases slashes.len(),
{
    if slashes.len() > 0 {
        last_slashes_are_trimmed(base, slashes.drop_last());
        assert((base + slashes).drop_last() =~= base + slashes.drop_last());
    } else {
        assert(base + slashes =~= base);
    }
}

/// Wherever a location lies, what decides on its path on the device is the
/// part behind the music folder, or else its last three components: that part
/// is resolved, then a directory `Music` and then a directory `mp3` are left
/// out at its start, and the rest is joined to the music root.
pub proof fn part_of_the_location_decides(
    front: Seq<char>,
    folder: Seq<char>,
    part: Seq<char>,
    c: Seq<Seq<char>>,
    root: Seq<char>,
)
    ensures
        (forall|j: int|
            0 <= j < front.len() ==> !has_prefix(#[trigger] (front + folder + part).skip(j), folder))
            ==> device_path_of(front + folder + part, folder, root) == path_joined(
            root,
            without_leading_dir(without_leading_dir(unescaped(part), "Music"@), "mp3"@),
        ),
        c.len() == 3 && !c[0].contains('/') && !c[1].contains('/') && !c[2].contains('/')
            && !contains_text(
            front + seq!['/'] + c[0] + seq!['/'] + c[1] + seq!['/'] + c[2],
            folder,
        ) ==> device_path_of(
            front + seq!['/'] + c[0] + seq!['/'] + c[1] + seq!['/'] + c[2],
            folder,
            root,
        ) == path_joined(
            root,
            without_leading_dir(
                without_leading_dir(
                    unescaped(c[0] + seq!['/'] + c[1] + seq!['/'] + c[2]),
                    "Music"@,
                ),
                "mp3"@,
            ),
        ),
        c.len() == 3 && !c[0].contains('/') && !c[1].contains('/') && !c[2].contains('/')
            && !contains_text(c[0] + seq!['/'] + c[1] + seq!['/'] + c[2], folder)
            ==> device_path_of(c[0] + seq!['/'] + c[1] + seq!['/'] + c[2], folder, root)
            == path_joined(
            root,
            without_leading_dir(
                without_leading_dir(
                    unescaped(c[0] + seq!['/'] + c[1] + seq!['/'] + c[2]),
                    "Music"@,
                ),
                "mp3"@,
            ),
        ),
{
    if forall|j: int|
        0 <= j < front.len() ==> !has_prefix(#[trigger] (front + folder + part).skip(j), folder) {
        first_position_is_exact(front, folder, part);
        containing_is_exact(front, folder, part);
        let location = front + folder + part;
        assert(location.skip(front.len() as int + folder.len() as int) =~= part);
    }
    if c.len() == 3 && !c[0].contains('/') && !c[1].contains('/') && !c[2].contains('/') {
        last_three(front, c[0], c[1], c[2]);
        let sep = seq!['/'];
        joining_adds_parts(Seq::empty(), c[0], sep);
        joining_adds_parts(seq![c[0]], c[1], sep);
        joining_adds_parts(seq![c[0], c[1]], c[2], sep);
        assert(seq![c[0]].push(c[1]) =~= seq![c[0], c[1]]);
        assert(seq![c[0], c[1]].push(c[2]) =~= c);
        assert forall|i: int| 0 <= i < c.len() implies !(#[trigger] c[i]).contains('/') by {
            assert(i == 0 || i == 1 || i == 2);
        }
        splitting_undoes_joining(c, '/');
        assert(c.skip(0) =~= c);
    }
}

/// A location outside the music folder is copied to its last three components
/// below the device's music root, with their escapes resolved, wherever the
/// location lies.
pub proof fn location_outside_the_folder(
    front: Seq<char>,
    c: Seq<Seq<char>>,
    plain: Seq<Seq<bool>>,
    folder: Seq<char>,
    root: Seq<char>,
)
    requires
        c.len() == 3,
        plain.len() == 3,
        escapes_suffice(c[0], plain[0]),
        escapes_suffice(c[1], plain[1]),
        escapes_suffice(c[2], plain[2]),
        !c[0].contains('/'),
        !c[1].contains('/'),
        !c[2].contains('/'),
        c[0].len() > 0,
        c[0] != "Music"@,
        c[0] != "mp3"@,
        !contains_text(
            front + seq!['/'] + partly_escaped(c[0], plain[0]) + seq!['/'] + partly_escaped(
                c[1],
                plain[1],
            ) + seq!['/'] + partly_escaped(c[2], plain[2]),
            folder,
        ),
    ensures
        device_path_of(
            front + seq!['/'] + partly_escaped(c[0], plain[0]) + seq!['/'] + partly_escaped(
                c[1],
                plain[1],
            ) + seq!['/'] + partly_escaped(c[2], plain[2]),
            folder,
            root,
        ) == trimmed_end(root, '/') + seq!['/'] + c[0] + seq!['/'] + c[1] + seq!['/'] + c[2],
{
    let e0 = partly_escaped(c[0], plain[0]);
    let e1 = partly_escaped(c[1], plain[1]);
    let e2 = partly_escaped(c[2], plain[2]);
    partly_escaped_holds(c[0], plain[0]);
    partly_escaped_holds(c[1], plain[1]);
    partly_escaped_holds(c[2], plain[2]);
    let location = front + seq!['/'] + e0 + seq!['/'] + e1 + seq!['/'] + e2;
    last_three(front, e0, e1, e2);
    let raw = e0 + seq!['/'] + e1 + seq!['/'] + e2;
    let t = c[0] + seq!['/'] + c[1] + seq!['/'] + c[2];
    three_escaped(c, plain);
    begins_with_component(c[0], seq!['/'] + c[1] + seq!['/'] + c[2]);
    assert(c[0] + (seq!['/'] + c[1] + seq!['/'] + c[2]) =~= t);
    plain_path_is_joined(root, t);
    let base = trimmed_end(root, '/') + seq!['/'];
    assert(base + t =~= base + c[0] + seq!['/'] + c[1] + seq!['/'] + c[2]);
}

/// A path whose first component is neither of the two directories begins
/// plainly.
proof fn begins_with_component(c: Seq<char>, rest: Seq<char>)
    requires
        c.len() > 0,
        !c.contains('/'),
        c != "Music"@,
        c != "mp3"@,
        rest.len() > 0,
        rest[0] == '/',
    ensures
        begins_plainly(c + rest),
{
    reveal_strlit("Music/");
    reveal_strlit("mp3/");
    reveal_strlit("Music");
    reveal_strlit("mp3");
    let t = c + rest;
    assert(c.contains(c[0]));
    assert("Music/"@ =~= "Music"@ + seq!['/']);
    assert("mp3/"@ =~= "mp3"@ + seq!['/']);
    first_component_differs(c, rest, "Music"@, "Music/"@);
    first_component_differs(c, rest, "mp3"@, "mp3/"@);
}

proof fn first_component_differs(c: Seq<char>, rest: Seq<char>, dir: Seq<char>, with: Seq<char>)
    requires
        !c.contains('/'),
        !dir.contains('/'),
        c != dir,
        rest.len() > 0,
        rest[0] == '/',
        with == dir + seq!['/'],
    ensures
        !has_prefix(c + rest, with),
{
    let t = c + rest;
    if has_prefix(t, with) {
        let head = t.subrange(0, with.len() as int);
        assert(head[dir.len() as int] == '/');
        if c.len() > dir.len() {
            assert(c[dir.len() as int] == '/');
            assert(c.contains(c[dir.len() as int]));
        } else if c.len() < dir.len() {
            assert(head[c.len() as int] == '/');
            assert(dir[c.len() as int] == '/');
            assert(dir.contains(dir[c.len() as int]));
        } else {
            assert forall|i: int| 0 <= i < c.len() implies c[i] == dir[i] by {
                assert(head[i] == c[i]);
                assert(with[i] == dir[i]);
            }
            assert(c =~= dir);
        }
    }
}

/// The last three components of a path that ends with three.
proof fn last_three(front: Seq<char>, e0: Seq<char>, e1: Seq<char>, e2: Seq<char>)
    requires
        !e0.contains('/'),
        !e1.contains('/'),
        !e2.contains('/'),
    ensures
        last_components(front + seq!['/'] + e0 + seq!['/'] + e1 + seq!['/'] + e2, 3) == e0
            + seq!['/'] + e1 + seq!['/'] + e2,
{
    let sep = seq!['/'];
    let f = split_on(front, '/');
    split_is_not_empty(front, '/');
    joined_split(front, '/');
    parts_hold_no_separator(front, '/');
    let parts = f.push(e0).push(e1).push(e2);
    joining_adds_parts(f, e0, sep);
    joining_adds_parts(f.push(e0), e1, sep);
    joining_adds_parts(f.push(e0).push(e1), e2, sep);
    assert forall|i: int| 0 <= i < parts.len() implies !(#[trigger] parts[i]).contains('/') by {
        if i < f.len() {
            assert(parts[i] == f[i]);
        }
    }
    splitting_undoes_joining(parts, '/');
    let tail = parts.skip(parts.len() - 3);
    assert(tail =~= seq![e0, e1, e2]);
    joining_adds_parts(Seq::empty(), e0, sep);
    joining_adds_parts(seq![e0], e1, sep);
    joining_adds_parts(seq![e0, e1], e2, sep);
    assert(seq![e0].push(e1) =~= seq![e0, e1]);
    assert(seq![e0, e1].push(e2) =~= tail);
}

/// Three escaped components are resolved one by one.
proof fn three_escaped(c: Seq<Seq<char>>, plain: Seq<Seq<bool>>)
    requires
        c.len() == 3,
        plain.len() == 3,
        escapes_suffice(c[0], plain[0]),
        escapes_suffice(c[1], plain[1]),
        escapes_suffice(c[2], plain[2]),
    ensures
        unescaped(
            partly_escaped(c[0], plain[0]) + seq!['/'] + partly_escaped(c[1], plain[1])
                + seq!['/'] + partly_escaped(c[2], plain[2]),
        ) == c[0] + seq!['/'] + c[1] + seq!['/'] + c[2],
{
    let yes = seq![true];
    let sep = seq!['/'];
    let p1 = plain[0] + yes;
    let t1 = c[0] + sep;
    partly_escaped_of_both(c[0], plain[0], sep, yes);
    partly_escaped_of_both(t1, p1, c[1], plain[1]);
    let t2 = t1 + c[1];
    let p2 = p1 + plain[1];
    partly_escaped_of_both(t2, p2, sep, yes);
    let t3 = t2 + sep;
    let p3 = p2 + yes;
    partly_escaped_of_both(t3, p3, c[2], plain[2]);
    let none = Seq::<char>::empty();
    assert(sep.drop_first() =~= none);
    assert(partly_escaped(sep.drop_first(), yes.drop_first()) =~= none);
    assert(partly_escaped(sep, yes) =~= sep);
    partly_escaped_text_is_read_back(t3 + c[2], p3 + plain[2]);
}

/// Two texts, one behind the other, are escaped one behind the other.
proof fn partly_escaped_of_both(a: Seq<char>, pa: Seq<bool>, b: Seq<char>, pb: Seq<bool>)
    requires
        escapes_suffice(a, pa),
        escapes_suffice(b, pb),
    ensures
        escapes_suffice(a + b, pa + pb),
        partly_escaped(a + b, pa + pb) == partly_escaped(a, pa) + partly_escaped(b, pb),
    decreases a.len(),
{
    let p = pa + pb;
    let t = a + b;
    assert forall|i: int| 0 <= i < t.len() && #[trigger] p[i] implies t[i] != '%' && t[i]
        != '&' by {
        if i < a.len() {
            assert(pa[i]);
        } else {
            assert(pb[i - a.len()]);
        }
    }
    if a.len() == 0 {
        assert(t =~= b);
        assert(p =~= pb);
        assert(partly_escaped(a, pa) + partly_escaped(b, pb) =~= partly_escaped(b, pb));
    } else {
        let ra = a.drop_first();
        let rp = pa.drop_first();
        assert forall|i: int| 0 <= i < ra.len() && #[trigger] rp[i] implies ra[i] != '%' && ra[i]
            != '&' by {
            assert(pa[i + 1]);
        }
        partly_escaped_of_both(ra, rp, b, pb);
        assert(t.drop_first() =~= ra + b);
        assert(p.drop_first() =~= rp + pb);
        let first = written(a[0], pa[0]);
        assert(first + (partly_escaped(ra, rp) + partly_escaped(b, pb)) =~= (first
            + partly_escaped(ra, rp)) + partly_escaped(b, pb));
    }
}

/// A location outside the music folder with fewer than three components gives
/// the device's music root alone.
pub proof fn short_location_gives_the_root(
    c: Seq<Seq<char>>,
    folder: Seq<char>,
    root: Seq<char>,
)
    requires
        0 < c.len() < 3,
        forall|i: int| 0 <= i < c.len() ==> !(#[trigger] c[i]).contains('/'),
        !contains_text(joined(c, seq!['/']), folder),
    ensures
        device_path_of(joined(c, seq!['/']), folder, root) == trimmed_end(root, '/') + seq!['/'],
{
    splitting_undoes_joining(c, '/');
    let none = Seq::<char>::empty();
    partly_escaped_text_is_read_back(none, Seq::empty());
    assert(partly_escaped(none, Seq::empty()) =~= none);
    reveal_strlit("Music/");
    reveal_strlit("mp3/");
    plain_path_is_joined(root, none);
    assert(trimmed_end(root, '/') + seq!['/'] + none =~= trimmed_end(root, '/') + seq!['/']);
}

/// A track read from the library has the identity, name, artist and size of
/// its entry, is not yet on the device, and lies on this computer at the path
/// that its `file://` URL names, with its escapes resolved.
pub proof fn read_track_keeps_its_entry(
    id: Seq<char>,
    name: Seq<char>,
    artist: Seq<char>,
    size: u64,
    t: Seq<char>,
    plain: Seq<bool>,
    folder: Seq<char>,
    root: Seq<char>,
)
    requires
        escapes_suffice(t, plain),
        t.len() > 2,
        t[0] == '/',
        t[2] != ':',
    ensures
        ({
            let r = track_of_fields(
                id,
                name,
                artist,
                size,
                "file://localhost"@ + partly_escaped(t, plain),
                folder,
                root,
            );
            &&& r.id == id
            &&& r.name == name
            &&& r.artist == artist
            &&& r.size == size
            &&& !r.on_device
            &&& r.local_path == t
            &&& r.device_path == device_path_of(
                "file://localhost"@ + partly_escaped(t, plain),
                folder,
                root,
            )
        }),
        track_of_fields(
            id,
            name,
            artist,
            size,
            "file://"@ + partly_escaped(t, plain),
            folder,
            root,
        ).local_path == t,
{
    reveal_strlit("file://localhost");
    reveal_strlit("file://");
    let a = "file://localhost"@;
    let b = "file://"@;
    assert forall|i: int| 0 <= i < a.len() implies a[i] != '&' && a[i] != '%' by {}
    assert forall|i: int| 0 <= i < b.len() implies b[i] != '&' && b[i] != '%' by {}
    resolved_behind_plain(a, t, plain);
    resolved_behind_plain(b, t, plain);
    file_url_names_its_path(t);
}

/// Where a track lies on this computer, and where on the device, follows from
/// its location alone: the one is the path of the resolved URL, the other that
/// of the location below the music root.
pub proof fn location_gives_both_paths(
    id: Seq<char>,
    name: Seq<char>,
    artist: Seq<char>,
    size: u64,
    location: Seq<char>,
    folder: Seq<char>,
    root: Seq<char>,
)
    ensures
        track_of_fields(id, name, artist, size, location, folder, root) == (TrackView {
            id,
            name,
            artist,
            size,
            local_path: file_url_path(unescaped(location)),
            device_path: device_path_of(location, folder, root),
            on_device: false,
        }),
{
}

/// A path in a playlist file is the track's path behind the music root, or all
/// of it where the track is not below the root, without slashes at its start.
pub proof fn playlist_path_is_exact(
    t: TrackView,
    root: Seq<char>,
    slashes: Seq<char>,
    rest: Seq<char>,
)
    requires
        rest.len() > 0 ==> rest[0] != '/',
        forall|i: int| 0 <= i < slashes.len() ==> slashes[i] == '/',
    ensures
        t.device_path == root + slashes + rest ==> t.relative_path(root) == rest,
        t.device_path == slashes + rest && !has_prefix(t.device_path, root) ==> t.relative_path(
            root,
        ) == rest,
{
    slashes_are_trimmed(slashes, rest);
    if t.device_path == root + slashes + rest {
        assert(t.device_path.subrange(0, root.len() as int) =~= root);
        assert(t.device_path.skip(root.len() as int) =~= slashes + rest);
    }
}

proof fn slashes_are_trimmed(slashes: Seq<char>, rest: Seq<char>)
    requires
        rest.len() > 0 ==> rest[0] != '/',
        forall|i: int| 0 <= i < slashes.len() ==> slashes[i] == '/',
    ensures
        trimmed_start(slashes + rest, '/') == rest,
    decreases slashes.len(),
{
    if slashes.len() > 0 {
        slashes_are_trimmed(slashes.drop_first(), rest);
        assert((slashes + rest).drop_first() =~= slashes.drop_first() + rest);
    } else {
        assert(slashes + rest =~= rest);
    }
}

/// A track below the old music root lies at the same place below the new one
/// afterwards, any other track where it was, and nothing else of it changes.
pub proof fn moved_track_keeps_its_place(
    t: TrackView,
    old_root: Seq<char>,
    new_root: Seq<char>,
    slashes: Seq<char>,
    rest: Seq<char>,
)
    requires
        rest.len() > 0 ==> rest[0] != '/',
        forall|i: int| 0 <= i < slashes.len() ==> slashes[i] == '/',
    ensures
        t.device_path == old_root + slashes + rest ==> t.rebased(old_root, new_root).device_path
            == trimmed_end(new_root, '/') + seq!['/'] + rest,
        !has_prefix(t.device_path, old_root) ==> t.rebased(old_root, new_root) == t,
        t.rebased(old_root, new_root).id == t.id,
        t.rebased(old_root, new_root).name == t.name,
        t.rebased(old_root, new_root).artist == t.artist,
        t.rebased(old_root, new_root).size == t.size,
        t.rebased(old_root, new_root).local_path == t.local_path,
        t.rebased(old_root, new_root).on_device == t.on_device,
{
    slashes_are_trimmed(slashes, rest);
    if t.device_path == old_root + slashes + rest {
        assert(t.device_path.subrange(0, old_root.len() as int) =~= old_root);
        assert(t.device_path.skip(old_root.len() as int) =~= slashes + rest);
    }
}

} // verus!
