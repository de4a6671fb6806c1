//! Laws on playlist files.
use vstd::prelude::*;

use crate::laws::texts::{split_of_both, splitting_undoes_joining, white_end_is_trimmed};
use crate::playlist::{counting_lines, found_lines, m3u_entries, m3u_filename, m3u_lines, m3u_text};
use crate::text::{is_white, joined, split_is_not_empty, split_on, white_trimmed_end};
use crate::track::TrackView;

verus! {

/// Whether a text is a line that counts: not blank, in one piece and without
/// white space at its end.
pub open spec fn is_clean_line(line: Seq<char>) -> bool {
    line.len() > 0 && !line.contains('\n') && !is_white(line.last())
}

/// A line counts whole, whatever white space stands at its end.
pub proof fn line_counts_whole(line: Seq<char>, tail: Seq<char>)
    requires
        is_clean_line(line),
        forall|i: int| 0 <= i < tail.len() ==> is_white(#[trigger] tail[i]) && tail[i] != '\n',
    ensures
        m3u_entries(line + tail) == seq![line],
{
    let s = line + tail;
    assert forall|i: int| 0 <= i < s.len() implies s[i] != '\n' by {
        if i < line.len() {
            assert(line.contains(line[i]));
        } else {
            assert(tail[i - line.len()] != '\n');
        }
    }
    one_line(s);
    white_end_is_trimmed(line, tail);
    let none = Seq::<Seq<char>>::empty();
    assert(seq![s].drop_last() =~= none);
    assert(counting_lines(none) =~= none);
    assert(none.push(line) =~= seq![line]);
}

/// A blank line does not count.
pub proof fn blank_line_does_not_count(s: Seq<char>)
    requires
        forall|i: int| 0 <= i < s.len() ==> is_white(#[trigger] s[i]) && s[i] != '\n',
    ensures
        m3u_entries(s).len() == 0,
{
    if s.contains('\n') {
        let k = choose|k: int| 0 <= k < s.len() && s[k] == '\n';
        assert(s[k] != '\n');
    }
    one_line(s);
    let none = Seq::<char>::empty();
    white_end_is_trimmed(none, s);
    assert(none + s =~= s);
    assert(seq![s].drop_last() =~= Seq::<Seq<char>>::empty());
    assert(counting_lines(seq![s].drop_last()).len() == 0);
}

pub(crate) proof fn one_line(s: Seq<char>)
    requires
        !s.contains('\n'),
    ensures
        split_on(s, '\n') == seq![s],
{
    let none = Seq::<char>::empty();
    split_of_both(none, s, '\n');
    assert(none + s =~= s);
    assert(split_on(none, '\n') =~= seq![none]);
    assert(seq![none].drop_last().push(none + s) =~= seq![s]);
}

/// The lines that count in two texts, one a line after the other, are those of
/// the one and then those of the other.
pub proof fn lines_count_one_by_one(s: Seq<char>, t: Seq<char>)
    ensures
        m3u_entries(s + seq!['\n'] + t) == m3u_entries(s) + m3u_entries(t),
{
    split_behind_line(s, t);
    counting_of_both(split_on(s, '\n'), split_on(t, '\n'));
}

pub(crate) proof fn split_behind_line(s: Seq<char>, t: Seq<char>)
    ensures
        split_on(s + seq!['\n'] + t, '\n') == split_on(s, '\n') + split_on(t, '\n'),
    decreases t.len(),
{
    let a = s + seq!['\n'];
    let p = split_on(s, '\n');
    assert(a.drop_last() =~= s);
    if t.len() == 0 {
        assert(a + t =~= a);
        assert(p.push(Seq::empty()) =~= p + seq![Seq::<char>::empty()]);
    } else {
        split_behind_line(s, t.drop_last());
        split_is_not_empty(t.drop_last(), '\n');
        assert((a + t).drop_last() =~= a + t.drop_last());
        let q = split_on(t.drop_last(), '\n');
        let all = p + q;
        assert(all.last() == q.last());
        assert(all.push(Seq::empty()) =~= p + q.push(Seq::empty()));
        assert(all.drop_last().push(q.last().push(t.last())) =~= p + q.drop_last().push(
            q.last().push(t.last()),
        ));
    }
}

proof fn counting_of_both(a: Seq<Seq<char>>, b: Seq<Seq<char>>)
    ensures
        counting_lines(a + b) == counting_lines(a) + counting_lines(b),
    decreases b.len(),
{
    if b.len() == 0 {
        assert(a + b =~= a);
        assert(counting_lines(a) + counting_lines(b) =~= counting_lines(a));
    } else {
        counting_of_both(a, b.drop_last());
        assert((a + b).drop_last() =~= a + b.drop_last());
        let line = white_trimmed_end(b.last());
        if line.len() > 0 {
            assert((counting_lines(a) + counting_lines(b.drop_last())).push(line)
                =~= counting_lines(a) + counting_lines(b));
        }
    }
}

/// A file is read as the list of lines that it was written from, whether the
/// last line is ended or not.
pub proof fn written_lines_are_read(lines: Seq<Seq<char>>)
    requires
        lines.len() > 0,
        forall|i: int| 0 <= i < lines.len() ==> is_clean_line(#[trigger] lines[i]),
    ensures
        m3u_entries(joined(lines, seq!['\n'])) == lines,
        m3u_entries(joined(lines, seq!['\n']) + seq!['\n']) == lines,
{
    assert forall|i: int| 0 <= i < lines.len() implies !(#[trigger] lines[i]).contains('\n') by {
        assert(is_clean_line(lines[i]));
    }
    splitting_undoes_joining(lines, '\n');
    all_lines_count(lines);
    let j = joined(lines, seq!['\n']);
    let none = Seq::<char>::empty();
    lines_count_one_by_one(j, none);
    blank_line_does_not_count(none);
    assert(j + seq!['\n'] + none =~= j + seq!['\n']);
    assert(lines + m3u_entries(none) =~= lines);
}

proof fn all_lines_count(lines: Seq<Seq<char>>)
    requires
        forall|i: int| 0 <= i < lines.len() ==> is_clean_line(#[trigger] lines[i]),
    ensures
        counting_lines(lines) == lines,
    decreases lines.len(),
{
    if lines.len() > 0 {
        let front = lines.drop_last();
        assert forall|i: int| 0 <= i < front.len() implies is_clean_line(#[trigger] front[i]) by {
            assert(front[i] == lines[i]);
        }
        all_lines_count(front);
        let none = Seq::<char>::empty();
        assert(is_clean_line(lines[lines.len() - 1]));
        white_end_is_trimmed(lines.last(), none);
        assert(lines.last() + none =~= lines.last());
        assert(front.push(lines.last()) =~= lines);
    } else {
        assert(lines =~= Seq::empty());
    }
}

/// Two files count as the same only where they hold the same lines, in the
/// same order.
pub proof fn different_lists_differ(a: Seq<Seq<char>>, b: Seq<Seq<char>>)
    requires
        a.len() > 0,
        b.len() > 0,
        forall|i: int| 0 <= i < a.len() ==> is_clean_line(#[trigger] a[i]),
        forall|i: int| 0 <= i < b.len() ==> is_clean_line(#[trigger] b[i]),
    ensures
        (m3u_entries(joined(a, seq!['\n'])) == m3u_entries(joined(b, seq!['\n']))) == (a == b),
{
    written_lines_are_read(a);
    written_lines_are_read(b);
}

/// A playlist file begins with its header; each known track adds a line with
/// its path below the music root, in the order of the playlist, as often as it
/// stands there, and an unknown track adds nothing.
pub proof fn playlist_file_grows_by_lines(
    ids: Seq<Seq<char>>,
    id: Seq<char>,
    root: Seq<char>,
    lookup: Map<Seq<char>, TrackView>,
)
    ensures
        m3u_text(Seq::empty(), root, lookup) == "#EXTM3U\n"@,
        lookup.contains_key(id) ==> m3u_text(ids.push(id), root, lookup) == m3u_text(
            ids,
            root,
            lookup,
        ) + lookup[id].relative_path(root) + seq!['\n'],
        !lookup.contains_key(id) ==> m3u_text(ids.push(id), root, lookup) == m3u_text(
            ids,
            root,
            lookup,
        ),
{
    assert(ids.push(id).drop_last() =~= ids);
    let none = Seq::<Seq<char>>::empty();
    assert("#EXTM3U\n"@ + m3u_lines(none, root, lookup) =~= "#EXTM3U\n"@);
    if lookup.contains_key(id) {
        let before = m3u_lines(ids, root, lookup);
        let p = lookup[id].relative_path(root);
        assert("#EXTM3U\n"@ + (before + p + seq!['\n']) =~= "#EXTM3U\n"@ + before + p + seq!['\n']);
    }
}

/// The same of the tracks that a lookup finds: each adds a line with its path,
/// and where none is found nothing is added.
pub proof fn found_tracks_add_lines(
    found: Seq<Option<TrackView>>,
    t: TrackView,
    root: Seq<char>,
)
    ensures
        found_lines(Seq::empty(), root).len() == 0,
        found_lines(found.push(Some(t)), root) == found_lines(found, root) + t.relative_path(root)
            + seq!['\n'],
        found_lines(found.push(None), root) == found_lines(found, root),
{
    assert(found.push(Some(t)).drop_last() =~= found);
    assert(found.push(None).drop_last() =~= found);
}

/// A playlist's file has the playlist's name and the ending of playlist files,
/// so that different names have different files.
pub proof fn playlist_file_is_named(a: Seq<char>, b: Seq<char>)
    ensures
        m3u_filename(a) == a + ".m3u"@,
        (m3u_filename(a) == m3u_filename(b)) == (a == b),
{
    let fa = m3u_filename(a);
    let fb = m3u_filename(b);
    if fa == fb {
        assert(fa.len() == a.len() + ".m3u"@.len());
        assert(fb.len() == b.len() + ".m3u"@.len());
        assert(a.len() == b.len());
        assert(fa.take(a.len() as int) =~= a);
        assert(fb.take(b.len() as int) =~= b);
    }
}

} // verus!
