//! Laws on splitting, joining, trimming and replacing.
use vstd::prelude::*;

use crate::order::text_less;
use crate::text::{
    before_first, behind_last, contains_text, first_occurrence, has_prefix, has_suffix,
    is_first_occurrence, is_white, joined, occurs_at, replaced, replaced_without_occurrence,
    split_is_not_empty, split_on, trimmed_end, trimmed_start, white_trimmed, white_trimmed_end,
    white_trimmed_start, without_prefix,
};

verus! {

/// A text begins with `p` exactly where it is `p` with something behind it; it
/// ends with `p` exactly where it is `p` with something in front of it.
pub proof fn prefix_and_suffix_are_exact(s: Seq<char>, p: Seq<char>, rest: Seq<char>)
    ensures
        has_prefix(p + rest, p),
        has_suffix(rest + p, p),
        without_prefix(p + rest, p) == rest,
        has_prefix(s, p) ==> s == p + s.skip(p.len() as int),
        has_suffix(s, p) ==> s == s.take(s.len() - p.len()) + p,
        !has_prefix(s, p) ==> without_prefix(s, p) == s,
{
    assert((p + rest).subrange(0, p.len() as int) =~= p);
    assert((rest + p).subrange(rest.len() as int, (rest + p).len() as int) =~= p);
    assert((p + rest).skip(p.len() as int) =~= rest);
    if has_prefix(s, p) {
        assert(s =~= s.subrange(0, p.len() as int) + s.skip(p.len() as int));
    }
    if has_suffix(s, p) {
        assert(s =~= s.take(s.len() - p.len()) + s.subrange(s.len() - p.len(), s.len() as int));
    }
}

/// A text holds another exactly where it is the other with something in front
/// of it and something behind it.
pub proof fn containing_is_exact(a: Seq<char>, p: Seq<char>, b: Seq<char>)
    ensures
        contains_text(a + p + b, p),
        forall|s: Seq<char>| #[trigger]
            contains_text(s, p) ==> exists|i: int|
                0 <= i && i + p.len() <= s.len() && s == s.take(i) + p + #[trigger] s.skip(
                    i + p.len(),
                ),
{
    assert((a + p + b).subrange(a.len() as int, (a + p).len() as int) =~= p);
    assert(occurs_at(a + p + b, p, a.len() as int));
    assert forall|s: Seq<char>| #[trigger] contains_text(s, p) implies exists|i: int|
        0 <= i && i + p.len() <= s.len() && s == s.take(i) + p + #[trigger] s.skip(
            i + p.len(),
        ) by {
        let i = choose|i: int| occurs_at(s, p, i);
        assert(s =~= s.take(i) + s.subrange(i, i + p.len()) + s.skip(i + p.len()));
    }
}

/// The first position of a text that begins with another is 0, and that of a
/// text which holds it only behind `a` is the length of `a`.
pub proof fn first_position_is_exact(a: Seq<char>, p: Seq<char>, b: Seq<char>)
    requires
        forall|j: int| 0 <= j < a.len() ==> !has_prefix(#[trigger] (a + p + b).skip(j), p),
    ensures
        first_occurrence(a + p + b, p) == a.len(),
{
    let s = a + p + b;
    containing_is_exact(a, p, b);
    assert(s.subrange(a.len() as int, (a + p).len() as int) =~= p);
    assert(occurs_at(s, p, a.len() as int));
    assert forall|j: int| 0 <= j < a.len() implies !occurs_at(s, p, j) by {
        assert(!has_prefix(s.skip(j), p));
        if occurs_at(s, p, j) {
            assert(s.skip(j).subrange(0, p.len() as int) =~= s.subrange(j, j + p.len()));
        }
    }
    assert(is_first_occurrence(s, p, a.len() as int));
    let i = first_occurrence(s, p);
    assert(is_first_occurrence(s, p, i));
    assert(i <= a.len());
}

/// One part is joined to itself, and a further part follows a separator.
pub proof fn joining_adds_parts(parts: Seq<Seq<char>>, part: Seq<char>, sep: Seq<char>)
    ensures
        joined(Seq::empty(), sep) == Seq::<char>::empty(),
        joined(seq![part], sep) == part,
        parts.len() > 0 ==> joined(parts.push(part), sep) == joined(parts, sep) + sep + part,
{
    assert(parts.push(part).drop_last() =~= parts);
}

/// What is joined by a separator is split at it into the same parts, if none
/// of them holds the separator.
pub proof fn splitting_undoes_joining(parts: Seq<Seq<char>>, sep: char)
    requires
        parts.len() > 0,
        forall|i: int| 0 <= i < parts.len() ==> !(#[trigger] parts[i]).contains(sep),
    ensures
        split_on(joined(parts, seq![sep]), sep) == parts,
    decreases parts.len(),
{
    let last = parts.last();
    assert(!parts[parts.len() - 1].contains(sep));
    if parts.len() == 1 {
        split_of_both(Seq::empty(), last, sep);
        assert(Seq::<char>::empty() + last =~= last);
        assert(split_on(Seq::<char>::empty(), sep) =~= seq![Seq::empty()]);
        assert(Seq::<char>::empty() + last =~= last);
        assert(seq![Seq::<char>::empty()].drop_last().push(last) =~= parts);
    } else {
        let front = parts.drop_last();
        assert forall|i: int| 0 <= i < front.len() implies !(#[trigger] front[i]).contains(sep) by {
            assert(front[i] == parts[i]);
        }
        splitting_undoes_joining(front, sep);
        let j = joined(front, seq![sep]);
        split_of_both(j.push(sep), last, sep);
        assert(j + seq![sep] + last =~= j.push(sep) + last);
        assert(j.push(sep).drop_last() =~= j);
        let p = split_on(j.push(sep), sep);
        assert(p == front.push(Seq::empty()));
        assert(Seq::<char>::empty() + last =~= last);
        assert(p.drop_last().push(p.last() + last) =~= parts);
    }
}

/// A text without separators lengthens the last part of what stands in front
/// of it.
pub(crate) proof fn split_of_both(s: Seq<char>, t: Seq<char>, sep: char)
    requires
        !t.contains(sep),
    ensures
        split_on(s + t, sep) == split_on(s, sep).drop_last().push(split_on(s, sep).last() + t),
    decreases t.len(),
{
    let p = split_on(s, sep);
    split_is_not_empty(s, sep);
    if t.len() == 0 {
        assert(s + t =~= s);
        assert(p.last() + t =~= p.last());
        assert(p.drop_last().push(p.last()) =~= p);
    } else {
        let front = t.drop_last();
        assert forall|x: char| front.contains(x) implies t.contains(x) by {
            let k = choose|k: int| 0 <= k < front.len() && front[k] == x;
            assert(t[k] == x);
        }
        split_of_both(s, front, sep);
        assert((s + t).drop_last() =~= s + front);
        assert(t.contains(t.last()));
        let q = split_on(s + front, sep);
        assert(q.drop_last() =~= p.drop_last());
        assert((p.last() + front).push(t.last()) =~= p.last() + t);
    }
}

/// No part of a split text holds the separator.
pub proof fn parts_hold_no_separator(s: Seq<char>, sep: char)
    ensures
        forall|i: int|
            0 <= i < split_on(s, sep).len() ==> !(#[trigger] split_on(s, sep)[i]).contains(sep),
    decreases s.len(),
{
    if s.len() > 0 {
        let before = split_on(s.drop_last(), sep);
        split_is_not_empty(s.drop_last(), sep);
        parts_hold_no_separator(s.drop_last(), sep);
        let parts = split_on(s, sep);
        assert forall|i: int| 0 <= i < parts.len() implies !(#[trigger] parts[i]).contains(sep) by {
            if i < parts.len() - 1 {
                assert(parts[i] == before[i]);
                assert(!before[i].contains(sep));
            } else if s.last() != sep {
                let last = before.last();
                assert(!before[before.len() - 1].contains(sep));
                if parts[i].contains(sep) {
                    let k = choose|k: int| 0 <= k < parts[i].len() && parts[i][k] == sep;
                    assert(last[k] == sep);
                    assert(last.contains(sep));
                }
            }
        }
    }
}

/// What stands behind the last separator is what follows it, and all of a text
/// without a separator.
pub proof fn behind_last_is_exact(a: Seq<char>, b: Seq<char>, sep: char)
    requires
        !b.contains(sep),
    ensures
        behind_last(a + seq![sep] + b, sep) == b,
        behind_last(b, sep) == b,
    decreases b.len(),
{
    let s = a + seq![sep] + b;
    if b.len() == 0 {
        assert(s.last() == sep);
        assert(b =~= Seq::empty());
    } else {
        let front = b.drop_last();
        assert forall|x: char| front.contains(x) implies b.contains(x) by {
            let k = choose|k: int| 0 <= k < front.len() && front[k] == x;
            assert(b[k] == x);
        }
        behind_last_is_exact(a, front, sep);
        assert(s.drop_last() =~= a + seq![sep] + front);
        assert(b.contains(b.last()));
        assert(front.push(b.last()) =~= b);
    }
}

/// What stands in front of the first separator is what precedes it, and all of
/// a text without a separator.
pub proof fn before_first_is_exact(a: Seq<char>, b: Seq<char>, sep: char)
    requires
        !a.contains(sep),
    ensures
        before_first(a + seq![sep] + b, sep) == a,
        before_first(a, sep) == a,
    decreases a.len(),
{
    let s = a + seq![sep] + b;
    if a.len() == 0 {
        assert(s[0] == sep);
        assert(a =~= Seq::empty());
    } else {
        let rest = a.drop_first();
        assert forall|x: char| rest.contains(x) implies a.contains(x) by {
            let k = choose|k: int| 0 <= k < rest.len() && rest[k] == x;
            assert(a[k + 1] == x);
        }
        before_first_is_exact(rest, b, sep);
        assert(s.drop_first() =~= rest + seq![sep] + b);
        assert(a.contains(a[0]));
        assert(seq![a[0]] + rest =~= a);
    }
}

/// Trimming takes the characters `c` at one end off, all of them and nothing
/// else.
pub proof fn trimming_is_exact(s: Seq<char>, front: Seq<char>, back: Seq<char>, c: char)
    requires
        forall|i: int| 0 <= i < front.len() ==> front[i] == c,
        forall|i: int| 0 <= i < back.len() ==> back[i] == c,
    ensures
        s.len() == 0 || s[0] != c ==> trimmed_start(front + s, c) == s,
        s.len() == 0 || s.last() != c ==> trimmed_end(s + back, c) == s,
    decreases front.len() + back.len(),
{
    if front.len() > 0 {
        trimming_is_exact(s, front.drop_first(), back, c);
        assert((front + s).drop_first() =~= front.drop_first() + s);
    } else {
        assert(front + s =~= s);
    }
    if back.len() > 0 {
        trimming_is_exact(s, front, back.drop_last(), c);
        assert((s + back).drop_last() =~= s + back.drop_last());
    } else {
        assert(s + back =~= s);
    }
}

/// White space among the ASCII characters is the blank, the tabulators, the
/// line feed, the form feed and the carriage return; beyond them it is the
/// further spaces, the line and paragraph separators and the next line.
pub proof fn white_space_is_that_of_unicode(c: char)
    ensures
        (c as u32) < 128 ==> is_white(c) == (c == ' ' || c == '\t' || c == '\n' || c == '\r'
            || c as u32 == 11 || c as u32 == 12),
        128 <= (c as u32) < 0x2000 ==> is_white(c) == (c as u32 == 0x85 || c as u32 == 0xa0
            || c as u32 == 0x1680),
        0x2000 <= (c as u32) <= 0x200a ==> is_white(c),
        0x200a < (c as u32) ==> is_white(c) == (c as u32 == 0x2028 || c as u32 == 0x2029 || c as u32
            == 0x202f || c as u32 == 0x205f || c as u32 == 0x3000),
{
}

/// Trimming white space at the end takes all of it off and nothing else.
pub proof fn white_end_is_trimmed(s: Seq<char>, back: Seq<char>)
    requires
        s.len() > 0 ==> !is_white(s.last()),
        forall|i: int| 0 <= i < back.len() ==> is_white(#[trigger] back[i]),
    ensures
        white_trimmed_end(s + back) == s,
    decreases back.len(),
{
    if back.len() > 0 {
        assert(is_white(back[back.len() - 1]));
        white_end_is_trimmed(s, back.drop_last());
        assert((s + back).drop_last() =~= s + back.drop_last());
    } else {
        assert(s + back =~= s);
    }
}

/// Trimming white space at the start takes all of it off and nothing else.
proof fn white_start_is_trimmed(s: Seq<char>, front: Seq<char>)
    requires
        s.len() > 0 ==> !is_white(s[0]),
        forall|i: int| 0 <= i < front.len() ==> is_white(#[trigger] front[i]),
    ensures
        white_trimmed_start(front + s) == s,
    decreases front.len(),
{
    if front.len() > 0 {
        assert(is_white(front[0]));
        white_start_is_trimmed(s, front.drop_first());
        assert((front + s).drop_first() =~= front.drop_first() + s);
    } else {
        assert(front + s =~= s);
    }
}

/// Trimming white space takes all of it off at both ends and nothing between
/// them.
pub proof fn white_ends_are_trimmed(s: Seq<char>, front: Seq<char>, back: Seq<char>)
    requires
        s.len() > 0 ==> !is_white(s[0]) && !is_white(s.last()),
        forall|i: int| 0 <= i < front.len() ==> is_white(#[trigger] front[i]),
        forall|i: int| 0 <= i < back.len() ==> is_white(#[trigger] back[i]),
    ensures
        white_trimmed(front + s + back) == s,
{
    if s.len() == 0 {
        let all = front + s + back;
        assert forall|i: int| 0 <= i < all.len() implies is_white(#[trigger] all[i]) by {
            if i < front.len() {
                assert(all[i] == front[i]);
            } else {
                assert(all[i] == back[i - front.len()]);
            }
        }
        assert(s =~= Seq::empty());
        assert(all + s =~= all);
        white_start_is_trimmed(s, all);
    } else {
        assert(front + s + back =~= front + (s + back));
        white_start_is_trimmed(s + back, front);
        white_end_is_trimmed(s, back);
    }
}

/// Replacing gives the parts between the occurrences again, with the new text
/// between them. Here the pattern begins with a character that stands nowhere
/// else in it nor in the parts.
pub proof fn replacing_is_exact(
    parts: Seq<Seq<char>>,
    p: Seq<char>,
    by: Seq<char>,
)
    requires
        p.len() > 0,
        forall|i: int| 0 < i < p.len() ==> #[trigger] p[i] != p[0],
        forall|i: int| 0 <= i < parts.len() ==> !(#[trigger] parts[i]).contains(p[0]),
    ensures
        replaced(joined(parts, p), p, by) == joined(parts, by),
    decreases parts.len(),
{
    if parts.len() > 0 {
        let last = parts.last();
        assert(!parts[parts.len() - 1].contains(p[0]));
        if parts.len() == 1 {
            nothing_to_replace(last, p, by);
        } else {
            let front = parts.drop_last();
            assert forall|i: int| 0 <= i < front.len() implies !(#[trigger] front[i]).contains(
                p[0],
            ) by {
                assert(front[i] == parts[i]);
            }
            replacing_is_exact(front, p, by);
            let j = joined(front, p);
            ends_with_part(front, p);
            replaced_of_both(j, p + last, p, by);
            assert(j + p + last =~= j + (p + last));
            assert((p + last).subrange(0, p.len() as int) =~= p);
            assert((p + last).skip(p.len() as int) =~= last);
            nothing_to_replace(last, p, by);
            assert(joined(front, by) + (by + last) =~= joined(front, by) + by + last);
        }
    } else {
        assert(replaced(Seq::<char>::empty(), p, by) =~= Seq::empty());
    }
}

/// A text without the first character of a pattern does not hold it.
proof fn nothing_to_replace(s: Seq<char>, p: Seq<char>, by: Seq<char>)
    requires
        p.len() > 0,
        !s.contains(p[0]),
    ensures
        replaced(s, p, by) == s,
{
    assert forall|i: int| !occurs_at(s, p, i) by {
        if occurs_at(s, p, i) {
            assert(s.subrange(i, i + p.len())[0] == p[0]);
            assert(s[i] == p[0]);
        }
    }
    replaced_without_occurrence(s, p, by);
}

/// Whether a pattern that begins in `s` ends in it too.
spec fn holds_whole(s: Seq<char>, p: Seq<char>) -> bool {
    forall|i: int| 0 <= i < s.len() && #[trigger] s[i] == p[0] ==> occurs_at(s, p, i)
}

proof fn ends_with_part(parts: Seq<Seq<char>>, p: Seq<char>)
    requires
        p.len() > 0,
        parts.len() > 0,
        forall|i: int| 0 < i < p.len() ==> #[trigger] p[i] != p[0],
        forall|i: int| 0 <= i < parts.len() ==> !(#[trigger] parts[i]).contains(p[0]),
    ensures
        holds_whole(joined(parts, p), p),
    decreases parts.len(),
{
    let s = joined(parts, p);
    let last = parts.last();
    assert(!parts[parts.len() - 1].contains(p[0]));
    if parts.len() == 1 {
        assert forall|i: int| 0 <= i < s.len() && #[trigger] s[i] == p[0] implies occurs_at(
            s,
            p,
            i,
        ) by {
            assert(s.contains(s[i]));
        }
    } else {
        let front = parts.drop_last();
        assert forall|i: int| 0 <= i < front.len() implies !(#[trigger] front[i]).contains(p[0]) by {
            assert(front[i] == parts[i]);
        }
        ends_with_part(front, p);
        let j = joined(front, p);
        assert forall|i: int| 0 <= i < s.len() && #[trigger] s[i] == p[0] implies occurs_at(
            s,
            p,
            i,
        ) by {
            if i < j.len() {
                assert(j[i] == p[0]);
                assert(s.subrange(i, i + p.len()) =~= j.subrange(i, i + p.len()));
            } else if i < j.len() + p.len() {
                assert(p[i - j.len()] == p[0]);
                assert(i == j.len());
                assert(s.subrange(i, i + p.len()) =~= p);
            } else {
                assert(last[i - j.len() - p.len()] == p[0]);
                assert(last.contains(p[0]));
            }
        }
    }
}

/// Behind a text that holds whole occurrences alone, replacing starts afresh.
proof fn replaced_of_both(s: Seq<char>, t: Seq<char>, p: Seq<char>, by: Seq<char>)
    requires
        p.len() > 0,
        holds_whole(s, p),
    ensures
        replaced(s + t, p, by) == replaced(s, p, by) + replaced(t, p, by),
    decreases s.len(),
{
    if s.len() == 0 {
        assert(s + t =~= t);
        assert(replaced(s, p, by) + replaced(t, p, by) =~= replaced(t, p, by));
    } else if has_prefix(s, p) {
        assert((s + t).subrange(0, p.len() as int) =~= s.subrange(0, p.len() as int));
        let r = s.skip(p.len() as int);
        assert forall|i: int| 0 <= i < r.len() && #[trigger] r[i] == p[0] implies occurs_at(
            r,
            p,
            i,
        ) by {
            assert(s[i + p.len()] == p[0]);
            assert(r.subrange(i, i + p.len()) =~= s.subrange(i + p.len(), i + p.len() + p.len()));
        }
        replaced_of_both(r, t, p, by);
        assert((s + t).skip(p.len() as int) =~= r + t);
        assert(by + (replaced(r, p, by) + replaced(t, p, by)) =~= by + replaced(r, p, by)
            + replaced(t, p, by));
    } else {
        assert(s[0] != p[0]);
        if has_prefix(s + t, p) {
            assert((s + t).subrange(0, p.len() as int)[0] == p[0]);
        }
        let r = s.drop_first();
        assert forall|i: int| 0 <= i < r.len() && #[trigger] r[i] == p[0] implies occurs_at(
            r,
            p,
            i,
        ) by {
            assert(s[i + 1] == p[0]);
            assert(r.subrange(i, i + p.len()) =~= s.subrange(i + 1, i + 1 + p.len()));
        }
        replaced_of_both(r, t, p, by);
        assert((s + t).drop_first() =~= r + t);
        assert(seq![s[0]] + (replaced(r, p, by) + replaced(t, p, by)) =~= seq![s[0]] + replaced(
            r,
            p,
            by,
        ) + replaced(t, p, by));
    }
}

/// Texts are ordered by the first character in which they differ, and a text
/// comes before those that it begins.
pub proof fn order_is_that_of_characters(
    p: Seq<char>,
    c: char,
    d: char,
    x: Seq<char>,
    y: Seq<char>,
)
    ensures
        c < d ==> text_less(p + seq![c] + x, p + seq![d] + y) && !text_less(
            p + seq![d] + y,
            p + seq![c] + x,
        ),
        text_less(p, p + seq![c] + x),
        !text_less(p + seq![c] + x, p),
    decreases p.len(),
{
    let a = p + seq![c] + x;
    let b = p + seq![d] + y;
    if p.len() > 0 {
        order_is_that_of_characters(p.drop_first(), c, d, x, y);
        assert(a.drop_first() =~= p.drop_first() + seq![c] + x);
        assert(b.drop_first() =~= p.drop_first() + seq![d] + y);
    }
}

} // verus!
