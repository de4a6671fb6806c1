//! Text as sequences of characters: searching, splitting, joining and trimming,
//! each with a model over `Seq<char>`.
use vstd::prelude::*;
use vstd::utf8::*;

verus! {

/// The characters of each string of a list.
pub open spec fn texts(v: Seq<String>) -> Seq<Seq<char>> {
    v.map_values(|s: String| s@)
}

/// The characters of a string that may be absent.
pub open spec fn opt_text(o: Option<String>) -> Option<Seq<char>> {
    match o {
        Some(s) => Some(s@),
        None => None,
    }
}

/// `String::push` adds one character at the end.
pub assume_specification[ String::push ](s: &mut String, c: char)
    ensures
        final(s)@ == old(s)@.push(c),
;

/// The characters of `s`, in order.
pub fn chars_of(s: &str) -> (v: Vec<char>)
    ensures
        v@ == s@,
{
    let mut v: Vec<char> = Vec::new();
    for c in it: s.chars()
        invariant
            it.seq() == s@,
            v@ == s@.take(it.index() as int),
    {
        v.push(c);
        assert(s@.take(it.index() as int).push(c) =~= s@.take(it.index() + 1));
    }
    assert(s@.take(s@.len() as int) =~= s@);
    v
}

/// The string that holds the characters `v`.
pub fn string_of(v: &[char]) -> (s: String)
    ensures
        s@ == v@,
{
    let mut s = String::new();
    let n: usize = v.len();
    let mut i: usize = 0;
    while i < n
        invariant
            n == v@.len(),
            i <= n,
            s@ == v@.take(i as int),
        decreases n - i,
    {
        s.push(v[i]);
        assert(v@.take(i as int).push(v@[i as int]) =~= v@.take(i + 1));
        i = i + 1;
    }
    assert(v@.take(n as int) =~= v@);
    s
}

/// Whether two strings hold the same characters.
pub fn same_text(a: &str, b: &str) -> (r: bool)
    ensures
        r == (a@ == b@),
{
    let x: &[u8] = a.as_bytes();
    let y: &[u8] = b.as_bytes();
    proof {
        encode_utf8_decode_utf8(a@);
        encode_utf8_decode_utf8(b@);
    }
    if x.len() != y.len() {
        return false;
    }
    let n: usize = x.len();
    let mut i: usize = 0;
    while i < n
        invariant
            n == x@.len(),
            n == y@.len(),
            x@ == encode_utf8(a@),
            y@ == encode_utf8(b@),
            i <= n,
            forall|j: int| 0 <= j < i ==> x@[j] == y@[j],
        decreases n - i,
    {
        if x[i] != y[i] {
            return false;
        }
        i = i + 1;
    }
    assert(x@ =~= y@);
    true
}


// ---------------------------------------------------------------------------
// Searching
// ---------------------------------------------------------------------------

/// Whether `p` stands in `s` from position `i` on.
pub open spec fn occurs_at(s: Seq<char>, p: Seq<char>, i: int) -> bool {
    &&& 0 <= i
    &&& i + p.len() <= s.len()
    &&& s.subrange(i, i + p.len()) == p
}

/// Whether `s` begins with `p`.
pub open spec fn has_prefix(s: Seq<char>, p: Seq<char>) -> bool {
    occurs_at(s, p, 0)
}

/// Whether `s` ends with `p`.
pub open spec fn has_suffix(s: Seq<char>, p: Seq<char>) -> bool {
    occurs_at(s, p, s.len() - p.len())
}

/// Whether `p` stands anywhere in `s`.
pub open spec fn contains_text(s: Seq<char>, p: Seq<char>) -> bool {
    exists|i: int| occurs_at(s, p, i)
}

/// Whether `i` is the first position at which `p` stands in `s`.
pub open spec fn is_first_occurrence(s: Seq<char>, p: Seq<char>, i: int) -> bool {
    &&& occurs_at(s, p, i)
    &&& forall|j: int| 0 <= j < i ==> !occurs_at(s, p, j)
}

/// The first position at which `p` stands in `s`, for a `p` that does.
pub open spec fn first_occurrence(s: Seq<char>, p: Seq<char>) -> int {
    choose|i: int| is_first_occurrence(s, p, i)
}

/// `s` without the prefix `p`, or `s` itself if it does not begin with `p`.
pub open spec fn without_prefix(s: Seq<char>, p: Seq<char>) -> Seq<char> {
    if has_prefix(s, p) {
        s.skip(p.len() as int)
    } else {
        s
    }
}

/// Whether `p` stands in `s` at position `i`.
pub fn stands_at(s: &[char], p: &[char], i: usize) -> (r: bool)
    ensures
        r == occurs_at(s@, p@, i as int),
{
    if i > s.len() || s.len() - i < p.len() {
        return false;
    }
    let n: usize = p.len();
    let m: usize = s.len();
    let mut k: usize = 0;
    while k < n
        invariant
            n == p@.len(),
            m == s@.len(),
            i + n <= m,
            k <= n,
            forall|j: int| 0 <= j < k ==> s@[i + j] == p@[j],
        decreases n - k,
    {
        if s[i + k] != p[k] {
            assert(s@.subrange(i as int, i + n)[k as int] != p@[k as int]);
            return false;
        }
        k = k + 1;
    }
    assert(s@.subrange(i as int, i + n) =~= p@);
    true
}

/// The first position of `p` in `s`.
pub fn find_text(s: &[char], p: &[char]) -> (r: Option<usize>)
    ensures
        match r {
            Some(i) => contains_text(s@, p@) && i == first_occurrence(s@, p@) && i + p@.len()
                <= s@.len(),
            None => !contains_text(s@, p@),
        },
{
    let n: usize = s.len();
    let mut i: usize = 0;
    loop
        invariant
            n == s@.len(),
            i <= n,
            forall|j: int| 0 <= j < i ==> !occurs_at(s@, p@, j),
        decreases n - i,
    {
        if stands_at(s, p, i) {
            proof {
                assert(is_first_occurrence(s@, p@, i as int));
                let k = first_occurrence(s@, p@);
                assert(is_first_occurrence(s@, p@, k));
                assert(k == i);
            }
            return Some(i);
        }
        if i == n {
            assert forall|j: int| !occurs_at(s@, p@, j) by {
                if occurs_at(s@, p@, j) {
                    assert(j <= n);
                }
            }
            return None;
        }
        i = i + 1;
    }
}

/// Whether a string begins with `p`.
pub fn begins_with(s: &str, p: &str) -> (r: bool)
    ensures
        r == has_prefix(s@, p@),
{
    let sc: Vec<char> = chars_of(s);
    let pc: Vec<char> = chars_of(p);
    stands_at(&sc, &pc, 0)
}

/// Whether a string ends with `p`.
pub fn ends_in(s: &str, p: &str) -> (r: bool)
    ensures
        r == has_suffix(s@, p@),
{
    let sc: Vec<char> = chars_of(s);
    let pc: Vec<char> = chars_of(p);
    if sc.len() < pc.len() {
        return false;
    }
    stands_at(&sc, &pc, sc.len() - pc.len())
}

/// Whether a string holds `p` anywhere.
pub fn holds_text(s: &str, p: &str) -> (r: bool)
    ensures
        r == contains_text(s@, p@),
{
    let sc: Vec<char> = chars_of(s);
    let pc: Vec<char> = chars_of(p);
    find_text(&sc, &pc).is_some()
}

/// What follows the prefix `p`, if the string begins with it.
pub fn after_prefix(s: &str, p: &str) -> (r: Option<String>)
    ensures
        match r {
            Some(rest) => has_prefix(s@, p@) && rest@ == s@.skip(p@.len() as int),
            None => !has_prefix(s@, p@),
        },
{
    let sc: Vec<char> = chars_of(s);
    let pc: Vec<char> = chars_of(p);
    if stands_at(&sc, &pc, 0) {
        Some(string_from(&sc, pc.len()))
    } else {
        None
    }
}

/// Whether two lists hold the same texts in the same order.
pub fn same_texts(a: &Vec<String>, b: &Vec<String>) -> (r: bool)
    ensures
        r == (texts(a@) == texts(b@)),
{
    if a.len() != b.len() {
        assert(texts(a@).len() != texts(b@).len());
        return false;
    }
    let n: usize = a.len();
    let mut i: usize = 0;
    while i < n
        invariant
            n == a@.len(),
            n == b@.len(),
            i <= n,
            forall|j: int| 0 <= j < i ==> a@[j]@ == b@[j]@,
        decreases n - i,
    {
        if !same_text(a[i].as_str(), b[i].as_str()) {
            assert(texts(a@)[i as int] != texts(b@)[i as int]);
            return false;
        }
        i = i + 1;
    }
    assert(texts(a@) =~= texts(b@));
    true
}

/// A copy of a list of strings.
pub fn clone_texts(v: &Vec<String>) -> (r: Vec<String>)
    ensures
        texts(r@) == texts(v@),
{
    let mut r: Vec<String> = Vec::new();
    let n: usize = v.len();
    let mut i: usize = 0;
    while i < n
        invariant
            n == v@.len(),
            i <= n,
            texts(r@) == texts(v@).take(i as int),
        decreases n - i,
    {
        let ghost before = texts(r@);
        r.push(v[i].clone());
        assert(texts(r@) =~= before.push(v@[i as int]@));
        assert(texts(v@).take(i + 1) =~= before.push(v@[i as int]@));
        i = i + 1;
    }
    assert(texts(v@).take(n as int) =~= texts(v@));
    r
}

/// Whether a list holds a text.
pub fn has_text(v: &Vec<String>, t: &str) -> (r: bool)
    ensures
        r == texts(v@).contains(t@),
{
    let n: usize = v.len();
    let mut i: usize = 0;
    while i < n
        invariant
            n == v@.len(),
            i <= n,
            forall|j: int| 0 <= j < i ==> texts(v@)[j] != t@,
        decreases n - i,
    {
        if same_text(v[i].as_str(), t) {
            assert(texts(v@)[i as int] == t@);
            return true;
        }
        i = i + 1;
    }
    false
}

/// The characters of `v` from position `from` on, as a string.
pub fn string_from(v: &Vec<char>, from: usize) -> (s: String)
    requires
        from <= v@.len(),
    ensures
        s@ == v@.skip(from as int),
{
    string_between(v, from, v.len())
}

/// The characters of `v` from position `from` up to position `to`, as a string.
pub fn string_between(v: &Vec<char>, from: usize, to: usize) -> (s: String)
    requires
        from <= to <= v@.len(),
    ensures
        s@ == v@.subrange(from as int, to as int),
{
    let mut s = String::new();
    let mut i: usize = from;
    while i < to
        invariant
            from <= i <= to <= v@.len(),
            s@ == v@.subrange(from as int, i as int),
        decreases to - i,
    {
        s.push(v[i]);
        assert(v@.subrange(from as int, i as int).push(v@[i as int]) =~= v@.subrange(
            from as int,
            i + 1,
        ));
        i = i + 1;
    }
    s
}

// ---------------------------------------------------------------------------
// Replacing
// ---------------------------------------------------------------------------

/// `s` with every occurrence of `p`, found from left to right and not
/// overlapping, replaced by `by`.
pub open spec fn replaced(s: Seq<char>, p: Seq<char>, by: Seq<char>) -> Seq<char>
    recommends
        p.len() > 0,
    decreases s.len(),
{
    if s.len() == 0 || p.len() == 0 {
        s
    } else if has_prefix(s, p) {
        by + replaced(s.skip(p.len() as int), p, by)
    } else {
        seq![s[0]] + replaced(s.drop_first(), p, by)
    }
}

/// Replaces every occurrence of `p`.
pub fn replace_text(s: &Vec<char>, p: &str, by: &str) -> (r: Vec<char>)
    requires
        p@.len() > 0,
    ensures
        r@ == replaced(s@, p@, by@),
{
    let pc: Vec<char> = chars_of(p);
    let bc: Vec<char> = chars_of(by);
    let n: usize = s.len();
    let mut r: Vec<char> = Vec::new();
    let mut i: usize = 0;
    assert(s@.skip(0) =~= s@);
    while i < n
        invariant
            n == s@.len(),
            i <= n,
            pc@ == p@,
            bc@ == by@,
            p@.len() > 0,
            r@ + replaced(s@.skip(i as int), p@, by@) == replaced(s@, p@, by@),
        decreases n - i,
    {
        let ghost rest = s@.skip(i as int);
        if stands_at(s, &pc, i) {
            let ghost before = r@;
            push_chars(&mut r, &bc);
            proof {
                assert(rest.subrange(0, p@.len() as int) =~= s@.subrange(i as int, i + p@.len()));
                assert(has_prefix(rest, p@));
                assert(rest.skip(p@.len() as int) =~= s@.skip(i + p@.len()));
                assert(before + (by@ + replaced(rest.skip(p@.len() as int), p@, by@)) =~= r@
                    + replaced(rest.skip(p@.len() as int), p@, by@));
            }
            i = i + pc.len();
        } else {
            let ghost before = r@;
            r.push(s[i]);
            proof {
                if has_prefix(rest, p@) {
                    assert(rest.subrange(0, p@.len() as int) =~= s@.subrange(
                        i as int,
                        i + p@.len(),
                    ));
                }
                assert(rest.drop_first() =~= s@.skip(i + 1));
                assert(before + (seq![rest[0]] + replaced(rest.drop_first(), p@, by@)) =~= r@
                    + replaced(rest.drop_first(), p@, by@));
            }
            i = i + 1;
        }
    }
    assert(s@.skip(n as int) =~= Seq::<char>::empty());
    assert(r@ + Seq::<char>::empty() =~= r@);
    r
}

/// Adds the characters `more` at the end.
pub fn push_chars(v: &mut Vec<char>, more: &Vec<char>)
    ensures
        final(v)@ == old(v)@ + more@,
{
    let n: usize = more.len();
    let mut i: usize = 0;
    while i < n
        invariant
            n == more@.len(),
            i <= n,
            v@ == old(v)@ + more@.take(i as int),
        decreases n - i,
    {
        v.push(more[i]);
        assert(more@.take(i as int).push(more@[i as int]) =~= more@.take(i + 1));
        assert(v@ =~= old(v)@ + more@.take(i + 1));
        i = i + 1;
    }
    assert(more@.take(n as int) =~= more@);
}

/// A text without `p` is left as it is by a replacement of `p`.
pub proof fn replaced_without_occurrence(s: Seq<char>, p: Seq<char>, by: Seq<char>)
    requires
        p.len() > 0,
        !contains_text(s, p),
    ensures
        replaced(s, p, by) == s,
    decreases s.len(),
{
    if s.len() > 0 {
        assert(!occurs_at(s, p, 0));
        let t = s.drop_first();
        assert forall|i: int| !occurs_at(t, p, i) by {
            if occurs_at(t, p, i) {
                assert(s.subrange(i + 1, i + 1 + p.len()) =~= t.subrange(i, i + p.len()));
                assert(occurs_at(s, p, i + 1));
            }
        }
        replaced_without_occurrence(t, p, by);
        assert(seq![s[0]] + t =~= s);
    }
}


// ---------------------------------------------------------------------------
// Splitting and joining
// ---------------------------------------------------------------------------

/// The parts of `s` between the separators `sep`: one more than there are
/// separators.
pub open spec fn split_on(s: Seq<char>, sep: char) -> Seq<Seq<char>>
    decreases s.len(),
{
    if s.len() == 0 {
        seq![Seq::empty()]
    } else {
        let parts = split_on(s.drop_last(), sep);
        if s.last() == sep {
            parts.push(Seq::empty())
        } else {
            parts.drop_last().push(parts.last().push(s.last()))
        }
    }
}

/// The parts one after the other, with `sep` between them.
pub open spec fn joined(parts: Seq<Seq<char>>, sep: Seq<char>) -> Seq<char>
    decreases parts.len(),
{
    if parts.len() == 0 {
        Seq::empty()
    } else if parts.len() == 1 {
        parts[0]
    } else {
        joined(parts.drop_last(), sep) + sep + parts.last()
    }
}

/// The part of `s` behind its last `sep`, or all of `s` if it has none.
pub open spec fn behind_last(s: Seq<char>, sep: char) -> Seq<char>
    decreases s.len(),
{
    if s.len() == 0 || s.last() == sep {
        Seq::empty()
    } else {
        behind_last(s.drop_last(), sep).push(s.last())
    }
}

/// The part of `s` in front of its first `sep`, or all of `s` if it has none.
pub open spec fn before_first(s: Seq<char>, sep: char) -> Seq<char>
    decreases s.len(),
{
    if s.len() == 0 || s[0] == sep {
        Seq::empty()
    } else {
        seq![s[0]] + before_first(s.drop_first(), sep)
    }
}

/// There is always a part to split off.
pub proof fn split_is_not_empty(s: Seq<char>, sep: char)
    ensures
        split_on(s, sep).len() >= 1,
    decreases s.len(),
{
    if s.len() > 0 {
        split_is_not_empty(s.drop_last(), sep);
    }
}

/// The part behind the last separator is the last part.
pub proof fn last_part_is_behind_last(s: Seq<char>, sep: char)
    ensures
        split_on(s, sep).last() == behind_last(s, sep),
    decreases s.len(),
{
    if s.len() > 0 {
        split_is_not_empty(s.drop_last(), sep);
        last_part_is_behind_last(s.drop_last(), sep);
    }
}

/// Joining the parts with the separator gives the text back.
pub proof fn joined_split(s: Seq<char>, sep: char)
    ensures
        joined(split_on(s, sep), seq![sep]) == s,
    decreases s.len(),
{
    let parts = split_on(s, sep);
    if s.len() == 0 {
        assert(parts[0] =~= s);
    } else {
        let before = split_on(s.drop_last(), sep);
        split_is_not_empty(s.drop_last(), sep);
        joined_split(s.drop_last(), sep);
        if s.last() == sep {
            assert(parts.drop_last() =~= before);
            assert(joined(parts, seq![sep]) =~= s.drop_last() + seq![sep] + Seq::empty());
            assert(s =~= s.drop_last() + seq![sep]);
        } else {
            assert(parts.drop_last() =~= before.drop_last());
            assert(parts.last() =~= before.last().push(s.last()));
            if before.len() == 1 {
                assert(s =~= s.drop_last().push(s.last()));
            } else {
                assert(joined(parts, seq![sep]) =~= joined(before, seq![sep]).push(s.last()));
                assert(s =~= s.drop_last().push(s.last()));
            }
        }
    }
}

/// Splits at every `sep`.
pub fn split_text(s: &str, sep: char) -> (r: Vec<String>)
    ensures
        texts(r@) == split_on(s@, sep),
        r@.len() >= 1,
{
    let sc: Vec<char> = chars_of(s);
    let n: usize = sc.len();
    let mut r: Vec<String> = Vec::new();
    let mut part = String::new();
    let mut i: usize = 0;
    proof {
        assert(texts(r@).push(part@) =~= split_on(s@.take(0), sep));
    }
    while i < n
        invariant
            n == sc@.len(),
            sc@ == s@,
            i <= n,
            texts(r@).push(part@) == split_on(s@.take(i as int), sep),
        decreases n - i,
    {
        let ghost before = texts(r@);
        let ghost old_part = part@;
        let c: char = sc[i];
        proof {
            assert(s@.take(i + 1).drop_last() =~= s@.take(i as int));
            assert(s@.take(i + 1).last() == c);
            assert(before.push(old_part).drop_last() =~= before);
        }
        if c == sep {
            r.push(part);
            part = String::new();
            assert(texts(r@) =~= before.push(old_part));
        } else {
            part.push(c);
        }
        i = i + 1;
    }
    let ghost before = texts(r@);
    let ghost last = part@;
    r.push(part);
    proof {
        assert(s@.take(n as int) =~= s@);
        assert(texts(r@) =~= before.push(last));
    }
    r
}

/// Joins the parts from position `from` on.
pub fn join_text(parts: &Vec<String>, from: usize, sep: &str) -> (r: String)
    requires
        from <= parts@.len(),
    ensures
        r@ == joined(texts(parts@).skip(from as int), sep@),
{
    let n: usize = parts.len();
    let ghost all = texts(parts@).skip(from as int);
    let mut r = String::new();
    let mut i: usize = from;
    assert(all.take(0) =~= Seq::empty());
    while i < n
        invariant
            n == parts@.len(),
            from <= i <= n,
            all == texts(parts@).skip(from as int),
            r@ == joined(all.take(i - from), sep@),
        decreases n - i,
    {
        proof {
            assert(all.take(i + 1 - from).drop_last() =~= all.take(i - from));
            assert(all.take(i + 1 - from).last() == parts@[i as int]@);
        }
        if i > from {
            r.append(sep);
        }
        r.append(parts[i].as_str());
        proof {
            if i == from {
                assert(Seq::<char>::empty() + parts@[i as int]@ =~= parts@[i as int]@);
            }
        }
        i = i + 1;
    }
    assert(all.take(n - from) =~= all);
    r
}

/// The part of a string behind its last `sep`.
pub fn text_behind_last(s: &str, sep: char) -> (r: String)
    ensures
        r@ == behind_last(s@, sep),
{
    let sc: Vec<char> = chars_of(s);
    let mut i: usize = sc.len();
    proof {
        assert(s@.take(s@.len() as int) =~= s@);
        assert(s@.skip(s@.len() as int) =~= Seq::<char>::empty());
        assert(behind_last(s@, sep) + Seq::<char>::empty() =~= behind_last(s@, sep));
    }
    while i > 0 && sc[i - 1] != sep
        invariant
            i <= sc@.len(),
            sc@ == s@,
            behind_last(s@, sep) == behind_last(s@.take(i as int), sep) + s@.skip(i as int),
        decreases i,
    {
        proof {
            let h = s@.take(i as int);
            assert(h.drop_last() =~= s@.take(i - 1));
            assert(behind_last(s@.take(i - 1), sep).push(s@[i - 1]) + s@.skip(i as int)
                =~= behind_last(s@.take(i - 1), sep) + s@.skip(i - 1));
        }
        i = i - 1;
    }
    proof {
        assert(behind_last(s@.take(i as int), sep) =~= Seq::<char>::empty());
        assert(Seq::<char>::empty() + s@.skip(i as int) =~= s@.skip(i as int));
    }
    string_from(&sc, i)
}

/// The part of a string in front of its first `sep`.
pub fn text_before_first(s: &str, sep: char) -> (r: String)
    ensures
        r@ == before_first(s@, sep),
{
    let sc: Vec<char> = chars_of(s);
    let n: usize = sc.len();
    let mut i: usize = 0;
    let mut r = String::new();
    assert(s@.skip(0) =~= s@);
    assert(Seq::<char>::empty() + before_first(s@, sep) =~= before_first(s@, sep));
    while i < n && sc[i] != sep
        invariant
            n == sc@.len(),
            i <= n,
            sc@ == s@,
            before_first(s@, sep) == r@ + before_first(s@.skip(i as int), sep),
        decreases n - i,
    {
        proof {
            let h = s@.skip(i as int);
            assert(h.drop_first() =~= s@.skip(i + 1));
            assert(r@ + (seq![h[0]] + before_first(h.drop_first(), sep)) =~= r@.push(h[0])
                + before_first(h.drop_first(), sep));
        }
        r.push(sc[i]);
        i = i + 1;
    }
    assert(r@ + Seq::<char>::empty() =~= r@);
    r
}

// ---------------------------------------------------------------------------
// Trimming
// ---------------------------------------------------------------------------

/// The characters with the Unicode property `White_Space`.
pub open spec fn is_white(c: char) -> bool {
    let n = c as u32;
    ||| 0x09 <= n <= 0x0d
    ||| n == 0x20
    ||| n == 0x85
    ||| n == 0xa0
    ||| n == 0x1680
    ||| 0x2000 <= n <= 0x200a
    ||| n == 0x2028
    ||| n == 0x2029
    ||| n == 0x202f
    ||| n == 0x205f
    ||| n == 0x3000
}

/// Whether `c` is white space.
pub fn is_white_char(c: char) -> (r: bool)
    ensures
        r == is_white(c),
{
    let n: u32 = c as u32;
    (0x09 <= n && n <= 0x0d) || n == 0x20 || n == 0x85 || n == 0xa0 || n == 0x1680 || (0x2000 <= n
        && n <= 0x200a) || n == 0x2028 || n == 0x2029 || n == 0x202f || n == 0x205f || n == 0x3000
}

/// `s` without the characters `c` that it begins with.
pub open spec fn trimmed_start(s: Seq<char>, c: char) -> Seq<char>
    decreases s.len(),
{
    if s.len() > 0 && s[0] == c {
        trimmed_start(s.drop_first(), c)
    } else {
        s
    }
}

/// `s` without the characters `c` that it ends with.
pub open spec fn trimmed_end(s: Seq<char>, c: char) -> Seq<char>
    decreases s.len(),
{
    if s.len() > 0 && s.last() == c {
        trimmed_end(s.drop_last(), c)
    } else {
        s
    }
}

/// `s` without the white space that it ends with.
pub open spec fn white_trimmed_end(s: Seq<char>) -> Seq<char>
    decreases s.len(),
{
    if s.len() > 0 && is_white(s.last()) {
        white_trimmed_end(s.drop_last())
    } else {
        s
    }
}

/// `s` without the white space that it begins with.
pub open spec fn white_trimmed_start(s: Seq<char>) -> Seq<char>
    decreases s.len(),
{
    if s.len() > 0 && is_white(s[0]) {
        white_trimmed_start(s.drop_first())
    } else {
        s
    }
}

/// `s` without the white space at its two ends.
pub open spec fn white_trimmed(s: Seq<char>) -> Seq<char> {
    white_trimmed_end(white_trimmed_start(s))
}

/// Trims `c` at the start.
pub fn trim_start_char(s: &str, c: char) -> (r: String)
    ensures
        r@ == trimmed_start(s@, c),
{
    let sc: Vec<char> = chars_of(s);
    let n: usize = sc.len();
    let mut i: usize = 0;
    assert(s@.skip(0) =~= s@);
    while i < n && sc[i] == c
        invariant
            n == sc@.len(),
            i <= n,
            sc@ == s@,
            trimmed_start(s@.skip(i as int), c) == trimmed_start(s@, c),
        decreases n - i,
    {
        assert(s@.skip(i as int).drop_first() =~= s@.skip(i + 1));
        i = i + 1;
    }
    string_from(&sc, i)
}

/// Trims `c` at the end.
pub fn trim_end_char(s: &str, c: char) -> (r: String)
    ensures
        r@ == trimmed_end(s@, c),
{
    let sc: Vec<char> = chars_of(s);
    let mut i: usize = sc.len();
    assert(s@.take(i as int) =~= s@);
    while i > 0 && sc[i - 1] == c
        invariant
            i <= sc@.len(),
            sc@ == s@,
            trimmed_end(s@.take(i as int), c) == trimmed_end(s@, c),
        decreases i,
    {
        assert(s@.take(i as int).drop_last() =~= s@.take(i - 1));
        i = i - 1;
    }
    string_between(&sc, 0, i)
}

/// Trims white space at the end.
pub fn trim_end_white(s: &str) -> (r: String)
    ensures
        r@ == white_trimmed_end(s@),
{
    let sc: Vec<char> = chars_of(s);
    let mut i: usize = sc.len();
    assert(s@.take(i as int) =~= s@);
    while i > 0 && is_white_char(sc[i - 1])
        invariant
            i <= sc@.len(),
            sc@ == s@,
            white_trimmed_end(s@.take(i as int)) == white_trimmed_end(s@),
        decreases i,
    {
        assert(s@.take(i as int).drop_last() =~= s@.take(i - 1));
        i = i - 1;
    }
    string_between(&sc, 0, i)
}

/// Trims white space at both ends.
pub fn trim_white(s: &str) -> (r: String)
    ensures
        r@ == white_trimmed(s@),
{
    let sc: Vec<char> = chars_of(s);
    let n: usize = sc.len();
    let mut i: usize = 0;
    assert(s@.skip(0) =~= s@);
    while i < n && is_white_char(sc[i])
        invariant
            n == sc@.len(),
            i <= n,
            sc@ == s@,
            white_trimmed_start(s@.skip(i as int)) == white_trimmed_start(s@),
        decreases n - i,
    {
        assert(s@.skip(i as int).drop_first() =~= s@.skip(i + 1));
        i = i + 1;
    }
    let front: String = string_from(&sc, i);
    trim_end_white(front.as_str())
}

// ---------------------------------------------------------------------------
// Quoting
// ---------------------------------------------------------------------------

/// A text in double quotes with its special characters escaped, as std's
/// `Debug` writes it.
pub uninterp spec fn quoted(s: Seq<char>) -> Seq<char>;

/// `<str as Debug>::fmt`. What it writes depends on the text alone.
#[verifier::external_body]
pub(crate) fn quote(s: &str) -> (r: String)
    ensures
        r@ == quoted(s@),
{
    format!("{:?}", s)
}

} // verus!
