//! Text in lexicographic order, and lists of it sorted without repetition.
use vstd::prelude::*;

use crate::text::{chars_of, texts};

verus! {

/// Whether `a` comes before `b`: compared character by character, by code
/// point, a proper prefix first.
pub open spec fn text_less(a: Seq<char>, b: Seq<char>) -> bool
    decreases a.len(),
{
    if b.len() == 0 {
        false
    } else if a.len() == 0 {
        true
    } else if a[0] != b[0] {
        a[0] < b[0]
    } else {
        text_less(a.drop_first(), b.drop_first())
    }
}

/// Whether each text comes before the next ones: sorted, nothing twice.
pub open spec fn strictly_sorted(v: Seq<Seq<char>>) -> bool {
    forall|i: int, j: int| 0 <= i < j < v.len() ==> text_less(#[trigger] v[i], #[trigger] v[j])
}

/// Whether two lists hold the same texts, whatever their order and however
/// often.
pub open spec fn same_members(a: Seq<Seq<char>>, b: Seq<Seq<char>>) -> bool {
    forall|x: Seq<char>| #[trigger] a.contains(x) <==> b.contains(x)
}

/// No text comes before itself.
pub proof fn text_less_irreflexive(a: Seq<char>)
    ensures
        !text_less(a, a),
    decreases a.len(),
{
    if a.len() > 0 {
        text_less_irreflexive(a.drop_first());
    }
}

/// What comes before a text comes before all that follow it.
pub proof fn text_less_transitive(a: Seq<char>, b: Seq<char>, c: Seq<char>)
    requires
        text_less(a, b),
        text_less(b, c),
    ensures
        text_less(a, c),
    decreases a.len(),
{
    if a.len() > 0 && b.len() > 0 && c.len() > 0 && a[0] == b[0] && b[0] == c[0] {
        text_less_transitive(a.drop_first(), b.drop_first(), c.drop_first());
    }
}

/// Of two different texts one comes before the other.
pub proof fn text_less_total(a: Seq<char>, b: Seq<char>)
    ensures
        text_less(a, b) || a == b || text_less(b, a),
    decreases a.len(),
{
    if a.len() > 0 && b.len() > 0 && a[0] == b[0] {
        text_less_total(a.drop_first(), b.drop_first());
        if a.drop_first() == b.drop_first() {
            assert(seq![a[0]] + a.drop_first() =~= a);
            assert(seq![b[0]] + b.drop_first() =~= b);
        }
    } else if a.len() == 0 && b.len() == 0 {
        assert(a =~= b);
    }
}

/// A sorted list without repetition is determined by its members.
pub proof fn sorted_list_is_unique(a: Seq<Seq<char>>, b: Seq<Seq<char>>)
    requires
        strictly_sorted(a),
        strictly_sorted(b),
        same_members(a, b),
    ensures
        a == b,
    decreases a.len(),
{
    if a.len() == 0 {
        if b.len() > 0 {
            assert(b.contains(b[0]));
            assert(a.contains(b[0]));
        }
        assert(a =~= b);
    } else {
        assert(a.contains(a.last()));
        assert(b.contains(a.last()));
        assert(b.contains(b.last()));
        assert(a.contains(b.last()));
        let i = choose|i: int| 0 <= i < a.len() && a[i] == b.last();
        let j = choose|j: int| 0 <= j < b.len() && b[j] == a.last();
        if a.last() != b.last() {
            assert(text_less(a[i], a[a.len() - 1]));
            assert(text_less(b[j], b[b.len() - 1]));
            text_less_transitive(a.last(), b.last(), a.last());
            text_less_irreflexive(a.last());
        }
        let x = a.drop_last();
        let y = b.drop_last();
        assert forall|t: Seq<char>| #[trigger] x.contains(t) <==> y.contains(t) by {
            if x.contains(t) {
                let k = choose|k: int| 0 <= k < x.len() && x[k] == t;
                assert(a[k] == t);
                assert(a.contains(t));
                assert(b.contains(t));
                assert(text_less(a[k], a[a.len() - 1]));
                text_less_irreflexive(t);
                let m = choose|m: int| 0 <= m < b.len() && b[m] == t;
                assert(y[m] == t);
            }
            if y.contains(t) {
                let k = choose|k: int| 0 <= k < y.len() && y[k] == t;
                assert(b[k] == t);
                assert(b.contains(t));
                assert(a.contains(t));
                assert(text_less(b[k], b[b.len() - 1]));
                text_less_irreflexive(t);
                let m = choose|m: int| 0 <= m < a.len() && a[m] == t;
                assert(x[m] == t);
            }
        }
        sorted_list_is_unique(x, y);
        assert(a =~= x.push(a.last()));
        assert(b =~= y.push(b.last()));
    }
}

/// The outcome of comparing two texts.
#[derive(Debug, Clone, Copy, PartialEq, Eq, Structural)]
pub enum TextOrder {
    Before,
    Same,
    After,
}

/// Compares two strings.
pub fn order_texts(a: &str, b: &str) -> (r: TextOrder)
    ensures
        match r {
            TextOrder::Before => text_less(a@, b@),
            TextOrder::Same => a@ == b@,
            TextOrder::After => text_less(b@, a@),
        },
{
    let x: Vec<char> = chars_of(a);
    let y: Vec<char> = chars_of(b);
    let mut i: usize = 0;
    assert(a@.skip(0) =~= a@);
    assert(b@.skip(0) =~= b@);
    while i < x.len() && i < y.len() && x[i] == y[i]
        invariant
            x@ == a@,
            y@ == b@,
            i <= x@.len(),
            i <= y@.len(),
            a@.take(i as int) == b@.take(i as int),
            text_less(a@, b@) == text_less(a@.skip(i as int), b@.skip(i as int)),
            text_less(b@, a@) == text_less(b@.skip(i as int), a@.skip(i as int)),
        decreases x@.len() - i,
    {
        proof {
            assert(a@.skip(i as int).drop_first() =~= a@.skip(i + 1));
            assert(b@.skip(i as int).drop_first() =~= b@.skip(i + 1));
            assert(a@.take(i + 1) =~= a@.take(i as int).push(a@[i as int]));
            assert(b@.take(i + 1) =~= b@.take(i as int).push(b@[i as int]));
        }
        i = i + 1;
    }
    if i == x.len() && i == y.len() {
        assert(a@.take(i as int) =~= a@);
        assert(b@.take(i as int) =~= b@);
        return TextOrder::Same;
    }
    if i == x.len() {
        return TextOrder::Before;
    }
    if i == y.len() {
        return TextOrder::After;
    }
    if x[i] < y[i] {
        TextOrder::Before
    } else {
        TextOrder::After
    }
}

/// Puts a text at its place in a sorted list, unless it is there already.
pub fn insert_sorted(v: &mut Vec<String>, t: String)
    requires
        strictly_sorted(texts(old(v)@)),
    ensures
        strictly_sorted(texts(final(v)@)),
        forall|x: Seq<char>| #[trigger]
            texts(final(v)@).contains(x) <==> texts(old(v)@).contains(x) || x == t@,
{
    let ghost o = texts(v@);
    let mut lo: usize = 0;
    let mut hi: usize = v.len();
    while lo < hi
        invariant
            v@ == old(v)@,
            o == texts(v@),
            strictly_sorted(o),
            lo <= hi <= v@.len(),
            forall|k: int| 0 <= k < lo ==> text_less(#[trigger] o[k], t@),
            forall|k: int| hi <= k < o.len() ==> text_less(t@, #[trigger] o[k]),
        decreases hi - lo,
    {
        let mid: usize = lo + (hi - lo) / 2;
        assert(o[mid as int] == v@[mid as int]@);
        match order_texts(v[mid].as_str(), t.as_str()) {
            TextOrder::Same => {
                assert(o.contains(t@));
                return ;
            },
            TextOrder::Before => {
                assert forall|k: int| 0 <= k < mid + 1 implies text_less(#[trigger] o[k], t@) by {
                    if k < mid {
                        assert(text_less(o[k], o[mid as int]));
                        text_less_transitive(o[k], o[mid as int], t@);
                    }
                }
                lo = mid + 1;
            },
            TextOrder::After => {
                assert forall|k: int| mid <= k < o.len() implies text_less(t@, #[trigger] o[k]) by {
                    if k > mid {
                        assert(text_less(o[mid as int], o[k]));
                        text_less_transitive(t@, o[mid as int], o[k]);
                    }
                }
                hi = mid;
            },
        }
    }
    let ghost tv = t@;
    v.insert(lo, t);
    proof {
        let n = texts(v@);
        assert(n =~= o.insert(lo as int, tv));
        assert forall|i: int, j: int| 0 <= i < j < n.len() implies text_less(
            #[trigger] n[i],
            #[trigger] n[j],
        ) by {
            let i0 = if i < lo {
                i
            } else {
                i - 1
            };
            let j0 = if j < lo {
                j
            } else {
                j - 1
            };
            if i != lo && j != lo {
                assert(n[i] == o[i0]);
                assert(n[j] == o[j0]);
            } else if i == lo {
                assert(n[j] == o[j0]);
            } else {
                assert(n[i] == o[i0]);
            }
        }
        assert forall|x: Seq<char>| #[trigger] n.contains(x) <==> o.contains(x) || x == tv by {
            if n.contains(x) {
                let k = choose|k: int| 0 <= k < n.len() && n[k] == x;
                if k < lo {
                    assert(o[k] == x);
                } else if k > lo {
                    assert(o[k - 1] == x);
                }
            }
            if o.contains(x) {
                let k = choose|k: int| 0 <= k < o.len() && o[k] == x;
                if k < lo {
                    assert(n[k] == x);
                } else {
                    assert(n[k + 1] == x);
                }
            }
            if x == tv {
                assert(n[lo as int] == x);
            }
        }
    }
}

/// The texts of a list, sorted and without repetition.
pub fn sorted_texts(v: &Vec<String>) -> (r: Vec<String>)
    ensures
        strictly_sorted(texts(r@)),
        same_members(texts(r@), texts(v@)),
{
    let mut r: Vec<String> = Vec::new();
    let n: usize = v.len();
    let mut i: usize = 0;
    while i < n
        invariant
            n == v@.len(),
            i <= n,
            strictly_sorted(texts(r@)),
            same_members(texts(r@), texts(v@).take(i as int)),
        decreases n - i,
    {
        let ghost before = texts(r@);
        insert_sorted(&mut r, v[i].clone());
        proof {
            let a = texts(v@).take(i as int);
            let b = texts(v@).take(i + 1);
            assert(b =~= a.push(v@[i as int]@));
            assert forall|x: Seq<char>| #[trigger] texts(r@).contains(x) <==> b.contains(x) by {
                assert(before.contains(x) <==> a.contains(x));
                if a.contains(x) {
                    let k = choose|k: int| 0 <= k < a.len() && a[k] == x;
                    assert(b[k] == x);
                }
                if x == v@[i as int]@ {
                    assert(b[i as int] == x);
                }
                if b.contains(x) {
                    let k = choose|k: int| 0 <= k < b.len() && b[k] == x;
                    if k < i {
                        assert(a[k] == x);
                    }
                }
            }
        }
        i = i + 1;
    }
    assert(texts(v@).take(n as int) =~= texts(v@));
    r
}

// ---------------------------------------------------------------------------
// Stable sorting
// ---------------------------------------------------------------------------

/// Whether a relation orders: what comes before does not come after, and what
/// comes before something comes before all that this does not come behind.
pub open spec fn is_order<T>(less: spec_fn(T, T) -> bool) -> bool {
    &&& forall|a: T, b: T| #[trigger] less(a, b) ==> !less(b, a)
    &&& forall|a: T, b: T, c: T|
        #![trigger less(a, b), less(c, b)]
        less(a, b) && !less(c, b) ==> less(a, c)
}

/// A list with one more, in front of those at the end that it comes before.
pub open spec fn inserted<T>(v: Seq<T>, x: T, less: spec_fn(T, T) -> bool) -> Seq<T>
    decreases v.len(),
{
    if v.len() == 0 || !less(x, v.last()) {
        v.push(x)
    } else {
        inserted(v.drop_last(), x, less).push(v.last())
    }
}

/// A list in order; what comes neither before nor after each other stays as it
/// was.
pub open spec fn sorted_by<T>(v: Seq<T>, less: spec_fn(T, T) -> bool) -> Seq<T>
    decreases v.len(),
{
    if v.len() == 0 {
        v
    } else {
        inserted(sorted_by(v.drop_last(), less), v.last(), less)
    }
}

/// Whether nothing stands behind something that it comes before.
pub open spec fn is_sorted_by<T>(v: Seq<T>, less: spec_fn(T, T) -> bool) -> bool {
    forall|i: int, j: int| 0 <= i < j < v.len() ==> !less(#[trigger] v[j], #[trigger] v[i])
}

/// An insertion at the place behind which everything comes after.
pub proof fn inserted_at<T>(v: Seq<T>, x: T, less: spec_fn(T, T) -> bool, k: int)
    requires
        0 <= k <= v.len(),
        forall|j: int| k <= j < v.len() ==> less(x, #[trigger] v[j]),
        k > 0 ==> !less(x, v[k - 1]),
    ensures
        inserted(v, x, less) == v.insert(k, x),
    decreases v.len(),
{
    if k == v.len() {
        assert(v.insert(k, x) =~= v.push(x));
    } else {
        assert(less(x, v[v.len() - 1]));
        let w = v.drop_last();
        assert forall|j: int| k <= j < w.len() implies less(x, #[trigger] w[j]) by {
            assert(w[j] == v[j]);
        }
        inserted_at(w, x, less, k);
        assert(w.insert(k, x).push(v.last()) =~= v.insert(k, x));
    }
}

/// An insertion keeps the order and loses nothing.
proof fn insertion_keeps_order<T>(v: Seq<T>, x: T, less: spec_fn(T, T) -> bool)
    requires
        is_order(less),
        is_sorted_by(v, less),
    ensures
        is_sorted_by(inserted(v, x, less), less),
        inserted(v, x, less).to_multiset() == v.to_multiset().insert(x),
        forall|q: T| #[trigger] inserted(v, x, less).contains(q) ==> v.contains(q) || q == x,
    decreases v.len(),
{
    broadcast use vstd::seq_lib::group_to_multiset_ensures;

    let r = inserted(v, x, less);
    if v.len() == 0 || !less(x, v.last()) {
        assert forall|i: int, j: int| 0 <= i < j < r.len() implies !less(
            #[trigger] r[j],
            #[trigger] r[i],
        ) by {
            if j == v.len() && i < v.len() - 1 {
                assert(!less(v[v.len() - 1], v[i]));
                if less(x, v[i]) {
                    assert(less(x, v[v.len() - 1]));
                }
            }
        }
        assert forall|q: T| #[trigger] r.contains(q) implies v.contains(q) || q == x by {
            let k = choose|k: int| 0 <= k < r.len() && r[k] == q;
            if k < v.len() {
                assert(v[k] == q);
            }
        }
    } else {
        let w = v.drop_last();
        let last = v.last();
        assert forall|i: int, j: int| 0 <= i < j < w.len() implies !less(
            #[trigger] w[j],
            #[trigger] w[i],
        ) by {
            assert(w[j] == v[j] && w[i] == v[i]);
        }
        insertion_keeps_order(w, x, less);
        let front = inserted(w, x, less);
        assert forall|i: int, j: int| 0 <= i < j < r.len() implies !less(
            #[trigger] r[j],
            #[trigger] r[i],
        ) by {
            assert(r[i] == front[i]);
            if j < front.len() {
                assert(r[j] == front[j]);
            } else {
                assert(front.contains(front[i]));
                if front[i] != x {
                    let k = choose|k: int| 0 <= k < w.len() && w[k] == front[i];
                    assert(v[k] == front[i]);
                    assert(!less(v[v.len() - 1], v[k]));
                } else {
                    assert(less(x, last));
                }
            }
        }
        assert(v =~= w.push(last));
        assert(r.to_multiset() =~= v.to_multiset().insert(x));
        assert forall|q: T| #[trigger] r.contains(q) implies v.contains(q) || q == x by {
            let k = choose|k: int| 0 <= k < r.len() && r[k] == q;
            if k < front.len() {
                assert(front.contains(front[k]));
                if q != x {
                    let m = choose|m: int| 0 <= m < w.len() && w[m] == q;
                    assert(v[m] == q);
                }
            } else {
                assert(v[v.len() - 1] == q);
            }
        }
    }
}

/// A list in order holds the same as before, in order.
pub proof fn sorting_is_exact<T>(v: Seq<T>, less: spec_fn(T, T) -> bool)
    requires
        is_order(less),
    ensures
        is_sorted_by(sorted_by(v, less), less),
        sorted_by(v, less).to_multiset() == v.to_multiset(),
    decreases v.len(),
{
    broadcast use vstd::seq_lib::group_to_multiset_ensures;

    if v.len() > 0 {
        sorting_is_exact(v.drop_last(), less);
        insertion_keeps_order(sorted_by(v.drop_last(), less), v.last(), less);
        assert(v =~= v.drop_last().push(v.last()));
    }
}

/// The order of texts is one.
pub proof fn text_order_is_order(a: Seq<char>, b: Seq<char>, c: Seq<char>)
    ensures
        text_less(a, b) ==> !text_less(b, a),
        text_less(a, b) && !text_less(c, b) ==> text_less(a, c),
{
    text_less_irreflexive(a);
    text_less_total(b, c);
    if text_less(a, b) && text_less(b, a) {
        text_less_transitive(a, b, a);
    }
    if text_less(a, b) && text_less(b, c) {
        text_less_transitive(a, b, c);
    }
}

} // verus!
