//! Laws on the entities and percent escapes of a `Library.xml`.
use vstd::prelude::*;
use vstd::utf8::*;

use crate::text::{has_prefix, replaced};
use crate::xml_helpers::{
    ascii_text, ascii_text_bytes, bytes_of_both, entities_behind_plain, entities_replaced,
    entity_behind_plain, escapes_are_ascii, file_url_path, hex_byte, hex_value, lossy_text,
    no_percent_byte, percent_decoded, percent_decoding_keeps_plain_bytes, percent_encoded,
    plain_front_is_kept, unescaped, unescaped_bytes,
};

verus! {

/// A hexadecimal digit is a decimal digit or one of the six letters, in upper
/// or in lower case.
pub proof fn hexadecimal_digits_are_read(b: u8, v: u8)
    ensures
        (hex_value(b) == Some(v)) == ((v < 10 && b == '0' as u8 + v) || (10 <= v < 16 && (b
            == 'A' as u8 + v - 10 || b == 'a' as u8 + v - 10))),
{
}

/// An escape stands for the byte that its two digits give, and what follows it
/// is decoded as if it stood alone. A percent sign without two digits stays.
pub proof fn escape_is_its_byte(d: u8, e: u8, rest: Seq<u8>)
    ensures
        hex_value(d) is Some && hex_value(e) is Some ==> percent_decoded(seq![37u8, d, e] + rest)
            == seq![(hex_value(d)->0 * 16 + hex_value(e)->0) as u8] + percent_decoded(rest),
        hex_value(d) is None || hex_value(e) is None ==> percent_decoded(seq![37u8, d, e] + rest)
            == seq![37u8] + percent_decoded(seq![d, e] + rest),
        percent_decoded(seq![37u8, d]) == seq![37u8] + percent_decoded(seq![d]),
        percent_decoded(seq![37u8]) == seq![37u8],
{
    let b = seq![37u8, d, e] + rest;
    assert(b.skip(3) =~= rest);
    assert(b.drop_first() =~= seq![d, e] + rest);
    assert(seq![37u8, d].drop_first() =~= seq![d]);
    assert(seq![37u8].drop_first() =~= Seq::<u8>::empty());
    assert(percent_decoded(Seq::<u8>::empty()) =~= Seq::empty());
    assert(seq![37u8] + Seq::<u8>::empty() =~= seq![37u8]);
}

/// Escaped bytes in front of others are decoded to what they stand for.
pub proof fn escaped_bytes_are_read_back(a: Seq<u8>, rest: Seq<u8>)
    ensures
        percent_decoded(percent_encoded(a) + rest) == a + percent_decoded(rest),
    decreases a.len(),
{
    if a.len() == 0 {
        assert(percent_encoded(a) + rest =~= rest);
        assert(a + percent_decoded(rest) =~= percent_decoded(rest));
    } else {
        let t = a.drop_first();
        escaped_bytes_are_read_back(t, rest);
        let v = a[0];
        let d = hex_byte((v / 16) as u8);
        let e = hex_byte((v % 16) as u8);
        let more = percent_encoded(t) + rest;
        assert(percent_encoded(a) + rest =~= seq![37u8, d, e] + more);
        escape_is_its_byte(d, e, more);
        assert(hex_value(d)->0 * 16 + hex_value(e)->0 == v);
        assert(seq![v] + (t + percent_decoded(rest)) =~= a + percent_decoded(rest));
    }
}

/// One character, written as it is or with each of its bytes as an escape.
pub open spec fn written(c: char, plain: bool) -> Seq<char> {
    if plain {
        seq![c]
    } else {
        ascii_text(percent_encoded(encode_utf8(seq![c])))
    }
}

/// A text in which some characters are written as they are and the others as
/// escapes.
pub open spec fn partly_escaped(t: Seq<char>, plain: Seq<bool>) -> Seq<char>
    decreases t.len(),
{
    if t.len() == 0 {
        Seq::empty()
    } else {
        written(t[0], plain[0]) + partly_escaped(t.drop_first(), plain.drop_first())
    }
}

/// Whether the percent signs and ampersands of a text are among the characters
/// that are written as escapes.
pub open spec fn escapes_suffice(t: Seq<char>, plain: Seq<bool>) -> bool {
    &&& plain.len() == t.len()
    &&& forall|i: int| 0 <= i < t.len() && #[trigger] plain[i] ==> t[i] != '%' && t[i] != '&'
}

/// An escape holds no ampersand and no slash.
pub(crate) proof fn escape_is_plain(c: char)
    ensures
        !written(c, false).contains('&'),
        !written(c, false).contains('/'),
{
    let b = percent_encoded(encode_utf8(seq![c]));
    let s = written(c, false);
    escapes_are_ascii(encode_utf8(seq![c]));
    escapes_hold_no_slash(encode_utf8(seq![c]));
    assert forall|i: int| 0 <= i < s.len() implies s[i] != '&' && s[i] != '/' by {
        assert(s[i] == b[i] as char);
    }
}

proof fn escapes_hold_no_slash(b: Seq<u8>)
    ensures
        forall|i: int| 0 <= i < percent_encoded(b).len() ==> percent_encoded(b)[i] != 47,
    decreases b.len(),
{
    if b.len() > 0 {
        escapes_hold_no_slash(b.drop_first());
        let e = percent_encoded(b);
        assert forall|i: int| 0 <= i < e.len() implies e[i] != 47 by {
            if i >= 3 {
                assert(e[i] == percent_encoded(b.drop_first())[i - 3]);
            }
        }
    }
}

/// The bytes of a partly escaped text in front of another are those of the
/// text.
pub(crate) proof fn partly_escaped_bytes(t: Seq<char>, plain: Seq<bool>, rest: Seq<char>)
    requires
        escapes_suffice(t, plain),
    ensures
        unescaped_bytes(partly_escaped(t, plain) + rest) == encode_utf8(t) + unescaped_bytes(rest),
    decreases t.len(),
{
    if t.len() == 0 {
        assert(partly_escaped(t, plain) + rest =~= rest);
        assert(encode_utf8(t) + unescaped_bytes(rest) =~= unescaped_bytes(rest));
    } else {
        let more = partly_escaped(t.drop_first(), plain.drop_first()) + rest;
        let first = written(t[0], plain[0]);
        let one = seq![t[0]];
        assert forall|i: int| 0 <= i < t.len() - 1 && #[trigger] plain.drop_first()[i] implies
            t.drop_first()[i] != '%' && t.drop_first()[i] != '&' by {
            assert(plain[i + 1]);
        }
        partly_escaped_bytes(t.drop_first(), plain.drop_first(), rest);
        assert(partly_escaped(t, plain) + rest =~= first + more);
        assert(one + t.drop_first() =~= t);
        bytes_of_both(one, t.drop_first());
        if plain[0] {
            plain_front_is_kept(one, more);
        } else {
            let bytes = percent_encoded(encode_utf8(one));
            escape_is_plain(t[0]);
            escapes_are_ascii(encode_utf8(one));
            ascii_text_bytes(bytes);
            entities_behind_plain(first, more);
            bytes_of_both(first, entities_replaced(more));
            escaped_bytes_are_read_back(encode_utf8(one), encode_utf8(entities_replaced(more)));
        }
        assert(encode_utf8(one) + (encode_utf8(t.drop_first()) + unescaped_bytes(rest))
            =~= encode_utf8(t) + unescaped_bytes(rest));
    }
}

/// A text in which any characters are escaped, the percent signs and
/// ampersands among them, is read back as it was.
pub proof fn partly_escaped_text_is_read_back(t: Seq<char>, plain: Seq<bool>)
    requires
        escapes_suffice(t, plain),
    ensures
        unescaped(partly_escaped(t, plain)) == t,
{
    let e = partly_escaped(t, plain);
    partly_escaped_bytes(t, plain, Seq::empty());
    assert(e + Seq::<char>::empty() =~= e);
    no_bytes();
    assert(encode_utf8(t) + unescaped_bytes(Seq::empty()) =~= encode_utf8(t));
    encode_utf8_valid_utf8(t);
    encode_utf8_decode_utf8(t);
}

pub(crate) proof fn no_bytes()
    ensures
        unescaped_bytes(Seq::empty()).len() == 0,
{
    reveal_strlit("&#60;");
    let s = Seq::<char>::empty();
    entities_behind_plain(s, s);
    assert(entities_replaced(s) =~= s);
}

/// A partly escaped text holds no ampersand, and a slash only where the text
/// has one.
pub(crate) proof fn partly_escaped_holds(t: Seq<char>, plain: Seq<bool>)
    requires
        escapes_suffice(t, plain),
    ensures
        !t.contains('/') ==> !partly_escaped(t, plain).contains('/'),
    decreases t.len(),
{
    if t.len() > 0 && !t.contains('/') {
        let rest = t.drop_first();
        assert forall|x: char| rest.contains(x) implies t.contains(x) by {
            let k = choose|k: int| 0 <= k < rest.len() && rest[k] == x;
            assert(t[k + 1] == x);
        }
        assert forall|i: int| 0 <= i < t.len() - 1 && #[trigger] plain.drop_first()[i] implies
            rest[i] != '%' && rest[i] != '&' by {
            assert(plain[i + 1]);
        }
        partly_escaped_holds(rest, plain.drop_first());
        let first = written(t[0], plain[0]);
        let more = partly_escaped(rest, plain.drop_first());
        assert(t.contains(t[0]));
        escape_is_plain(t[0]);
        let e = partly_escaped(t, plain);
        if e.contains('/') {
            let k = choose|k: int| 0 <= k < e.len() && e[k] == '/';
            if k < first.len() {
                assert(first[k] == '/');
                assert(first.contains('/'));
            } else {
                assert(more[k - first.len()] == '/');
                assert(more.contains('/'));
            }
        }
    }
}

/// The text of one of the five entities.
pub open spec fn entity_of(c: char) -> Seq<char> {
    if c == '<' {
        "&#60;"@
    } else if c == '>' {
        "&#62;"@
    } else if c == '"' {
        "&#34;"@
    } else if c == '&' {
        "&#38;"@
    } else {
        "&#39;"@
    }
}

/// An entity is read as the character that it stands for, wherever it stands:
/// between texts without ampersands and percent signs. Behind an ampersand's
/// entity no `#` follows here, since the two could begin another entity.
pub proof fn entity_is_its_character(c: char, p: Seq<char>, s: Seq<char>)
    requires
        c == '<' || c == '>' || c == '"' || c == '&' || c == '\'',
        !p.contains('&'),
        !p.contains('%'),
        !s.contains('&'),
        !s.contains('%'),
        c == '&' ==> s.len() == 0 || s[0] != '#',
    ensures
        unescaped(p + entity_of(c) + s) == p + seq![c] + s,
{
    reveal_strlit("&#60;");
    reveal_strlit("&#62;");
    reveal_strlit("&#34;");
    reveal_strlit("&#38;");
    reveal_strlit("&#39;");
    reveal_strlit("<");
    reveal_strlit(">");
    reveal_strlit("\"");
    reveal_strlit("&");
    reveal_strlit("'");
    let e = entity_of(c);
    let x = p + e + s;
    let y = p + seq![c] + s;
    let l1 = "&#60;"@;
    let l2 = "&#62;"@;
    let l3 = "&#34;"@;
    let l4 = "&#38;"@;
    let l5 = "&#39;"@;
    one_replaced(p, e, s, c, l1, "<"@);
    one_replaced(p, e, s, c, l2, ">"@);
    one_replaced(p, e, s, c, l3, "\""@);
    one_replaced(p, e, s, c, l4, "&"@);
    one_replaced(p, e, s, c, l5, "'"@);
    assert("<"@ =~= seq!['<']);
    assert(">"@ =~= seq!['>']);
    assert("\""@ =~= seq!['"']);
    assert("&"@ =~= seq!['&']);
    assert("'"@ =~= seq!['\'']);
    assert(l1[2] == '6' && l2[2] == '6' && l3[2] == '3' && l4[2] == '3' && l5[2] == '3');
    assert(l1[3] == '0' && l2[3] == '2' && l3[3] == '4' && l4[3] == '8' && l5[3] == '9');
    assert(entities_replaced(x) == y);
    no_percent_byte(y);
    percent_decoding_keeps_plain_bytes(encode_utf8(y));
    encode_utf8_valid_utf8(y);
    encode_utf8_decode_utf8(y);
}

/// One replacement on a text with one entity, and on the text that it stands
/// for.
proof fn one_replaced(
    p: Seq<char>,
    e: Seq<char>,
    s: Seq<char>,
    c: char,
    l: Seq<char>,
    by: Seq<char>,
)
    requires
        !p.contains('&'),
        !p.contains('%'),
        !s.contains('&'),
        !s.contains('%'),
        c != '%',
        c == '&' ==> s.len() == 0 || s[0] != '#',
        e.len() == 5,
        l.len() == 5,
        e[0] == '&' && e[1] == '#' && e[2] != '&' && e[3] != '&' && e[4] == ';',
        l[0] == '&' && l[1] == '#' && l[2] != '&' && l[3] != '&' && l[4] == ';',
    ensures
        e == l ==> replaced(p + e + s, l, by) == p + by + s,
        e != l ==> replaced(p + e + s, l, by) == p + e + s,
        replaced(p + seq![c] + s, l, by) == p + seq![c] + s,
        !(p + seq![c] + s).contains('%'),
{
    let y = p + seq![c] + s;
    assert forall|i: int| 0 <= i < y.len() implies y[i] != '%' by {
        if i < p.len() {
            assert(p.contains(p[i]));
            assert(y[i] == p[i]);
        } else if i > p.len() {
            assert(s.contains(s[i - p.len() - 1]));
        }
    }
    assert(p + e + s =~= p + (e + s));
    assert(y =~= p + (seq![c] + s));
    entity_behind_plain(p, e + s, l, by);
    entity_behind_plain(p, seq![c] + s, l, by);
    assert(s + Seq::<char>::empty() =~= s);
    entity_behind_plain(s, Seq::empty(), l, by);
    assert(replaced(Seq::<char>::empty(), l, by) =~= Seq::empty());
    let es = e + s;
    if e == l {
        assert(es.subrange(0, 5) =~= l);
        assert(es.skip(5) =~= s);
        assert(p + (by + s) =~= p + by + s);
    } else {
        if has_prefix(es, l) {
            assert(es.subrange(0, 5) =~= e);
        }
        let tail = es.drop_first();
        assert forall|i: int| 0 <= i < tail.len() implies tail[i] != '&' by {
            if i < 4 {
                assert(tail[i] == e[i + 1]);
            } else {
                assert(s.contains(s[i - 4]));
            }
        }
        assert(tail + Seq::<char>::empty() =~= tail);
        entity_behind_plain(tail, Seq::empty(), l, by);
        assert(seq![es[0]] + tail =~= es);
    }
    let cs = seq![c] + s;
    if has_prefix(cs, l) {
        assert(cs.subrange(0, 5)[0] == l[0]);
        assert(cs.subrange(0, 5)[1] == l[1]);
        assert(s[0] == '#');
    }
    assert(cs.drop_first() =~= s);
}

/// Of an entity only itself is replaced: what stands behind it, whatever it
/// holds, is resolved as if it stood alone. An ampersand's entity is another
/// matter, since the ampersand may begin an entity with what follows.
pub proof fn entity_leaves_the_rest_alone(c: char, p: Seq<char>, s: Seq<char>)
    requires
        c == '<' || c == '>' || c == '"' || c == '\'',
        !p.contains('&'),
    ensures
        entities_replaced(p + entity_of(c) + s) == p + seq![c] + entities_replaced(s),
        entities_replaced(p) == p,
{
    reveal_strlit("&#60;");
    reveal_strlit("&#62;");
    reveal_strlit("&#34;");
    reveal_strlit("&#38;");
    reveal_strlit("&#39;");
    reveal_strlit("<");
    reveal_strlit(">");
    reveal_strlit("\"");
    reveal_strlit("'");
    let e = entity_of(c);
    let l1 = "&#60;"@;
    let l2 = "&#62;"@;
    let l3 = "&#34;"@;
    let l4 = "&#38;"@;
    let l5 = "&#39;"@;
    assert(l1[2] == '6' && l2[2] == '6' && l3[2] == '3' && l4[2] == '3' && l5[2] == '3');
    assert(l1[3] == '0' && l2[3] == '2' && l3[3] == '4' && l4[3] == '8' && l5[3] == '9');
    let s1 = replaced(s, l1, "<"@);
    let s2 = replaced(s1, l2, ">"@);
    let s3 = replaced(s2, l3, "\""@);
    let s4 = replaced(s3, l4, "&"@);
    front_replaced(p, e, s, c, l1, "<"@);
    front_replaced(p, e, s1, c, l2, ">"@);
    front_replaced(p, e, s2, c, l3, "\""@);
    front_replaced(p, e, s3, c, l4, "&"@);
    front_replaced(p, e, s4, c, l5, "'"@);
    assert("<"@ =~= seq!['<']);
    assert(">"@ =~= seq!['>']);
    assert("\""@ =~= seq!['"']);
    assert("'"@ =~= seq!['\'']);
    let none = Seq::<char>::empty();
    entities_behind_plain(p, none);
    assert(p + none =~= p);
    entities_behind_plain(none, none);
    no_bytes();
    nothing_replaced();
    assert(p + entities_replaced(none) =~= p);
}

proof fn nothing_replaced()
    ensures
        entities_replaced(Seq::empty()) == Seq::<char>::empty(),
{
    let none = Seq::<char>::empty();
    assert(replaced(none, "&#60;"@, "<"@) =~= none);
    assert(replaced(none, "&#62;"@, ">"@) =~= none);
    assert(replaced(none, "&#34;"@, "\""@) =~= none);
    assert(replaced(none, "&#38;"@, "&"@) =~= none);
    assert(replaced(none, "&#39;"@, "'"@) =~= none);
}

/// One replacement on an entity, or on the character that it stands for, in
/// front of any text.
proof fn front_replaced(
    p: Seq<char>,
    e: Seq<char>,
    s: Seq<char>,
    c: char,
    l: Seq<char>,
    by: Seq<char>,
)
    requires
        !p.contains('&'),
        c != '&',
        e.len() == 5,
        l.len() == 5,
        e[0] == '&' && e[1] != '&' && e[2] != '&' && e[3] != '&' && e[4] != '&',
        l[0] == '&',
    ensures
        e == l ==> replaced(p + e + s, l, by) == p + by + replaced(s, l, by),
        e != l ==> replaced(p + e + s, l, by) == p + e + replaced(s, l, by),
        replaced(p + seq![c] + s, l, by) == p + seq![c] + replaced(s, l, by),
{
    let r = replaced(s, l, by);
    let es = e + s;
    assert(p + e + s =~= p + es);
    entity_behind_plain(p, es, l, by);
    if e == l {
        assert(es.subrange(0, 5) =~= l);
        assert(es.skip(5) =~= s);
        assert(p + (by + r) =~= p + by + r);
    } else {
        if has_prefix(es, l) {
            assert(es.subrange(0, 5) =~= e);
        }
        let tail = e.drop_first();
        assert forall|i: int| 0 <= i < tail.len() implies tail[i] != '&' by {
            assert(tail[i] == e[i + 1]);
        }
        entity_behind_plain(tail, s, l, by);
        assert(es.drop_first() =~= tail + s);
        assert(p + (seq![es[0]] + (tail + r)) =~= p + e + r);
    }
    let pc = p + seq![c];
    assert forall|i: int| 0 <= i < pc.len() implies pc[i] != '&' by {
        if i < p.len() {
            assert(p.contains(p[i]));
        }
    }
    entity_behind_plain(pc, s, l, by);
}

/// An ampersand's entity is resolved once: where the ampersand then begins one
/// of the entities that were resolved before it, that one stays, and where it
/// begins an apostrophe's, the two become the apostrophe.
pub proof fn ampersand_is_resolved_once(p: Seq<char>, s: Seq<char>)
    requires
        !p.contains('&'),
        !s.contains('&'),
    ensures
        !has_prefix(s, "#39;"@) ==> entities_replaced(p + "&#38;"@ + s) == p + seq!['&'] + s,
        entities_replaced(p + "&#38;"@ + ("#39;"@ + s)) == p + seq!['\''] + s,
{
    reveal_strlit("#39;");
    let t = "#39;"@ + s;
    assert forall|i: int| 0 <= i < t.len() implies t[i] != '&' by {
        if i >= 4 {
            assert(s.contains(s[i - 4]));
        }
    }
    ampersand_until_apostrophe(p, s);
    ampersand_until_apostrophe(p, t);
    reveal_strlit("&#39;");
    reveal_strlit("'");
    assert("'"@ =~= seq!['\'']);
    let l = "&#39;"@;
    let by = "'"@;
    assert(p + seq!['&'] + s =~= p + (seq!['&'] + s));
    assert(p + seq!['&'] + t =~= p + (seq!['&'] + t));
    entity_behind_plain(p, seq!['&'] + s, l, by);
    entity_behind_plain(p, seq!['&'] + t, l, by);
    let none = Seq::<char>::empty();
    entity_behind_plain(s, none, l, by);
    assert(s + none =~= s);
    assert(replaced(none, l, by) =~= none);
    let a = seq!['&'] + s;
    let b = seq!['&'] + t;
    assert(a.drop_first() =~= s);
    if has_prefix(a, l) {
        assert(s.subrange(0, 4) =~= a.subrange(0, 5).drop_first());
        assert(l.drop_first() =~= "#39;"@);
        assert(has_prefix(s, "#39;"@));
    }
    assert(b.subrange(0, 5) =~= l);
    assert(b.skip(5) =~= s);
    assert(p + (by + s) =~= p + seq!['\''] + s);
}

/// The replacements up to that of the ampersand.
proof fn ampersand_until_apostrophe(p: Seq<char>, s: Seq<char>)
    requires
        !p.contains('&'),
        !s.contains('&'),
    ensures
        entities_replaced(p + "&#38;"@ + s) == replaced(p + seq!['&'] + s, "&#39;"@, "'"@),
{
    reveal_strlit("&#60;");
    reveal_strlit("&#62;");
    reveal_strlit("&#34;");
    reveal_strlit("&#38;");
    reveal_strlit("&");
    let e = "&#38;"@;
    let l1 = "&#60;"@;
    let l2 = "&#62;"@;
    let l3 = "&#34;"@;
    assert(l1[2] == '6' && l2[2] == '6' && l3[3] == '4' && e[2] == '3' && e[3] == '8');
    let none = Seq::<char>::empty();
    assert(s + none =~= s);
    assert(replaced(none, l1, "<"@) =~= none);
    assert(replaced(none, l2, ">"@) =~= none);
    assert(replaced(none, l3, "\""@) =~= none);
    assert(replaced(none, e, "&"@) =~= none);
    entity_behind_plain(s, none, l1, "<"@);
    entity_behind_plain(s, none, l2, ">"@);
    entity_behind_plain(s, none, l3, "\""@);
    entity_behind_plain(s, none, e, "&"@);
    front_replaced(p, e, s, ' ', l1, "<"@);
    front_replaced(p, e, s, ' ', l2, ">"@);
    front_replaced(p, e, s, ' ', l3, "\""@);
    front_replaced(p, e, s, ' ', e, "&"@);
    assert("&"@ =~= seq!['&']);
}

/// A text is resolved in two steps, first its entities and then the escapes in
/// what these left; where the bytes that come out are the UTF-8 of a text, that
/// text is the result.
pub proof fn entities_are_resolved_before_escapes(s: Seq<char>, t: Seq<char>)
    ensures
        percent_decoded(encode_utf8(entities_replaced(s))) == encode_utf8(t) ==> unescaped(s) == t,
        !valid_utf8(percent_decoded(encode_utf8(entities_replaced(s)))) ==> unescaped(s)
            == lossy_text(percent_decoded(encode_utf8(entities_replaced(s)))),
{
    encode_utf8_valid_utf8(t);
    encode_utf8_decode_utf8(t);
}

/// The local path of a `file://` URL is what follows the scheme, with or
/// without the host `localhost`. A drive letter loses the slash in front of
/// it, and a text of another form is left as it is.
pub proof fn file_url_names_its_path(path: Seq<char>)
    requires
        path.len() > 0,
        path[0] == '/',
    ensures
        path.len() < 3 || path[2] != ':' ==> file_url_path("file://localhost"@ + path) == path
            && file_url_path("file://"@ + path) == path,
        path.len() >= 3 && ('A' <= path[1] <= 'Z' || 'a' <= path[1] <= 'z') && path[2] == ':'
            ==> file_url_path("file://localhost"@ + path) == path.drop_first() && file_url_path(
            "file://"@ + path,
        ) == path.drop_first(),
        path.len() >= 3 && !('A' <= path[1] <= 'Z' || 'a' <= path[1] <= 'z') ==> file_url_path(
            "file://localhost"@ + path,
        ) == path && file_url_path("file://"@ + path) == path,
        file_url_path(path) == path,
{
    reveal_strlit("file://localhost");
    reveal_strlit("file://");
    reveal_strlit("localhost");
    let a = "file://localhost"@ + path;
    let b = "file://"@ + path;
    assert(a.subrange(0, 7) =~= "file://"@);
    assert(b.subrange(0, 7) =~= "file://"@);
    assert(a.skip(7) =~= "localhost"@ + path);
    assert(a.skip(7).subrange(0, 9) =~= "localhost"@);
    assert(a.skip(7).skip(9) =~= path);
    assert(b.skip(7) =~= path);
    if has_prefix(path, "localhost"@) {
        assert(path.subrange(0, 9)[0] == "localhost"@[0]);
    }
    if has_prefix(path, "file://"@) {
        assert(path.subrange(0, 7)[0] == "file://"@[0]);
    }
}

} // verus!
