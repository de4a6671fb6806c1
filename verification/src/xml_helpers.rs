//! Decoding of the strings that a `Library.xml` holds.
use vstd::prelude::*;
use vstd::utf8::*;

use crate::text::{
    after_prefix, chars_of, has_prefix, occurs_at, replace_text, replaced,
    replaced_without_occurrence, string_from, string_of, without_prefix,
};

verus! {

/// What `String::from_utf8_lossy` makes of bytes that need not be UTF-8.
pub uninterp spec fn lossy_text(bytes: Seq<u8>) -> Seq<char>;

/// `String::from_utf8_lossy`: the text that the bytes encode, where they are
/// valid UTF-8; otherwise the text with replacement characters in place of the
/// invalid sequences, whose extent is not stated here. What is replaced are the
/// invalid sequences alone: text in front of other bytes stays as it is, and
/// those bytes are read as they are without it.
#[verifier::external_body]
pub(crate) fn decode_lossy(bytes: &[u8]) -> (s: String)
    ensures
        s@ == lossy_text(bytes@),
        valid_utf8(bytes@) ==> s@ == decode_utf8(bytes@),
        forall|p: Seq<char>, b: Seq<u8>|
            bytes@ == #[trigger] (encode_utf8(p) + b) ==> s@ == p + lossy_text(b),
{
    String::from_utf8_lossy(bytes).into_owned()
}

/// The value of a hexadecimal digit.
pub open spec fn hex_value(b: u8) -> Option<u8> {
    if 48 <= b <= 57 {
        Some((b - 48) as u8)
    } else if 65 <= b <= 70 {
        Some((b - 55) as u8)
    } else if 97 <= b <= 102 {
        Some((b - 87) as u8)
    } else {
        None
    }
}

/// Whether a percent sign and two hexadecimal digits begin `b`.
pub open spec fn begins_with_escape(b: Seq<u8>) -> bool {
    b.len() >= 3 && b[0] == 37 && hex_value(b[1]) is Some && hex_value(b[2]) is Some
}

/// The byte that an escape at the start of `b` stands for.
pub open spec fn escaped_byte(b: Seq<u8>) -> u8 {
    (hex_value(b[1])->0 * 16 + hex_value(b[2])->0) as u8
}

/// `b` with every `%XX` replaced by the byte that it stands for, from left to
/// right; a percent sign without two hexadecimal digits stays.
pub open spec fn percent_decoded(b: Seq<u8>) -> Seq<u8>
    decreases b.len(),
{
    if b.len() == 0 {
        Seq::empty()
    } else if begins_with_escape(b) {
        seq![escaped_byte(b)] + percent_decoded(b.skip(3))
    } else {
        seq![b[0]] + percent_decoded(b.drop_first())
    }
}

/// `s` with the five numeric entities replaced, each in the text that the one
/// before it left.
pub open spec fn entities_replaced(s: Seq<char>) -> Seq<char> {
    let a = replaced(s, "&#60;"@, "<"@);
    let b = replaced(a, "&#62;"@, ">"@);
    let c = replaced(b, "&#34;"@, "\""@);
    let d = replaced(c, "&#38;"@, "&"@);
    replaced(d, "&#39;"@, "'"@)
}

/// The bytes of `s` with its entities and percent escapes resolved.
pub open spec fn unescaped_bytes(s: Seq<char>) -> Seq<u8> {
    percent_decoded(encode_utf8(entities_replaced(s)))
}

/// `s` with its entities and percent escapes resolved: the text that the
/// resulting bytes encode.
pub open spec fn unescaped(s: Seq<char>) -> Seq<char> {
    let bytes = unescaped_bytes(s);
    if valid_utf8(bytes) {
        decode_utf8(bytes)
    } else {
        lossy_text(bytes)
    }
}

/// The value of a hexadecimal digit.
pub fn hex_digit(b: u8) -> (r: Option<u8>)
    ensures
        r == hex_value(b),
        r matches Some(v) ==> v < 16,
{
    if 48 <= b && b <= 57 {
        Some(b - 48)
    } else if 65 <= b && b <= 70 {
        Some(b - 65 + 10)
    } else if 97 <= b && b <= 102 {
        Some(b - 97 + 10)
    } else {
        None
    }
}

/// Resolves percent escapes.
pub fn decode_percent(b: &[u8]) -> (r: Vec<u8>)
    ensures
        r@ == percent_decoded(b@),
{
    let n: usize = b.len();
    let mut r: Vec<u8> = Vec::new();
    let mut i: usize = 0;
    assert(b@.skip(0) =~= b@);
    assert(Seq::<u8>::empty() + percent_decoded(b@) =~= percent_decoded(b@));
    while i < n
        invariant
            n == b@.len(),
            i <= n,
            r@ + percent_decoded(b@.skip(i as int)) == percent_decoded(b@),
        decreases n - i,
    {
        let ghost rest = b@.skip(i as int);
        let ghost before = r@;
        if b[i] == 37 && n - i > 2 {
            if let (Some(hi), Some(lo)) = (hex_digit(b[i + 1]), hex_digit(b[i + 2])) {
                let value: u8 = hi * 16 + lo;
                r.push(value);
                proof {
                    assert(begins_with_escape(rest));
                    assert(escaped_byte(rest) == value);
                    assert(rest.skip(3) =~= b@.skip(i + 3));
                    assert(before + (seq![value] + percent_decoded(rest.skip(3))) =~= r@
                        + percent_decoded(rest.skip(3)));
                }
                i = i + 3;
                continue ;
            }
        }
        r.push(b[i]);
        proof {
            assert(!begins_with_escape(rest));
            assert(rest.drop_first() =~= b@.skip(i + 1));
            assert(before + (seq![rest[0]] + percent_decoded(rest.drop_first())) =~= r@
                + percent_decoded(rest.drop_first()));
        }
        i = i + 1;
    }
    assert(b@.skip(n as int) =~= Seq::<u8>::empty());
    assert(r@ + Seq::<u8>::empty() =~= r@);
    r
}

/// Replaces the five numeric entities and resolves `%XX` escapes. A character
/// outside ASCII is written as several escapes, so the bytes are put together
/// first and read as UTF-8 afterwards.
///
/// A text without ampersands and percent signs in front of another is left as
/// it is, and what follows it is resolved as if it stood alone.
pub fn unescape_xml(input: &str) -> (r: String)
    ensures
        r@ == unescaped(input@),
        forall|p: Seq<char>, s: Seq<char>|
            input@ == #[trigger] (p + s) && !p.contains('&') && !p.contains('%') ==> r@ == p
                + unescaped(s),
{
    proof {
        reveal_strlit("&#60;");
        reveal_strlit("&#62;");
        reveal_strlit("&#34;");
        reveal_strlit("&#38;");
        reveal_strlit("&#39;");
    }
    let s: Vec<char> = chars_of(input);
    let a: Vec<char> = replace_text(&s, "&#60;", "<");
    let b: Vec<char> = replace_text(&a, "&#62;", ">");
    let c: Vec<char> = replace_text(&b, "&#34;", "\"");
    let d: Vec<char> = replace_text(&c, "&#38;", "&");
    let e: Vec<char> = replace_text(&d, "&#39;", "'");
    let entity_replaced: String = string_of(&e);
    let bytes: Vec<u8> = decode_percent(entity_replaced.as_str().as_bytes());
    let r: String = decode_lossy(&bytes);
    proof {
        assert forall|p: Seq<char>, s: Seq<char>|
            input@ == #[trigger] (p + s) && !p.contains('&') && !p.contains('%') implies r@ == p
            + unescaped(s) by {
            plain_front_is_kept(p, s);
            assert(bytes@ == encode_utf8(p) + unescaped_bytes(s));
        }
    }
    r
}

/// Whether a path is a drive letter behind a slash, such as `/C:`.
pub open spec fn is_drive_path(p: Seq<char>) -> bool {
    &&& p.len() >= 3
    &&& p[0] == '/'
    &&& ('A' <= p[1] <= 'Z' || 'a' <= p[1] <= 'z')
    &&& p[2] == ':'
}

/// The local path of a `file://` URL: the scheme and a `localhost` authority
/// removed, and the slash in front of a drive letter too. What is no such URL
/// stays as it is.
pub open spec fn file_url_path(s: Seq<char>) -> Seq<char> {
    if has_prefix(s, "file://"@) {
        let path = without_prefix(s.skip(7), "localhost"@);
        if is_drive_path(path) {
            path.drop_first()
        } else {
            path
        }
    } else {
        s
    }
}

/// Strips the `file://` (and optional `localhost`) prefix from an iTunes
/// Location URL. An absolute Unix path keeps its leading slash, a drive letter
/// loses it.
pub fn strip_url_file_path_starting(input: &str) -> (r: String)
    ensures
        r@ == file_url_path(input@),
{
    proof {
        reveal_strlit("file://");
    }
    let rest: String = match after_prefix(input, "file://") {
        Some(rest) => rest,
        None => {
            return input.to_owned();
        },
    };
    let path: String = match after_prefix(rest.as_str(), "localhost") {
        Some(path) => path,
        None => rest,
    };
    let p: Vec<char> = chars_of(path.as_str());
    if p.len() >= 3 && p[0] == '/' && (('A' <= p[1] && p[1] <= 'Z') || ('a' <= p[1] && p[1] <= 'z'))
        && p[2] == ':' {
        assert(p@.skip(1) =~= p@.drop_first());
        return string_from(&p, 1);
    }
    path
}

/// The percent escape of a byte, with upper-case digits.
pub open spec fn percent_encoded_byte(b: u8) -> Seq<u8> {
    seq![37u8, hex_byte((b / 16) as u8), hex_byte((b % 16) as u8)]
}

/// The hexadecimal digit of a value below 16.
pub open spec fn hex_byte(v: u8) -> u8 {
    if v < 10 {
        (48 + v) as u8
    } else {
        (55 + v) as u8
    }
}

/// Every byte as its percent escape.
pub open spec fn percent_encoded(b: Seq<u8>) -> Seq<u8>
    decreases b.len(),
{
    if b.len() == 0 {
        Seq::empty()
    } else {
        percent_encoded_byte(b[0]) + percent_encoded(b.drop_first())
    }
}

/// Decoding gives back what was percent-encoded.
pub proof fn percent_decoding_inverts_encoding(b: Seq<u8>)
    ensures
        percent_decoded(percent_encoded(b)) == b,
    decreases b.len(),
{
    if b.len() > 0 {
        let e = percent_encoded(b);
        let t = percent_encoded(b.drop_first());
        let v = b[0];
        percent_decoding_inverts_encoding(b.drop_first());
        assert(e[0] == 37);
        assert(e[1] == hex_byte((v / 16) as u8));
        assert(e[2] == hex_byte((v % 16) as u8));
        assert(begins_with_escape(e));
        assert(escaped_byte(e) == v);
        assert(e.skip(3) =~= t);
        assert(seq![v] + b.drop_first() =~= b);
    }
}

/// Bytes without a percent sign are left as they are.
pub proof fn percent_decoding_keeps_plain_bytes(b: Seq<u8>)
    requires
        forall|i: int| 0 <= i < b.len() ==> b[i] != 37,
    ensures
        percent_decoded(b) == b,
    decreases b.len(),
{
    if b.len() > 0 {
        percent_decoding_keeps_plain_bytes(b.drop_first());
        assert(seq![b[0]] + b.drop_first() =~= b);
    } else {
        assert(b =~= Seq::empty());
    }
}

// ---------------------------------------------------------------------------
// Texts
// ---------------------------------------------------------------------------

/// A character below 128 is one byte in UTF-8, and the bytes of any other are
/// all from 128 on.
proof fn bytes_of_scalar(c: u32, i: int)
    requires
        is_scalar(c),
        0 <= i < encode_scalar(c).len(),
    ensures
        c < 0x80 ==> encode_scalar(c) =~= seq![c as u8],
        c >= 0x80 ==> encode_scalar(c)[i] >= 0x80,
{
    assert(c < 0x80 ==> (c & 0x7F) as u8 == c as u8) by (bit_vector);
    assert((0xC0u8 | ((c >> 6) & 0x1F) as u8) >= 0x80) by (bit_vector);
    assert((0xE0u8 | ((c >> 12) & 0x0F) as u8) >= 0x80) by (bit_vector);
    assert((0xF0u8 | ((c >> 18) & 0x7) as u8) >= 0x80) by (bit_vector);
    assert((0x80u8 | (c & 0x3F) as u8) >= 0x80) by (bit_vector);
    assert((0x80u8 | ((c >> 6) & 0x3F) as u8) >= 0x80) by (bit_vector);
    assert((0x80u8 | ((c >> 12) & 0x3F) as u8) >= 0x80) by (bit_vector);
}

/// A text without a percent sign has none among its bytes.
pub(crate) proof fn no_percent_byte(s: Seq<char>)
    requires
        !s.contains('%'),
    ensures
        forall|i: int| 0 <= i < encode_utf8(s).len() ==> encode_utf8(s)[i] != 37,
    decreases s.len(),
{
    if s.len() > 0 {
        let rest = s.drop_first();
        assert forall|x: char| rest.contains(x) implies s.contains(x) by {
            let k = choose|k: int| 0 <= k < rest.len() && rest[k] == x;
            assert(s[k + 1] == x);
        }
        no_percent_byte(rest);
        let c = s[0] as u32;
        assert(s.contains(s[0]));
        char_is_scalar(s[0]);
        char_u32_cast(s[0], c);
        let first = encode_scalar(c);
        assert forall|i: int| 0 <= i < encode_utf8(s).len() implies encode_utf8(s)[i] != 37 by {
            if i < first.len() {
                bytes_of_scalar(c, i);
                assert(encode_utf8(s)[i] == first[i]);
                if c == 37 {
                    assert(s[0] == '%');
                }
            } else {
                assert(encode_utf8(s)[i] == encode_utf8(rest)[i - first.len()]);
            }
        }
    }
}

/// A text without an ampersand has no entity.
proof fn no_entity(s: Seq<char>, entity: Seq<char>, by: Seq<char>)
    requires
        !s.contains('&'),
        entity.len() > 0,
        entity[0] == '&',
    ensures
        replaced(s, entity, by) == s,
{
    assert forall|i: int| !occurs_at(s, entity, i) by {
        if occurs_at(s, entity, i) {
            assert(s.subrange(i, i + entity.len())[0] == entity[0]);
            assert(s[i] == '&');
            assert(s.contains(s[i]));
        }
    }
    replaced_without_occurrence(s, entity, by);
}

/// A text without an ampersand has none of the five entities.
proof fn no_entities(s: Seq<char>)
    requires
        !s.contains('&'),
    ensures
        entities_replaced(s) == s,
{
    reveal_strlit("&#60;");
    reveal_strlit("&#62;");
    reveal_strlit("&#34;");
    reveal_strlit("&#38;");
    reveal_strlit("&#39;");
    no_entity(s, "&#60;"@, "<"@);
    no_entity(s, "&#62;"@, ">"@);
    no_entity(s, "&#34;"@, "\""@);
    no_entity(s, "&#38;"@, "&"@);
    no_entity(s, "&#39;"@, "'"@);
}

/// A text without ampersands and percent signs is left as it is.
pub proof fn plain_text_is_kept(s: Seq<char>)
    requires
        !s.contains('&'),
        !s.contains('%'),
    ensures
        unescaped(s) == s,
{
    no_entities(s);
    no_percent_byte(s);
    percent_decoding_keeps_plain_bytes(encode_utf8(s));
    encode_utf8_valid_utf8(s);
    encode_utf8_decode_utf8(s);
}

/// A text without ampersands in front of another keeps out of the replacement
/// of an entity in the other.
pub(crate) proof fn entity_behind_plain(p: Seq<char>, s: Seq<char>, entity: Seq<char>, by: Seq<char>)
    requires
        !p.contains('&'),
        entity.len() > 0,
        entity[0] == '&',
    ensures
        replaced(p + s, entity, by) == p + replaced(s, entity, by),
    decreases p.len(),
{
    if p.len() == 0 {
        assert(p + s =~= s);
        assert(p + replaced(s, entity, by) =~= replaced(s, entity, by));
    } else {
        let rest = p.drop_first();
        assert forall|x: char| rest.contains(x) implies p.contains(x) by {
            let k = choose|k: int| 0 <= k < rest.len() && rest[k] == x;
            assert(p[k + 1] == x);
        }
        entity_behind_plain(rest, s, entity, by);
        assert(p.contains(p[0]));
        if has_prefix(p + s, entity) {
            assert((p + s).subrange(0, entity.len() as int)[0] == entity[0]);
            assert((p + s)[0] == '&');
        }
        assert((p + s).drop_first() =~= rest + s);
        assert(seq![p[0]] + (rest + replaced(s, entity, by)) =~= p + replaced(s, entity, by));
    }
}

/// A text without ampersands in front of another keeps out of the replacement
/// of the five entities in the other.
pub(crate) proof fn entities_behind_plain(p: Seq<char>, s: Seq<char>)
    requires
        !p.contains('&'),
    ensures
        entities_replaced(p + s) == p + entities_replaced(s),
{
    reveal_strlit("&#60;");
    reveal_strlit("&#62;");
    reveal_strlit("&#34;");
    reveal_strlit("&#38;");
    reveal_strlit("&#39;");
    let a = replaced(s, "&#60;"@, "<"@);
    let b = replaced(a, "&#62;"@, ">"@);
    let c = replaced(b, "&#34;"@, "\""@);
    let d = replaced(c, "&#38;"@, "&"@);
    entity_behind_plain(p, s, "&#60;"@, "<"@);
    entity_behind_plain(p, a, "&#62;"@, ">"@);
    entity_behind_plain(p, b, "&#34;"@, "\""@);
    entity_behind_plain(p, c, "&#38;"@, "&"@);
    entity_behind_plain(p, d, "&#39;"@, "'"@);
}

/// The bytes of a text behind another are those of the one behind those of the
/// other.
pub(crate) proof fn bytes_of_both(p: Seq<char>, s: Seq<char>)
    ensures
        encode_utf8(p + s) == encode_utf8(p) + encode_utf8(s),
    decreases p.len(),
{
    if p.len() == 0 {
        assert(p + s =~= s);
        assert(encode_utf8(p) + encode_utf8(s) =~= encode_utf8(s));
    } else {
        bytes_of_both(p.drop_first(), s);
        assert((p + s).drop_first() =~= p.drop_first() + s);
        let first = encode_scalar(p[0] as u32);
        assert(first + (encode_utf8(p.drop_first()) + encode_utf8(s)) =~= (first + encode_utf8(
            p.drop_first(),
        )) + encode_utf8(s));
    }
}

/// Bytes without a percent sign in front of others keep out of the decoding of
/// the others.
pub(crate) proof fn decoding_behind_plain(a: Seq<u8>, b: Seq<u8>)
    requires
        forall|i: int| 0 <= i < a.len() ==> a[i] != 37,
    ensures
        percent_decoded(a + b) == a + percent_decoded(b),
    decreases a.len(),
{
    if a.len() == 0 {
        assert(a + b =~= b);
        assert(a + percent_decoded(b) =~= percent_decoded(b));
    } else {
        let rest = a.drop_first();
        decoding_behind_plain(rest, b);
        assert((a + b)[0] == a[0]);
        assert((a + b).drop_first() =~= rest + b);
        assert(seq![a[0]] + (rest + percent_decoded(b)) =~= a + percent_decoded(b));
    }
}

/// A text without ampersands and percent signs in front of another is left as
/// it is, and what follows it is resolved as if it stood alone. Where the bytes
/// of what follows are no UTF-8, those of both together are read instead.
pub proof fn plain_front_is_kept(p: Seq<char>, s: Seq<char>)
    requires
        !p.contains('&'),
        !p.contains('%'),
    ensures
        unescaped_bytes(p + s) == encode_utf8(p) + unescaped_bytes(s),
        valid_utf8(unescaped_bytes(s)) ==> unescaped(p + s) == p + unescaped(s),
        !valid_utf8(unescaped_bytes(s)) ==> unescaped(p + s) == lossy_text(
            encode_utf8(p) + unescaped_bytes(s),
        ),
{
    let bytes = unescaped_bytes(s);
    let front = encode_utf8(p);
    let all = front + bytes;
    entities_behind_plain(p, s);
    bytes_of_both(p, entities_replaced(s));
    no_percent_byte(p);
    decoding_behind_plain(front, encode_utf8(entities_replaced(s)));
    if valid_utf8(bytes) {
        let t = decode_utf8(bytes);
        decode_utf8_encode_utf8(bytes);
        bytes_of_both(p, t);
        encode_utf8_valid_utf8(p + t);
        encode_utf8_decode_utf8(p + t);
    } else {
        encode_utf8_valid_utf8(p);
        assert(all.subrange(0, front.len() as int) =~= front);
        assert(all.subrange(front.len() as int, all.len() as int) =~= bytes);
        partial_valid_partial_invalid_utf8(all, front.len() as int);
    }
}

/// Bytes below 128 as characters.
pub open spec fn ascii_text(b: Seq<u8>) -> Seq<char> {
    b.map_values(|x: u8| x as char)
}

/// Bytes below 128, as characters, have themselves as bytes.
pub(crate) proof fn ascii_text_bytes(b: Seq<u8>)
    requires
        forall|i: int| 0 <= i < b.len() ==> b[i] < 128,
    ensures
        encode_utf8(ascii_text(b)) == b,
    decreases b.len(),
{
    let t = ascii_text(b);
    if b.len() > 0 {
        let rest = b.drop_first();
        assert forall|i: int| 0 <= i < rest.len() implies rest[i] < 128 by {
            assert(rest[i] == b[i + 1]);
        }
        ascii_text_bytes(rest);
        assert(t.drop_first() =~= ascii_text(rest));
        let c = t[0] as u32;
        assert(b[0] < 128);
        assert(c == b[0]);
        char_is_scalar(t[0]);
        bytes_of_scalar(c, 0);
        assert(encode_scalar(c) =~= seq![b[0]]);
        assert(seq![b[0]] + rest =~= b);
    } else {
        assert(encode_utf8(t) =~= b);
    }
}

/// Percent escapes are written with characters below 128, and none of them is
/// an ampersand.
pub(crate) proof fn escapes_are_ascii(b: Seq<u8>)
    ensures
        forall|i: int|
            0 <= i < percent_encoded(b).len() ==> percent_encoded(b)[i] < 128
                && percent_encoded(b)[i] != 38,
    decreases b.len(),
{
    if b.len() > 0 {
        escapes_are_ascii(b.drop_first());
        let e = percent_encoded(b);
        assert forall|i: int| 0 <= i < e.len() implies e[i] < 128 && e[i] != 38 by {
            if i >= 3 {
                assert(e[i] == percent_encoded(b.drop_first())[i - 3]);
            } else {
                assert(e[i] == percent_encoded_byte(b[0])[i]);
            }
        }
    }
}

/// A text whose every byte is written as a percent escape is read back as it
/// was, whatever characters it has.
pub proof fn escaped_text_is_read_back(s: Seq<char>)
    ensures
        unescaped(ascii_text(percent_encoded(encode_utf8(s)))) == s,
{
    let e = percent_encoded(encode_utf8(s));
    let t = ascii_text(e);
    escapes_are_ascii(encode_utf8(s));
    if t.contains('&') {
        let i = choose|i: int| 0 <= i < t.len() && t[i] == '&';
        assert(e[i] as char == '&');
        assert(e[i] == 38);
    }
    no_entities(t);
    ascii_text_bytes(e);
    percent_decoding_inverts_encoding(encode_utf8(s));
    encode_utf8_valid_utf8(s);
    encode_utf8_decode_utf8(s);
}

} // verus!
