use musicsync::xml_helpers::{decode_percent, hex_digit, strip_url_file_path_starting, unescape_xml};

#[test]
fn unescape_basic_entities() {
    assert_eq!(unescape_xml("&#60;hello&#62;"), "<hello>");
    assert_eq!(unescape_xml("a &#38; b"), "a & b");
    assert_eq!(unescape_xml("&#34;quoted&#34;"), "\"quoted\"");
    assert_eq!(unescape_xml("it&#39;s"), "it's");
}

#[test]
fn unescape_percent_utf8_byte_sequence() {
    assert_eq!(unescape_xml("Crumba%CC%88cher"), "Crumba\u{0308}cher");
}

#[test]
fn unescape_passthrough_for_plain_ascii() {
    assert_eq!(unescape_xml("Hello, World!"), "Hello, World!");
}

#[test]
fn unescape_preserves_unmatched_percent() {
    assert_eq!(unescape_xml("100% pure"), "100% pure");
}

#[test]
fn unescape_repairs_bytes_that_are_no_text() {
    assert_eq!(unescape_xml("a%FFb"), "a\u{FFFD}b");
    assert_eq!(unescape_xml("%C3%28"), "\u{FFFD}(");
}

#[test]
fn unescape_reads_both_cases_of_hex_digits() {
    assert_eq!(unescape_xml("%c3%A9"), "\u{e9}");
    assert_eq!(hex_digit(b'f'), Some(15));
    assert_eq!(hex_digit(b'F'), Some(15));
    assert_eq!(hex_digit(b'9'), Some(9));
    assert_eq!(hex_digit(b'g'), None);
}

#[test]
fn unescape_takes_entities_in_turn() {
    // An ampersand completes an entity that is replaced behind it, and no other.
    assert_eq!(unescape_xml("&#38;#60;"), "&#60;");
    assert_eq!(unescape_xml("&#38;#39;"), "'");
    assert_eq!(unescape_xml("%26%2360;"), "&#60;");
}

#[test]
fn plain_text_in_front_is_kept() {
    for rest in ["%C3%A9&#38;", "&#60;%", "", "50%25", "%FF&#62;%C3", "%80%80x"] {
        let whole = format!("Song \u{e9}; #1 {rest}");
        assert_eq!(unescape_xml(&whole), format!("Song \u{e9}; #1 {}", unescape_xml(rest)));
    }
}

#[test]
fn percent_at_the_end_is_kept() {
    assert_eq!(decode_percent(b"50%"), b"50%".to_vec());
    assert_eq!(decode_percent(b"50%2"), b"50%2".to_vec());
    assert_eq!(decode_percent(b"50%25"), b"50%".to_vec());
    assert_eq!(decode_percent(b"%2%20"), b"%2 ".to_vec());
}

#[test]
fn strip_file_url_basic() {
    assert_eq!(
        strip_url_file_path_starting("file:///Users/andrew/Music/x.mp3"),
        "/Users/andrew/Music/x.mp3"
    );
}

#[test]
fn strip_file_url_with_localhost() {
    assert_eq!(
        strip_url_file_path_starting("file://localhost/Users/andrew/x.mp3"),
        "/Users/andrew/x.mp3"
    );
}

#[test]
fn strip_file_url_windows_drive() {
    assert_eq!(
        strip_url_file_path_starting("file://localhost/C:/Users/Andrew/x.mp3"),
        "C:/Users/Andrew/x.mp3"
    );
    assert_eq!(
        strip_url_file_path_starting("file:///D:/music/x.mp3"),
        "D:/music/x.mp3"
    );
}

#[test]
fn strip_passthrough_for_non_file_url() {
    assert_eq!(strip_url_file_path_starting("/local/path.mp3"), "/local/path.mp3");
}
