//! The stream of XML events that a document is read as.
use quick_xml::events::{BytesText, Event};
use quick_xml::reader::Reader;
use vstd::prelude::*;

verus! {

/// An XML event, as far as a reader of the library looks at it.
#[derive(Debug, PartialEq, Eq)]
pub enum XmlEvent {
    /// An opening tag, by its name.
    Start(String),
    /// A closing tag, by its name.
    End(String),
    /// A self-closing tag.
    Empty,
    /// Character data.
    Text(String),
    /// Character data with an entity that cannot be resolved, and why.
    BadText(String),
    /// The content of a CDATA section.
    CData(String),
    /// A comment, a declaration, a processing instruction or a document type.
    Other,
    /// The document cannot be read from here on, and why.
    Failed(String),
}

/// An XML event, over characters.
#[verifier::ext_equal]
pub enum XmlToken {
    Start(Seq<char>),
    End(Seq<char>),
    Empty,
    Text(Seq<char>),
    BadText(Seq<char>),
    CData(Seq<char>),
    Other,
    Failed(Seq<char>),
}

impl View for XmlEvent {
    type V = XmlToken;

    open spec fn view(&self) -> XmlToken {
        match self {
            XmlEvent::Start(s) => XmlToken::Start(s@),
            XmlEvent::End(s) => XmlToken::End(s@),
            XmlEvent::Empty => XmlToken::Empty,
            XmlEvent::Text(s) => XmlToken::Text(s@),
            XmlEvent::BadText(s) => XmlToken::BadText(s@),
            XmlEvent::CData(s) => XmlToken::CData(s@),
            XmlEvent::Other => XmlToken::Other,
            XmlEvent::Failed(s) => XmlToken::Failed(s@),
        }
    }
}

/// The events of a list, over characters.
pub open spec fn tokens(v: Seq<XmlEvent>) -> Seq<XmlToken> {
    v.map_values(|e: XmlEvent| e@)
}

/// The pull reader of `quick_xml`.
#[verifier::external_type_specification]
#[verifier::external_body]
#[verifier::reject_recursive_types(R)]
pub struct ExReader<R>(quick_xml::reader::Reader<R>);

/// What successive reads of a reader yield, up to the end of the document or
/// up to and with the first failure.
pub uninterp spec fn pending(r: Reader<&[u8]>) -> Seq<XmlToken>;

/// What successive reads of a document yield, character data as it is written
/// but for white space at its ends, up to the end of the document or up to and
/// with the first failure.
pub uninterp spec fn document_tokens(xml: Seq<char>) -> Seq<XmlToken>;

/// Character data with its entities resolved, or why one cannot be.
pub uninterp spec fn text_resolved(raw: Seq<char>) -> Result<Seq<char>, Seq<char>>;

/// `Reader::from_str`, with `trim_text` set in the reader's configuration. What
/// the reader will yield depends on the document alone.
#[verifier::external_body]
fn open_document(xml: &str) -> (r: Reader<&[u8]>)
    ensures
        pending(r) == document_tokens(xml@),
{
    let mut r = Reader::from_str(xml);
    r.config_mut().trim_text(true);
    r
}

/// `Reader::read_event_into`: the next event, `None` at the end of the
/// document, or the text of the error. Tag names and contents are parts of a
/// string, cut at ASCII characters, so that their bytes are text.
#[verifier::external_body]
fn read_event(r: &mut Reader<&[u8]>) -> (e: Result<Option<XmlEvent>, String>)
    ensures
        match e {
            Ok(Some(ev)) => {
                &&& pending(*old(r)).len() > 0
                &&& ev@ == pending(*old(r))[0]
                &&& pending(*final(r)) == pending(*old(r)).drop_first()
            },
            Ok(None) => pending(*old(r)).len() == 0,
            Err(m) => pending(*old(r)) == seq![XmlToken::Failed(m@)],
        },
{
    let mut buf = Vec::new();
    Ok(Some(match r.read_event_into(&mut buf) {
        Ok(Event::Start(t)) => XmlEvent::Start(String::from_utf8_lossy(t.name().0).into_owned()),
        Ok(Event::End(t)) => XmlEvent::End(String::from_utf8_lossy(t.name().0).into_owned()),
        Ok(Event::Empty(_)) => XmlEvent::Empty,
        Ok(Event::Text(t)) => XmlEvent::Text(String::from_utf8_lossy(&t).into_owned()),
        Ok(Event::CData(t)) => XmlEvent::CData(String::from_utf8_lossy(&t).into_owned()),
        Ok(Event::Eof) => return Ok(None),
        Ok(_) => XmlEvent::Other,
        Err(e) => return Err(e.to_string()),
    }))
}

/// `BytesText::unescape`: character data with the predefined entities and the
/// character references resolved, or the text of the error. The result depends
/// on the data alone.
#[verifier::external_body]
fn resolve_text(raw: &str) -> (r: Result<String, String>)
    ensures
        match r {
            Ok(s) => text_resolved(raw@) == Ok::<Seq<char>, Seq<char>>(s@),
            Err(m) => text_resolved(raw@) == Err::<Seq<char>, Seq<char>>(m@),
        },
{
    match BytesText::from_escaped(raw).unescape() {
        Ok(s) => Ok(s.into_owned()),
        Err(e) => Err(e.to_string()),
    }
}

/// An event with its character data resolved.
pub open spec fn resolved_token(t: XmlToken) -> XmlToken {
    match t {
        XmlToken::Text(raw) => match text_resolved(raw) {
            Ok(s) => XmlToken::Text(s),
            Err(m) => XmlToken::BadText(m),
        },
        _ => t,
    }
}

/// The events of a document, in order, with their character data resolved. A
/// document that cannot be read ends in a failure.
pub open spec fn document_events(xml: Seq<char>) -> Seq<XmlToken> {
    document_tokens(xml).map_values(|t: XmlToken| resolved_token(t))
}

/// Reads all events of a document.
pub fn read_events(xml: &str) -> (v: Vec<XmlEvent>)
    ensures
        tokens(v@) == document_events(xml@),
{
    let mut r = open_document(xml);
    let mut v: Vec<XmlEvent> = Vec::new();
    let ghost f = |t: XmlToken| resolved_token(t);
    assert(tokens(v@) + pending(r).map_values(f) =~= document_events(xml@));
    loop
        invariant
            f == |t: XmlToken| resolved_token(t),
            tokens(v@) + pending(r).map_values(f) == document_events(xml@),
        decreases pending(r).len(),
    {
        let ghost before = tokens(v@);
        let ghost left = pending(r);
        match read_event(&mut r) {
            Ok(Some(ev)) => {
                let ghost raw = ev@;
                let e: XmlEvent = match ev {
                    XmlEvent::Text(raw_text) => match resolve_text(raw_text.as_str()) {
                        Ok(s) => XmlEvent::Text(s),
                        Err(m) => XmlEvent::BadText(m),
                    },
                    other => other,
                };
                let ghost ev2 = e@;
                v.push(e);
                proof {
                    assert(ev2 == resolved_token(raw));
                    assert(tokens(v@) =~= before.push(ev2));
                    assert(before.push(ev2) + left.drop_first().map_values(f) =~= before
                        + left.map_values(f));
                }
            },
            Ok(None) => {
                assert(before + left.map_values(f) =~= before);
                return v;
            },
            Err(m) => {
                let ghost mv = m@;
                v.push(XmlEvent::Failed(m));
                proof {
                    assert(tokens(v@) =~= before.push(XmlToken::Failed(mv)));
                    assert(before + left.map_values(f) =~= before.push(XmlToken::Failed(mv)));
                }
                return v;
            },
        }
    }
}

} // verus!
