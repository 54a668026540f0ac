//! Markup events as plain values, and the pull loop that collects them.
use vstd::prelude::*;
use quick_xml::events::{BytesStart, BytesText, Event};

verus! {

/// One attribute of a start tag: its qualified key and its raw value bytes.
#[derive(Debug, Clone)]
pub struct XmlAttr {
    pub key: Vec<u8>,
    pub value: Vec<u8>,
}

/// One markup event. An empty-element tag stands for a start tag followed by its
/// end tag. A tag carries its qualified name and its whole content (the name and
/// the attributes); a text event carries its raw, still escaped bytes.
#[derive(Debug, Clone)]
pub enum XmlEvent {
    Start { name: Vec<u8>, content: Vec<u8> },
    Empty { name: Vec<u8>, content: Vec<u8> },
    End { name: Vec<u8> },
    Text { raw: Vec<u8> },
    CData { raw: Vec<u8> },
    Other,
    Eof,
    Fail { message: String },
}

/// Whether an event ends the stream.
pub open spec fn is_final(e: XmlEvent) -> bool {
    e is Eof || e is Fail
}

/// An event sequence as a pull parser delivers it: one final event, at its end.
pub open spec fn well_ended(s: Seq<XmlEvent>) -> bool {
    &&& s.len() >= 1
    &&& is_final(s.last())
    &&& forall|i: int| 0 <= i < s.len() - 1 ==> !is_final(#[trigger] s[i])
}

#[verifier::external_type_specification]
#[verifier::external_body]
#[verifier::reject_recursive_types(R)]
pub struct ExReader<R>(quick_xml::Reader<R>);

/// The events, as plain values, that `quick_xml::Reader` with text trimming delivers
/// for the document `xml`, up to and including the end of the stream or the first
/// error. They depend on the document alone.
pub uninterp spec fn markup_events(xml: Seq<char>) -> Seq<XmlEvent>;

/// The events that a reader has yet to deliver, up to and including the end of its
/// stream or its first error.
pub uninterp spec fn events_left(r: quick_xml::Reader<&[u8]>) -> Seq<XmlEvent>;

/// Relies on `quick_xml::Reader::from_str` and `Reader::trim_text(true)`: a pull
/// parser over `xml` that drops whitespace around text. Its stream ends with `Eof`
/// or an error, and nothing comes before that end but ordinary events.
#[verifier::external_body]
fn open_reader<'a>(xml: &'a str) -> (r: quick_xml::Reader<&'a [u8]>)
    ensures
        events_left(r) == markup_events(xml@),
        well_ended(events_left(r)),
{
    let mut r = quick_xml::Reader::from_str(xml);
    r.trim_text(true);
    r
}

/// Relies on `quick_xml::Reader::read_event`: the next event of the stream, as a plain value.
#[verifier::external_body]
fn next_event(r: &mut quick_xml::Reader<&[u8]>) -> (e: XmlEvent)
    ensures
        events_left(*old(r)).len() > 0 ==> e == events_left(*old(r))[0]
            && events_left(*final(r)) == events_left(*old(r)).drop_first(),
{
    match r.read_event() {
        Ok(Event::Start(e)) => XmlEvent::Start { name: e.name().0.to_vec(), content: e.to_vec() },
        Ok(Event::Empty(e)) => XmlEvent::Empty { name: e.name().0.to_vec(), content: e.to_vec() },
        Ok(Event::End(e)) => XmlEvent::End { name: e.name().0.to_vec() },
        Ok(Event::Text(t)) => XmlEvent::Text { raw: t.to_vec() },
        Ok(Event::CData(t)) => XmlEvent::CData { raw: t.to_vec() },
        Ok(Event::Eof) => XmlEvent::Eof,
        Ok(_) => XmlEvent::Other,
        Err(e) => XmlEvent::Fail { message: e.to_string() },
    }
}

/// The attributes that `quick_xml::events::BytesStart::attributes` reads from a tag
/// whose content is `content` and whose name takes its first `name_len` bytes.
pub uninterp spec fn tag_attrs(content: Seq<u8>, name_len: nat) -> Seq<Option<XmlAttr>>;

/// Relies on `BytesStart::from_content` and `BytesStart::attributes`: the attributes
/// of a tag in order, `None` for one that could not be read. Tag content that is not
/// UTF-8, which a reader over text never yields, has none.
#[verifier::external_body]
fn tag_attributes(content: &[u8], name_len: usize) -> (r: Vec<Option<XmlAttr>>)
    requires
        name_len <= content@.len(),
    ensures
        r@ == tag_attrs(content@, name_len as nat),
{
    match std::str::from_utf8(content) {
        Ok(s) => BytesStart::from_content(s, name_len).attributes().map(|a| a.ok().map(|a| XmlAttr { key: a.key.0.to_vec(), value: a.value.to_vec() })).collect(),
        Err(_) => Vec::new(),
    }
}

/// The attributes of a tag: none where the name is longer than the content.
pub open spec fn attrs_of(name: Seq<u8>, content: Seq<u8>) -> Seq<Option<XmlAttr>> {
    if name.len() <= content.len() { tag_attrs(content, name.len()) } else { Seq::empty() }
}

pub fn attributes_of(name: &Vec<u8>, content: &Vec<u8>) -> (r: Vec<Option<XmlAttr>>)
    ensures
        r@ == attrs_of(name@, content@),
{
    if name.len() <= content.len() {
        tag_attributes(content.as_slice(), name.len())
    } else {
        Vec::new()
    }
}

/// The text that `quick_xml::events::BytesText::unescape` gives for escaped content
/// `raw`, or `None` where it fails.
pub uninterp spec fn unescaped_text(raw: Seq<u8>) -> Option<Seq<char>>;

/// Relies on `BytesText::from_escaped` and `BytesText::unescape`: the text with its
/// entity references replaced; `None` for bytes that are not UTF-8 or an unknown reference.
#[verifier::external_body]
fn unescape_text(raw: &[u8]) -> (r: Option<String>)
    ensures
        match r {
            Some(t) => unescaped_text(raw@) == Some(t@),
            None => unescaped_text(raw@) is None,
        },
{
    BytesText::from_escaped(std::str::from_utf8(raw).ok()?).unescape().ok().map(|c| c.into_owned())
}

/// The characters of a text event: its unescaped text, or else its raw bytes decoded.
pub open spec fn text_chars(raw: Seq<u8>) -> Seq<char> {
    match unescaped_text(raw) {
        Some(t) => t,
        None => crate::text::lossy_chars(raw),
    }
}

pub fn event_text(raw: &Vec<u8>) -> (r: String)
    ensures
        r@ == text_chars(raw@),
{
    match unescape_text(raw.as_slice()) {
        Some(t) => t,
        None => crate::text::lossy_string(raw.as_slice()),
    }
}

/// The events of `xml`, up to and including the end of the stream or the first parse error.
pub fn xml_events(xml: &str) -> (r: Vec<XmlEvent>)
    ensures
        r@ == markup_events(xml@),
        well_ended(r@),
{
    let mut reader = open_reader(xml);
    let ghost all = markup_events(xml@);
    let mut out: Vec<XmlEvent> = Vec::new();
    loop
        invariant
            all == markup_events(xml@),
            well_ended(all),
            out@ + events_left(reader) == all,
            forall|i: int| 0 <= i < out@.len() ==> !is_final(#[trigger] out@[i]),
        decreases events_left(reader).len(),
    {
        proof {
            if events_left(reader).len() == 0 {
                assert(out@ =~= all);
                assert(!is_final(out@[out@.len() - 1]));
            }
            assert(events_left(reader).len() > 0);
        }
        let ghost before = out@;
        let ghost left = events_left(reader);
        let ev = next_event(&mut reader);
        proof {
            assert(before + left == all);
            assert(all[before.len() as int] == ev);
            assert(before.push(ev) + events_left(reader) =~= all);
        }
        match ev {
            XmlEvent::Eof => {
                out.push(ev);
                proof {
                    lemma_final_is_last(all, before.len() as int);
                    assert(out@ =~= all);
                }
                return out;
            },
            XmlEvent::Fail { .. } => {
                out.push(ev);
                proof {
                    lemma_final_is_last(all, before.len() as int);
                    assert(out@ =~= all);
                }
                return out;
            },
            _ => {
                out.push(ev);
            },
        }
    }
}

/// In a well-ended sequence, a final event can only be the last one.
proof fn lemma_final_is_last(s: Seq<XmlEvent>, i: int)
    requires
        well_ended(s),
        0 <= i < s.len(),
        is_final(s[i]),
    ensures
        i == s.len() - 1,
{
}

} // verus!
