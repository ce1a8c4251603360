//! The XML events that the library reads and writes through `quick_xml`.

use vstd::prelude::*;
use quick_xml::events::Event;

verus! {

/// One event of an XML document, as `quick_xml` reports it: the raw content of
/// a start tag (name and attributes), the name of an end tag, the raw
/// (still escaped) content of a text node, or any other event.
pub enum XmlEvent {
    Start(Vec<u8>),
    End(Vec<u8>),
    Text(Vec<u8>),
    Other,
}

/// An [`XmlEvent`] as a mathematical value.
pub enum XmlEventView {
    Start(Seq<u8>),
    End(Seq<u8>),
    Text(Seq<u8>),
    Other,
}

impl View for XmlEvent {
    type V = XmlEventView;

    open spec fn view(&self) -> XmlEventView {
        match self {
            XmlEvent::Start(b) => XmlEventView::Start(b@),
            XmlEvent::End(b) => XmlEventView::End(b@),
            XmlEvent::Text(b) => XmlEventView::Text(b@),
            XmlEvent::Other => XmlEventView::Other,
        }
    }
}

/// The events of a document, each as its view.
pub open spec fn events_view(events: Seq<XmlEvent>) -> Seq<XmlEventView> {
    events.map_values(|e: XmlEvent| e@)
}

/// What a `quick_xml::Reader` reading `data` reports: the events before the
/// end of the document or the first error, and whether it reached the end of
/// the document without an error.
pub uninterp spec fn xml_events(data: Seq<u8>) -> (Seq<XmlEventView>, bool);

/// The result of reading a document: its events, and whether the reader
/// reached the end without an error.
pub struct XmlReadout {
    pub events: Vec<XmlEvent>,
    pub complete: bool,
}

/// Reads `data` with `quick_xml::Reader::read_event_into` until the end of
/// the document or the first error, and hands each event out as an
/// [`XmlEvent`]. Trusted: the readout is [`xml_events`] of the input, a
/// function of the bytes alone.
#[verifier::external_body]
pub(crate) fn read_xml_events(data: &[u8]) -> (readout: XmlReadout)
    ensures
        (events_view(readout.events@), readout.complete) == xml_events(data@),
{
    let mut reader = quick_xml::Reader::from_reader(data);
    let mut buf = Vec::new();
    let mut events = Vec::new();
    loop {
        match reader.read_event_into(&mut buf) {
            Ok(Event::Eof) => return XmlReadout { events, complete: true },
            Ok(Event::Start(e)) => events.push(XmlEvent::Start(e.to_vec())),
            Ok(Event::End(e)) => events.push(XmlEvent::End(e.to_vec())),
            Ok(Event::Text(e)) => events.push(XmlEvent::Text(e.to_vec())),
            Ok(_) => events.push(XmlEvent::Other),
            Err(_) => return XmlReadout { events, complete: false },
        }
        buf.clear();
    }
}

/// The replacement of one character by `quick_xml::escape::escape`.
pub open spec fn escape_char(c: char) -> Seq<char> {
    if c == '<' {
        seq!['&', 'l', 't', ';']
    } else if c == '>' {
        seq!['&', 'g', 't', ';']
    } else if c == '&' {
        seq!['&', 'a', 'm', 'p', ';']
    } else if c == '\'' {
        seq!['&', 'a', 'p', 'o', 's', ';']
    } else if c == '"' {
        seq!['&', 'q', 'u', 'o', 't', ';']
    } else {
        seq![c]
    }
}

/// `s` with each of `<`, `>`, `&`, `'` and `"` replaced by its entity.
pub open spec fn escaped(s: Seq<char>) -> Seq<char>
    decreases s.len(),
{
    if s.len() == 0 {
        seq![]
    } else {
        escaped(s.drop_last()) + escape_char(s.last())
    }
}

/// Calls `quick_xml::escape::escape`, which, as its documentation's table
/// states, replaces `<`, `>`, `&`, `'` and `"` by `&lt;`, `&gt;`, `&amp;`,
/// `&apos;` and `&quot;` and leaves every other character as it is.
#[verifier::external_body]
pub(crate) fn escape_text(raw: &str) -> (res: String)
    ensures
        res@ == escaped(raw@),
{
    quick_xml::escape::escape(raw).into_owned()
}

/// The bytes that a `quick_xml::Writer` without indentation writes for an
/// event: `<` content `>` for a start tag, `</` name `>` for an end tag, the
/// raw content of a text node; nothing for other events.
pub open spec fn written(e: XmlEventView) -> Seq<u8> {
    match e {
        XmlEventView::Start(b) => seq![60u8] + b + seq![62u8],
        XmlEventView::End(b) => seq![60u8, 47u8] + b + seq![62u8],
        XmlEventView::Text(b) => b,
        XmlEventView::Other => seq![],
    }
}

/// Appends the bytes written for `e` to `out`.
pub fn write_event(out: &mut Vec<u8>, e: &XmlEvent)
    ensures
        final(out)@ == old(out)@ + written(e@),
{
    match e {
        XmlEvent::Start(b) => {
            out.push(60u8);
            out.extend_from_slice(b.as_slice());
            out.push(62u8);
        },
        XmlEvent::End(b) => {
            out.push(60u8);
            out.push(47u8);
            out.extend_from_slice(b.as_slice());
            out.push(62u8);
        },
        XmlEvent::Text(b) => {
            out.extend_from_slice(b.as_slice());
        },
        XmlEvent::Other => {},
    }
}

} // verus!
