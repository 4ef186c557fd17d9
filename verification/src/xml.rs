//! XML documents as a list of reader events, read through `quick_xml`.
//!
//! The parsers of the library (LawXML, procurement listings, e-Gov law
//! lists) are state machines over these events and are verified for every
//! event list; reading the bytes into events is `quick_xml`'s work.
use vstd::prelude::*;
use quick_xml::events::{BytesStart, Event};
use quick_xml::reader::Reader;

verus! {

#[verifier::external_type_specification]
#[verifier::external_body]
#[verifier::reject_recursive_types(R)]
pub struct ExReader<R>(Reader<R>);

#[verifier::external_type_specification]
#[verifier::external_body]
pub struct ExBytesStart<'a>(BytesStart<'a>);

/// One event of an XML reader that trims surrounding whitespace from text.
#[derive(Debug, Clone)]
pub enum XmlEvent {
    /// An opening tag: its name and its well-formed attributes, each with
    /// its raw value when that value is valid UTF-8.
    Start(String, Vec<(String, Option<String>)>),
    /// Character data with entities resolved.
    Text(String),
    /// A CDATA section.
    CData(String),
    /// A closing tag: its name.
    End(String),
    /// The end of the document.
    Eof,
    /// The reader's error message.
    Error(String),
    /// Any other event (empty elements, comments, declarations, ...).
    Other,
}

/// The events that a fresh `quick_xml` slice reader on `bytes`, with
/// `trim_text(true)`, yields through `Reader::read_event`, each converted
/// as `next_event` converts it, in order, up to and including the first
/// end of document or error.  The reader is deterministic on a byte
/// slice, so this is a function of the bytes.
pub uninterp spec fn xml_events(bytes: Seq<u8>) -> Seq<XmlEvent>;

/// The events a slice reader has still to yield, up to and including the
/// first end of document or error.
pub uninterp spec fn pending_events(r: Reader<&[u8]>) -> Seq<XmlEvent>;

/// `quick_xml::reader::Reader::from_reader(bytes)` with `trim_text(true)`:
/// a reader that has all of `xml_events(bytes)` to yield.  A slice reader
/// reaches the end of its input, where `read_event` reports `Eof`, unless
/// it reports an error first; so the list ends with the first of them.
#[verifier::external_body]
fn xml_reader(bytes: &[u8]) -> (r: Reader<&[u8]>)
    ensures
        pending_events(r) == xml_events(bytes@),
        pending_events(r).len() > 0,
        well_ended(pending_events(r)),
        is_stop(pending_events(r).last()),
{
    let mut r = Reader::from_reader(bytes);
    r.config_mut().trim_text(true);
    r
}

/// An opening tag as an `XmlEvent::Start`: its name (lossy UTF-8) and,
/// from `BytesStart::attributes` with malformed attributes skipped, each
/// key (lossy UTF-8) with its raw value if that is valid UTF-8.
#[verifier::external_body]
fn start_event(e: &BytesStart) -> XmlEvent {
    let lossy = |b: &[u8]| String::from_utf8_lossy(b).into_owned();
    let attrs = e.attributes().flatten();
    XmlEvent::Start(lossy(e.name().as_ref()), attrs.map(
        |a| (lossy(a.key.as_ref()), String::from_utf8(a.value.into_owned()).ok())).collect())
}

/// `Reader::read_event` on a slice reader, converted to an `XmlEvent`:
/// names and CDATA decoded lossily as UTF-8, text unescaped (an unescaping
/// error gives empty text).
/// It yields the next of the pending events.
#[verifier::external_body]
fn next_event(r: &mut Reader<&[u8]>) -> (e: XmlEvent)
    requires
        pending_events(*old(r)).len() > 0,
    ensures
        e == pending_events(*old(r))[0],
        pending_events(*final(r)) == pending_events(*old(r)).drop_first(),
{
    let lossy = |b: &[u8]| String::from_utf8_lossy(b).into_owned();
    match r.read_event() {
        Ok(Event::Start(e)) => start_event(&e),
        Ok(Event::Text(t)) => XmlEvent::Text(t.unescape().map(|c| c.into_owned()).unwrap_or_default()),
        Ok(Event::CData(t)) => XmlEvent::CData(lossy(t.as_ref())),
        Ok(Event::End(e)) => XmlEvent::End(lossy(e.name().as_ref())),
        Ok(Event::Eof) => XmlEvent::Eof,
        Err(e) => XmlEvent::Error(e.to_string()),
        Ok(_) => XmlEvent::Other,
    }
}

/// The end of the document or the reader's error.
pub open spec fn is_stop(e: XmlEvent) -> bool {
    e is Eof || e is Error
}

/// The events are read up to the document's end or the reader's first
/// error, and only the last one can be either.
pub open spec fn well_ended(evs: Seq<XmlEvent>) -> bool {
    forall|i: int| 0 <= i < evs.len() - 1 ==> !(#[trigger] evs[i] is Eof) && !(evs[i] is Error)
}

/// The events of `xml` in document order, up to and including the end of
/// the document or the first error: `xml_events(xml)`.
pub fn read_xml_events(xml: &[u8]) -> (evs: Vec<XmlEvent>)
    ensures
        evs@ == xml_events(xml@),
        well_ended(evs@),
        evs.len() >= 1,
{
    let mut reader = xml_reader(xml);
    let ghost all = xml_events(xml@);
    let mut evs: Vec<XmlEvent> = Vec::new();
    loop
        invariant
            all == xml_events(xml@),
            evs@ + pending_events(reader) == all,
            pending_events(reader).len() > 0,
            all.len() > 0,
            well_ended(all),
            is_stop(all.last()),
            forall|i: int| 0 <= i < evs.len() ==> !is_stop(#[trigger] evs@[i]),
        decreases pending_events(reader).len(),
    {
        let ghost before = evs@;
        let ghost pend = pending_events(reader);
        let e = next_event(&mut reader);
        assert(all[before.len() as int] == e);
        let stop = match &e {
            XmlEvent::Eof => true,
            XmlEvent::Error(_) => true,
            _ => false,
        };
        evs.push(e);
        if stop {
            assert(before.len() == all.len() - 1);
            assert(evs@ =~= all);
            return evs;
        }
        assert(evs@ + pending_events(reader) =~= all);
        assert(pending_events(reader).len() > 0) by {
            if pending_events(reader).len() == 0 {
                assert(all.last() == e);
            }
        }
    }
}

} // verus!
