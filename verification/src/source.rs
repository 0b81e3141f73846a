//! The event source: an XML text read event by event.
//!
//! The reading is done by `quick_xml`. What this module takes on trust about
//! that library is in the items marked `external_body`.
use crate::error::ConvertError;
use crate::event::{EventView, Reading, XmlEvent};
use quick_xml::events::Event;
use quick_xml::reader::Reader;
use vstd::prelude::*;

verus! {

/// `quick_xml::reader::Reader`, as a type whose values are known only
/// through `pending_readings`.
#[verifier::external_type_specification]
#[verifier::external_body]
#[verifier::reject_recursive_types(R)]
pub struct ExXmlReader<R>(Reader<R>);

/// `quick_xml::Error`, as a type of which nothing is known.
#[verifier::external_type_specification]
#[verifier::external_body]
pub struct ExXmlError(quick_xml::Error);

/// The readings that an XML text gives when it is read from its start with
/// surrounding whitespace trimmed from character data and self-closing tags
/// expanded: every reading up to and including the first that is
/// `EndOfDocument` or a failure.
pub uninterp spec fn xml_readings(text: Seq<char>) -> Seq<Reading>;

/// The readings that a reader has yet to give: every reading from its next
/// one up to and including the first that is `EndOfDocument` or a failure.
pub uninterp spec fn pending_readings(reader: Reader<&[u8]>) -> Seq<Reading>;

/// A result of reading as a `Reading`.
pub open spec fn reading_of(r: Result<XmlEvent, quick_xml::Error>) -> Reading {
    match r {
        Ok(event) => Reading::Event(event@),
        Err(_) => Reading::Failure,
    }
}

/// Whether a reading ends the stream: `EndOfDocument`, or a failure.
pub open spec fn is_last(reading: Reading) -> bool {
    reading is Failure || reading == Reading::Event(EventView::EndOfDocument)
}

/// `Reader::from_str`, then `Reader::trim_text(true)` and
/// `Reader::expand_empty_elements(true)` on the new reader. The reader stands
/// at the start of the text, so what it has yet to give is what the text
/// gives.
#[verifier::external_body]
fn xml_reader<'a>(text: &'a str) -> (reader: Reader<&'a [u8]>)
    ensures
        pending_readings(reader) == xml_readings(text@),
{
    let mut reader = Reader::from_str(text);
    reader.trim_text(true);
    reader.expand_empty_elements(true);
    reader
}

/// `Reader::read_event`, with the event it returns turned into an `XmlEvent`:
/// a start tag by `String::from_utf8_lossy` of `BytesStart::name`, character
/// data by `BytesText::unescape`, whose error is a failure like the reader's
/// own. A reader always has a next reading (after the end of the document it
/// reports the end again); the result is that reading, and unless it ends
/// the stream the reader has moved on by exactly one.
#[verifier::external_body]
fn xml_read_event(reader: &mut Reader<&[u8]>) -> (r: Result<XmlEvent, quick_xml::Error>)
    ensures
        pending_readings(*old(reader)).len() > 0,
        reading_of(r) == pending_readings(*old(reader))[0],
        !is_last(reading_of(r)) ==> pending_readings(*final(reader)) == pending_readings(
            *old(reader),
        ).skip(1),
{
    Ok(
        match reader.read_event()? {
            Event::Start(e) => XmlEvent::StartElement(
                String::from_utf8_lossy(e.name().into_inner()).into_owned(),
            ),
            Event::Text(e) => XmlEvent::Text(e.unescape()?.into_owned()),
            Event::End(_) => XmlEvent::EndElement,
            Event::Eof => XmlEvent::EndOfDocument,
            _ => XmlEvent::Other,
        },
    )
}

/// The `Display` text of a `quick_xml::Error`. Nothing is claimed of it.
#[verifier::external_body]
fn xml_error_message(error: &quick_xml::Error) -> String {
    error.to_string()
}

/// An XML text that is being read event by event.
pub struct EventSource<'a> {
    reader: Reader<&'a [u8]>,
}

impl<'a> EventSource<'a> {
    /// The readings that are yet to come, up to and including the first
    /// that is `EndOfDocument` or a failure.
    pub closed spec fn pending(&self) -> Seq<Reading> {
        pending_readings(self.reader)
    }

    /// An event source at the start of `text`.
    pub fn new(text: &'a str) -> (source: EventSource<'a>)
        ensures
            source.pending() == xml_readings(text@),
    {
        EventSource { reader: xml_reader(text) }
    }

    /// Reads the next event. A parse failure comes back as
    /// `ConvertError::XmlParse`.
    pub fn next_event(&mut self) -> (r: Result<XmlEvent, ConvertError>)
        ensures
            old(self).pending().len() > 0,
            match r {
                Ok(event) => old(self).pending()[0] == Reading::Event(event@),
                Err(ConvertError::XmlParse(_)) => old(self).pending()[0] is Failure,
                Err(ConvertError::Serialization(_)) => false,
            },
            !is_last(old(self).pending()[0]) ==> final(self).pending() == old(self).pending().skip(
                1,
            ),
    {
        match xml_read_event(&mut self.reader) {
            Ok(event) => Ok(event),
            Err(e) => Err(ConvertError::XmlParse(xml_error_message(&e))),
        }
    }
}

} // verus!
