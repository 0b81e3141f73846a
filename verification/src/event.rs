//! The events that an XML text is read as.
use vstd::prelude::*;

verus! {

/// One structural event of an XML document, in document order.
#[derive(Debug, PartialEq)]
pub enum XmlEvent {
    /// An element opens. Holds its tag name.
    StartElement(String),
    /// The innermost open element closes.
    EndElement,
    /// Character data, with entity escapes resolved.
    Text(String),
    /// The text is exhausted.
    EndOfDocument,
    /// Anything else: a comment, a processing instruction, a declaration,
    /// a CDATA section.
    Other,
}

/// An event as a mathematical object.
pub enum EventView {
    StartElement(Seq<char>),
    EndElement,
    Text(Seq<char>),
    EndOfDocument,
    Other,
}

impl View for XmlEvent {
    type V = EventView;

    open spec fn view(&self) -> EventView {
        match self {
            XmlEvent::StartElement(tag) => EventView::StartElement(tag@),
            XmlEvent::EndElement => EventView::EndElement,
            XmlEvent::Text(content) => EventView::Text(content@),
            XmlEvent::EndOfDocument => EventView::EndOfDocument,
            XmlEvent::Other => EventView::Other,
        }
    }
}

/// What one read of an event source gives: an event, or a parse failure.
pub enum Reading {
    Event(EventView),
    Failure,
}

} // verus!
