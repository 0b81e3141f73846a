//! The conversion: XML text in, structured value or YAML text out.
use crate::builder::{finish, initial, step, State, TreeBuilder};
use crate::error::ConvertError;
use crate::event::{EventView, Reading, XmlEvent};
use crate::source::{xml_readings, EventSource};
use crate::tree::Tree;
use crate::value::{yaml_text, StructuredValue};
use vstd::prelude::*;

verus! {

/// What a builder in `state` makes of the readings that follow: events are
/// taken one by one until the document ends; a failure, or an end with an
/// element still open, gives nothing.
pub open spec fn drive(state: State, readings: Seq<Reading>) -> Option<Tree>
    decreases readings.len(),
{
    if readings.len() == 0 {
        None
    } else {
        match readings[0] {
            Reading::Failure => None,
            Reading::Event(EventView::EndOfDocument) => finish(state),
            Reading::Event(event) => drive(step(state, event), readings.skip(1)),
        }
    }
}

/// The structured value of an XML text, or `None` where the text is
/// malformed.
pub open spec fn document_tree(text: Seq<char>) -> Option<Tree> {
    drive(initial(), xml_readings(text))
}

/// Converts an XML text into a structured value.
pub fn convert(xml: &str) -> (r: Result<StructuredValue, ConvertError>)
    ensures
        match r {
            Ok(value) => document_tree(xml@) == Some(value@),
            Err(ConvertError::XmlParse(_)) => document_tree(xml@) is None,
            Err(ConvertError::Serialization(_)) => false,
        },
{
    let mut source = EventSource::new(xml);
    let mut builder = TreeBuilder::new();
    loop
        invariant
            document_tree(xml@) == drive(builder@, source.pending()),
        decreases source.pending().len(),
    {
        match source.next_event() {
            Err(e) => {
                return Err(e);
            },
            Ok(XmlEvent::EndOfDocument) => {
                return builder.finish();
            },
            Ok(event) => {
                builder.consume(event);
            },
        }
    }
}

/// Converts an XML text into a YAML text.
pub fn convert_xml_to_yaml(xml_content: &str) -> (r: Result<String, ConvertError>)
    ensures
        match r {
            Ok(text) => document_tree(xml_content@) matches Some(tree) && yaml_text(tree) == Some(
                text@,
            ),
            Err(ConvertError::XmlParse(_)) => document_tree(xml_content@) is None,
            Err(ConvertError::Serialization(_)) => document_tree(xml_content@) matches Some(tree)
                && yaml_text(tree) is None,
        },
{
    match convert(xml_content) {
        Ok(value) => value.to_yaml(),
        Err(e) => Err(e),
    }
}

} // verus!
