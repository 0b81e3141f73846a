use xml2yaml::error::ConvertError;
use xml2yaml::event::XmlEvent;
use xml2yaml::source::EventSource;

fn start(tag: &str) -> XmlEvent {
    XmlEvent::StartElement(tag.to_string())
}

fn text(content: &str) -> XmlEvent {
    XmlEvent::Text(content.to_string())
}

fn events(xml: &str) -> Vec<XmlEvent> {
    let mut source = EventSource::new(xml);
    let mut seen = Vec::new();
    loop {
        let event = source.next_event().unwrap();
        let last = event == XmlEvent::EndOfDocument;
        seen.push(event);
        if last {
            return seen;
        }
    }
}

#[test]
fn events_come_in_document_order() {
    assert_eq!(
        events("<r><a>x</a>t</r>"),
        vec![
            start("r"),
            start("a"),
            text("x"),
            XmlEvent::EndElement,
            text("t"),
            XmlEvent::EndElement,
            XmlEvent::EndOfDocument,
        ]
    );
}

#[test]
fn self_closing_tag_opens_and_closes() {
    assert_eq!(
        events("<r><a/></r>"),
        vec![
            start("r"),
            start("a"),
            XmlEvent::EndElement,
            XmlEvent::EndElement,
            XmlEvent::EndOfDocument,
        ]
    );
}

#[test]
fn whitespace_only_text_is_suppressed() {
    assert_eq!(
        events(" <r>\n  <a> x y </a>\n</r> "),
        vec![
            start("r"),
            start("a"),
            text("x y"),
            XmlEvent::EndElement,
            XmlEvent::EndElement,
            XmlEvent::EndOfDocument,
        ]
    );
}

#[test]
fn text_arrives_unescaped() {
    assert_eq!(
        events("<r>1 &lt; 2 &amp;&amp; 3 &gt; 2</r>"),
        vec![
            start("r"),
            text("1 < 2 && 3 > 2"),
            XmlEvent::EndElement,
            XmlEvent::EndOfDocument,
        ]
    );
}

#[test]
fn tag_name_stops_at_attributes() {
    assert_eq!(
        events("<item id=\"7\" kind='k'/>"),
        vec![start("item"), XmlEvent::EndElement, XmlEvent::EndOfDocument]
    );
}

#[test]
fn other_markup_is_reported_as_other() {
    assert_eq!(
        events("<?xml version=\"1.0\"?><!DOCTYPE r><r><!-- c --><![CDATA[d]]><?p q?></r>"),
        vec![
            XmlEvent::Other,
            XmlEvent::Other,
            start("r"),
            XmlEvent::Other,
            XmlEvent::Other,
            XmlEvent::Other,
            XmlEvent::EndElement,
            XmlEvent::EndOfDocument,
        ]
    );
}

#[test]
fn end_of_document_repeats() {
    let mut source = EventSource::new("<r/>");
    assert_eq!(source.next_event().unwrap(), start("r"));
    assert_eq!(source.next_event().unwrap(), XmlEvent::EndElement);
    assert_eq!(source.next_event().unwrap(), XmlEvent::EndOfDocument);
    assert_eq!(source.next_event().unwrap(), XmlEvent::EndOfDocument);
}

#[test]
fn unclosed_element_is_not_reported_by_the_source() {
    assert_eq!(events("<r>"), vec![start("r"), XmlEvent::EndOfDocument]);
}

#[test]
fn mismatched_end_is_a_failure() {
    let mut source = EventSource::new("<r><a></r>");
    assert_eq!(source.next_event().unwrap(), start("r"));
    assert_eq!(source.next_event().unwrap(), start("a"));
    assert!(matches!(source.next_event(), Err(ConvertError::XmlParse(_))));
}

#[test]
fn bad_entity_is_a_failure() {
    let mut source = EventSource::new("<r>&nope;</r>");
    assert_eq!(source.next_event().unwrap(), start("r"));
    assert!(matches!(source.next_event(), Err(ConvertError::XmlParse(_))));
}
