use xml2yaml::convert::{convert, convert_xml_to_yaml};
use xml2yaml::error::ConvertError;
use xml2yaml::value::{OrderedMapping, StructuredValue};

fn scalar(text: &str) -> StructuredValue {
    StructuredValue::Scalar(text.to_string())
}

fn mapping(entries: Vec<(&str, StructuredValue)>) -> StructuredValue {
    let mut m = OrderedMapping::new();
    for (key, value) in entries {
        m.insert(key.to_string(), value);
    }
    StructuredValue::Mapping(m)
}

#[test]
fn scalar_only_document() {
    assert_eq!(convert_xml_to_yaml("<root>hello</root>").unwrap(), "root: hello\n");
    assert_eq!(
        convert("<root>hello</root>").unwrap(),
        mapping(vec![("root", scalar("hello"))])
    );
}

#[test]
fn repeated_sibling_overwrites() {
    assert_eq!(convert_xml_to_yaml("<r><a>1</a><a>2</a></r>").unwrap(), "r:\n  a: '2'\n");
    assert_eq!(
        convert("<r><a>1</a><a>2</a></r>").unwrap(),
        mapping(vec![("r", mapping(vec![("a", scalar("2"))]))])
    );
}

#[test]
fn last_of_many_siblings_wins() {
    assert_eq!(
        convert("<r><a>1</a><a>2</a><a>3</a><a>4</a></r>").unwrap(),
        mapping(vec![("r", mapping(vec![("a", scalar("4"))]))])
    );
}

#[test]
fn overwritten_sibling_keeps_its_place() {
    assert_eq!(
        convert_xml_to_yaml("<r><a>x</a><b>y</b><a>z</a></r>").unwrap(),
        "r:\n  a: z\n  b: y\n"
    );
}

#[test]
fn overwriting_sibling_may_change_kind() {
    assert_eq!(
        convert("<r><a>x</a><a><b>y</b></a></r>").unwrap(),
        mapping(vec![("r", mapping(vec![("a", mapping(vec![("b", scalar("y"))]))]))])
    );
}

#[test]
fn self_closing_element_is_empty_mapping() {
    assert_eq!(convert_xml_to_yaml("<r><a/></r>").unwrap(), "r:\n  a: {}\n");
    assert_eq!(
        convert("<r><a/></r>").unwrap(),
        mapping(vec![("r", mapping(vec![("a", mapping(vec![]))]))])
    );
}

#[test]
fn element_without_content_is_empty_mapping() {
    assert_eq!(convert_xml_to_yaml("<r><a></a></r>").unwrap(), "r:\n  a: {}\n");
    assert_eq!(convert_xml_to_yaml("<r><a>  \n </a></r>").unwrap(), "r:\n  a: {}\n");
    assert_eq!(convert_xml_to_yaml("<r/>").unwrap(), "r: {}\n");
}

#[test]
fn whitespace_between_tags_is_insignificant() {
    let indented = convert_xml_to_yaml("<r>\n  <a>x</a>\n</r>").unwrap();
    let compact = convert_xml_to_yaml("<r><a>x</a></r>").unwrap();
    assert_eq!(indented, compact);
    assert_eq!(compact, "r:\n  a: x\n");
    assert_eq!(
        convert("\n<r>\n\t<a>\n  x\n  </a>\r\n</r>\n").unwrap(),
        convert("<r><a>x</a></r>").unwrap()
    );
}

#[test]
fn trailing_text_clobbers_children() {
    assert_eq!(convert_xml_to_yaml("<r><a>1</a>text</r>").unwrap(), "r: text\n");
    assert_eq!(
        convert("<r><a>1</a>text</r>").unwrap(),
        mapping(vec![("r", scalar("text"))])
    );
}

#[test]
fn child_after_text_is_dropped() {
    assert_eq!(convert_xml_to_yaml("<r>text<a>1</a></r>").unwrap(), "r: text\n");
    assert_eq!(
        convert("<r>text<a>1</a></r>").unwrap(),
        mapping(vec![("r", scalar("text"))])
    );
}

#[test]
fn later_text_replaces_earlier_text() {
    assert_eq!(
        convert("<r>one<a/>two</r>").unwrap(),
        mapping(vec![("r", scalar("two"))])
    );
}

#[test]
fn nesting_is_mirrored() {
    assert_eq!(
        convert_xml_to_yaml("<a><b><c>x</c><d>y</d></b><e>z</e></a>").unwrap(),
        "a:\n  b:\n    c: x\n    d: y\n  e: z\n"
    );
    assert_eq!(
        convert("<a><b><c>x</c><d>y</d></b><e>z</e></a>").unwrap(),
        mapping(vec![(
            "a",
            mapping(vec![
                ("b", mapping(vec![("c", scalar("x")), ("d", scalar("y"))])),
                ("e", scalar("z")),
            ])
        )])
    );
}

#[test]
fn entities_are_resolved() {
    assert_eq!(
        convert("<r>a &amp; b &lt;c&gt; &#65;&#x42; &quot;q&quot; &apos;s&apos;</r>").unwrap(),
        mapping(vec![("r", scalar("a & b <c> AB \"q\" 's'"))])
    );
}

#[test]
fn attributes_are_ignored() {
    assert_eq!(
        convert("<r id=\"1\"><a x='2' y=\"a>b\">v</a></r>").unwrap(),
        mapping(vec![("r", mapping(vec![("a", scalar("v"))]))])
    );
}

#[test]
fn namespace_prefix_stays_in_the_key() {
    assert_eq!(
        convert("<n:r xmlns:n=\"u\"><n:a>v</n:a></n:r>").unwrap(),
        mapping(vec![("n:r", mapping(vec![("n:a", scalar("v"))]))])
    );
}

#[test]
fn declaration_comment_and_instruction_are_ignored() {
    assert_eq!(
        convert("<?xml version=\"1.0\"?><!-- c --><r><?pi d?><a>v</a><!-- e --></r>").unwrap(),
        mapping(vec![("r", mapping(vec![("a", scalar("v"))]))])
    );
}

#[test]
fn comment_does_not_undo_text() {
    assert_eq!(
        convert("<r>v<!-- c --></r>").unwrap(),
        mapping(vec![("r", scalar("v"))])
    );
}

#[test]
fn cdata_is_ignored() {
    assert_eq!(
        convert("<r><![CDATA[x]]></r>").unwrap(),
        mapping(vec![("r", mapping(vec![]))])
    );
}

#[test]
fn empty_text_is_empty_document() {
    assert_eq!(convert_xml_to_yaml("").unwrap(), "{}\n");
    assert_eq!(convert_xml_to_yaml("  \n ").unwrap(), "{}\n");
}

#[test]
fn text_without_element_is_the_document() {
    assert_eq!(convert("hello").unwrap(), scalar("hello"));
    assert_eq!(convert_xml_to_yaml("hello").unwrap(), "hello\n");
}

#[test]
fn several_top_level_elements_share_the_document() {
    assert_eq!(
        convert_xml_to_yaml("<a>1</a><b>x</b>").unwrap(),
        "a: '1'\nb: x\n"
    );
}

#[test]
fn scalar_is_quoted_where_yaml_needs_it() {
    assert_eq!(convert_xml_to_yaml("<r>true</r>").unwrap(), "r: 'true'\n");
    assert_eq!(convert_xml_to_yaml("<r>a: b</r>").unwrap(), "r: 'a: b'\n");
}

#[test]
fn mismatched_closing_tag_fails() {
    assert!(matches!(convert_xml_to_yaml("<r><a></r>"), Err(ConvertError::XmlParse(_))));
    assert!(matches!(convert("<r><a></r>"), Err(ConvertError::XmlParse(_))));
}

#[test]
fn missing_closing_tag_fails() {
    assert!(matches!(convert_xml_to_yaml("<r>"), Err(ConvertError::XmlParse(_))));
    assert!(matches!(convert_xml_to_yaml("<r><a>1</a>"), Err(ConvertError::XmlParse(_))));
    assert!(matches!(convert("<r><a>1"), Err(ConvertError::XmlParse(_))));
}

#[test]
fn unterminated_tag_fails() {
    assert!(matches!(convert_xml_to_yaml("<r"), Err(ConvertError::XmlParse(_))));
    assert!(matches!(convert_xml_to_yaml("<r><a x=\"1</a></r>"), Err(ConvertError::XmlParse(_))));
}

#[test]
fn stray_closing_tag_fails() {
    assert!(matches!(convert_xml_to_yaml("</r>"), Err(ConvertError::XmlParse(_))));
    assert!(matches!(convert_xml_to_yaml("<r></r></r>"), Err(ConvertError::XmlParse(_))));
}

#[test]
fn unknown_entity_fails() {
    assert!(matches!(convert_xml_to_yaml("<r>&bogus;</r>"), Err(ConvertError::XmlParse(_))));
    assert!(matches!(convert_xml_to_yaml("<r>a & b</r>"), Err(ConvertError::XmlParse(_))));
}

#[test]
fn unterminated_comment_fails() {
    assert!(matches!(convert_xml_to_yaml("<r><!-- c </r>"), Err(ConvertError::XmlParse(_))));
}

#[test]
fn failure_carries_a_description() {
    match convert_xml_to_yaml("<r><a></r>") {
        Err(e) => {
            assert_eq!(e.message(), "Expecting </a> found </r>");
        }
        Ok(text) => panic!("converted to {text:?}"),
    }
    match convert_xml_to_yaml("<r>") {
        Err(e) => {
            assert_eq!(e.message(), "unexpected end of document: an element is not closed");
        }
        Ok(text) => panic!("converted to {text:?}"),
    }
}

#[test]
fn odd_texts_convert_or_fail_cleanly() {
    let texts = [
        "<", ">", "<>", "</>", "</", "< />", "<a/", "<a", "<a b='>", "<a b=\">", "<a b='>'/>",
        "<!", "<!-", "<!--", "<!-->", "<!--->", "<!---->", "<!-- -- -->", "<!x>", "<![", "<![]]>",
        "<![CDATA[", "<![CDATA[]>", "<![CDATA[]]>", "<![CDATA]]>", "<!D", "<!D>", "<!DOCTYPE",
        "<!DOCTYPE>", "<!DOCTYPE >", "<!doctype r [<!ENTITY a 'b'>]>", "<?", "<?>", "<??>",
        "<?xml?>", "<?xml ?>", "<?xml version='1.0'", "&", "&;", "&#;", "&#x;", "&#0;",
        "&#xD800;", "&#x110000;", "&#99999999;", "&amp", "a&lt;b", "\u{feff}<r/>", "\u{feff}",
        "<r>\u{e9}\u{4e2d}</r>", "<\u{e9}>x</\u{e9}>", "<r></r >", "<r ></r>", "<r></ r>",
        "<a><b></a></b>", "<a/><a/>", "<a></a></a>", "]]>", "<r>]]></r>", "<r>\0</r>",
    ];
    for text in texts {
        match convert_xml_to_yaml(text) {
            Ok(yaml) => assert!(!yaml.is_empty(), "{text:?}"),
            Err(e) => assert!(!e.message().is_empty(), "{text:?}"),
        }
    }
}
