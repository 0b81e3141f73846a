//! Structured values: what a document becomes before it is written as YAML.
//!
//! A mapping is kept in a `serde_yaml::Mapping`, so that entries keep their
//! insertion order and a repeated key overwrites in place exactly as the YAML
//! library does it. What this module takes on trust about that library is in
//! the items marked `external_body`.
use crate::error::ConvertError;
use crate::tree::{put, Entries, Tree};
use vstd::prelude::*;

verus! {

/// `serde_yaml::Mapping`, as a type whose values are known only through
/// `mapping_entries`.
#[verifier::external_type_specification]
#[verifier::external_body]
pub struct ExYamlMapping(serde_yaml::Mapping);

/// `serde_yaml::Error`, as a type of which nothing is known.
#[verifier::external_type_specification]
#[verifier::external_body]
pub struct ExYamlError(serde_yaml::Error);

/// The entries that a YAML mapping built by this module holds, in the order
/// in which the mapping yields them: each key as text, each value as a tree.
pub uninterp spec fn mapping_entries(mapping: serde_yaml::Mapping) -> Entries;

/// The YAML text that `serde_yaml::to_string` produces for a tree, or `None`
/// where it reports an error.
pub uninterp spec fn yaml_text(tree: Tree) -> Option<Seq<char>>;

/// An insertion-ordered mapping from element names to structured values.
///
/// `==` holds of two mappings that store equal values under the same keys,
/// in whatever order.
#[derive(Debug, PartialEq)]
pub struct OrderedMapping {
    inner: serde_yaml::Mapping,
}

/// A structured value: a mapping, or the text of an element.
#[derive(Debug, PartialEq)]
pub enum StructuredValue {
    Mapping(OrderedMapping),
    Scalar(String),
}

impl View for OrderedMapping {
    type V = Entries;

    closed spec fn view(&self) -> Entries {
        mapping_entries(self.inner)
    }
}

impl View for StructuredValue {
    type V = Tree;

    open spec fn view(&self) -> Tree {
        match self {
            StructuredValue::Mapping(m) => Tree::Mapping(m@),
            StructuredValue::Scalar(s) => Tree::Scalar(s@),
        }
    }
}

/// `serde_yaml::Mapping::new`: the new mapping holds no entry.
#[verifier::external_body]
fn yaml_mapping_new() -> (mapping: serde_yaml::Mapping)
    ensures
        mapping_entries(mapping) == Seq::<(Seq<char>, Tree)>::empty(),
{
    serde_yaml::Mapping::new()
}

/// `serde_yaml::Mapping::insert`, with the key as a YAML string and the value
/// as the YAML mapping or string that it stands for. Where the key is already
/// present its entry keeps its place and takes the new value; otherwise the
/// pair becomes the last entry. The value that was replaced is dropped.
#[verifier::external_body]
fn yaml_mapping_insert(mapping: &mut serde_yaml::Mapping, key: String, value: StructuredValue)
    ensures
        mapping_entries(*final(mapping)) == put(mapping_entries(*old(mapping)), key@, value@),
{
    let value = match value {
        StructuredValue::Mapping(m) => serde_yaml::Value::Mapping(m.inner),
        StructuredValue::Scalar(s) => serde_yaml::Value::String(s),
    };
    mapping.insert(serde_yaml::Value::String(key), value);
}

/// `serde_yaml::to_string`, on the YAML mapping or on the string that `value`
/// holds. The outcome depends on the tree alone: the same tree gives the same
/// text, or fails, every time.
#[verifier::external_body]
fn yaml_to_string(value: &StructuredValue) -> (r: Result<String, serde_yaml::Error>)
    ensures
        match r {
            Ok(text) => yaml_text(value@) == Some(text@),
            Err(_) => yaml_text(value@) is None,
        },
{
    match value {
        StructuredValue::Mapping(m) => serde_yaml::to_string(&m.inner),
        StructuredValue::Scalar(s) => serde_yaml::to_string(s),
    }
}

/// The `Display` text of a `serde_yaml::Error`. Nothing is claimed of it.
#[verifier::external_body]
fn yaml_error_message(error: &serde_yaml::Error) -> String {
    error.to_string()
}

impl OrderedMapping {
    /// The mapping without entries.
    pub fn new() -> (mapping: OrderedMapping)
        ensures
            mapping@ == Seq::<(Seq<char>, Tree)>::empty(),
    {
        OrderedMapping { inner: yaml_mapping_new() }
    }

    /// Stores `value` under `key`. A key that is already present keeps its
    /// place and its old value is overwritten; a new key goes to the end.
    pub fn insert(&mut self, key: String, value: StructuredValue)
        ensures
            final(self)@ == put(old(self)@, key@, value@),
    {
        yaml_mapping_insert(&mut self.inner, key, value);
    }
}

impl StructuredValue {
    /// The mapping without entries, as a value.
    pub fn empty() -> (value: StructuredValue)
        ensures
            value@ == crate::tree::empty_tree(),
    {
        StructuredValue::Mapping(OrderedMapping::new())
    }

    /// Writes the value as a YAML document.
    pub fn to_yaml(&self) -> (r: Result<String, ConvertError>)
        ensures
            match r {
                Ok(text) => yaml_text(self@) == Some(text@),
                Err(ConvertError::Serialization(_)) => yaml_text(self@) is None,
                Err(ConvertError::XmlParse(_)) => false,
            },
    {
        match yaml_to_string(self) {
            Ok(text) => Ok(text),
            Err(e) => Err(ConvertError::Serialization(yaml_error_message(&e))),
        }
    }
}

} // verus!
