//! Conversion of XML documents into YAML documents.
//!
//! An XML text is read as a stream of events, the events are folded into a
//! tree of mappings and scalars, and the tree is written out as YAML.
pub mod builder;
pub mod convert;
pub mod document;
pub mod error;
pub mod event;
pub mod source;
pub mod tree;
pub mod value;
