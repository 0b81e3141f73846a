//! The ways in which a conversion fails.
use vstd::prelude::*;

verus! {

/// Why a conversion produced no output.
#[derive(Debug, PartialEq, Eq)]
pub enum ConvertError {
    /// The XML text is malformed. Holds a description of the fault.
    XmlParse(String),
    /// The value could not be written as YAML. Holds a description of the
    /// fault.
    Serialization(String),
}

impl ConvertError {
    /// The description of the fault.
    pub fn message(&self) -> (text: String)
        ensures
            self matches ConvertError::XmlParse(m) ==> text@ == m@,
            self matches ConvertError::Serialization(m) ==> text@ == m@,
    {
        match self {
            ConvertError::XmlParse(m) => m.clone(),
            ConvertError::Serialization(m) => m.clone(),
        }
    }
}

} // verus!
