//! Errors raised by field lookups on a row.

use vstd::prelude::*;
use vstd::string::StringExecFns;

verus! {

/// A field lookup on a row failed.
#[derive(Debug)]
pub enum Error {
    /// The field has no display representation.
    NonRenderableField(String),
    /// The field has no sort-key mapping.
    InvalidFieldName(String),
}

impl Error {
    /// The full message of the error, naming the field it is about.
    pub fn message(&self) -> (r: String)
        ensures
            self matches Error::InvalidFieldName(f) ==> r@ == "Invalid field name given: '"@ + f@
                + "'."@,
            self matches Error::NonRenderableField(f) ==> r@ == "Could not render field '"@ + f@
                + "' for which no HTML representation is defined."@,
    {
        match self {
            Error::InvalidFieldName(f) => String::from_str("Invalid field name given: '").concat(
                f.as_str(),
            ).concat("'."),
            Error::NonRenderableField(f) => String::from_str("Could not render field '").concat(
                f.as_str(),
            ).concat("' for which no HTML representation is defined."),
        }
    }

    /// A short, static description of the error kind.
    pub fn description(&self) -> (r: &str)
        ensures
            self matches Error::InvalidFieldName(_) ==> r@ == "Invalid field name given."@,
            self matches Error::NonRenderableField(_) ==> r@
                == "Field has no HTML representation defined."@,
    {
        match self {
            Error::InvalidFieldName(_) => "Invalid field name given.",
            Error::NonRenderableField(_) => "Field has no HTML representation defined.",
        }
    }
}

} // verus!
