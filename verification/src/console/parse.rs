//! The error of names that mean nothing.

use vstd::prelude::*;
use vstd::string::StringExecFns;

verus! {

/// A name that is not one of a fixed set.
#[derive(Debug, PartialEq, Eq)]
pub struct ParseEnumError {
    /// What was being parsed.
    pub kind: &'static str,
    /// What was found instead.
    pub value: String,
}

impl ParseEnumError {
    /// `unknown`, the kind and the value, for a reader.
    pub fn to_string(&self) -> (text: String)
        ensures
            text@ == "unknown "@ + self.kind@ + ": "@ + self.value@,
    {
        let mut text: String = "unknown ".to_owned();
        text.append(self.kind);
        text.append(": ");
        text.append(self.value.as_str());
        text
    }
}

} // verus!
