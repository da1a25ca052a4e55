//! What can go wrong while a record is built from sub-options.

use vstd::prelude::*;
use vstd::string::StringExecFns;

verus! {

/// An error that can happen when parsing a sub-option.
#[derive(Debug)]
pub enum SubOptError {
    /// The key, or the bare value, is none that the record understands.
    UnknownKey(String),
    /// A key that needs a value was given without one.
    MissingValueForKey(String),
    /// Any other failure, such as a value that does not convert; the string
    /// is a rendering of the cause for a human reader.
    Custom(String),
}

/// A [`SubOptError`] as contracts see it: the same three variants over the
/// characters of the strings.
pub enum SubOptErrorView {
    /// The key or bare value that is not understood.
    UnknownKey(Seq<char>),
    /// The key whose value is missing.
    MissingValueForKey(Seq<char>),
    /// The rendering of the cause.
    Custom(Seq<char>),
}

impl View for SubOptError {
    type V = SubOptErrorView;

    open spec fn view(&self) -> SubOptErrorView {
        match self {
            SubOptError::UnknownKey(k) => SubOptErrorView::UnknownKey(k@),
            SubOptError::MissingValueForKey(k) => SubOptErrorView::MissingValueForKey(k@),
            SubOptError::Custom(s) => SubOptErrorView::Custom(s@),
        }
    }
}

impl SubOptErrorView {
    /// The text shown to the user for this error, ending in a line feed.
    pub open spec fn message(self) -> Seq<char> {
        match self {
            SubOptErrorView::UnknownKey(k) => "Unknown key: "@ + k + "\n"@,
            SubOptErrorView::MissingValueForKey(k) => "Missing value for key '"@ + k + "'\n"@,
            SubOptErrorView::Custom(s) => "Custom error: "@ + s + "\n"@,
        }
    }
}

impl SubOptError {
    /// The text shown to the user for this error, ending in a line feed.
    pub fn message(&self) -> (text: String)
        ensures
            text@ == self@.message(),
    {
        match self {
            SubOptError::UnknownKey(k) => {
                let mut text = String::from_str("Unknown key: ");
                text.append(k.as_str());
                text.append("\n");
                text
            },
            SubOptError::MissingValueForKey(k) => {
                let mut text = String::from_str("Missing value for key '");
                text.append(k.as_str());
                text.append("'\n");
                text
            },
            SubOptError::Custom(s) => {
                let mut text = String::from_str("Custom error: ");
                text.append(s.as_str());
                text.append("\n");
                text
            },
        }
    }
}

} // verus!
