//! How a [`SubOptError`] is reported through clap.
//!
//! clap tells diagnostics apart by an error kind and shows a message with
//! them. Each variant of [`SubOptError`] has one kind, and the message is the
//! text of the error.

use vstd::prelude::*;
use vstd::std_specs::convert::FromSpecImpl;
use crate::error::{SubOptError, SubOptErrorView};

verus! {

/// The three kinds of clap errors under which a [`SubOptError`] is
/// reported.
#[derive(Clone, Copy, Debug, PartialEq, Eq, Structural)]
pub enum ErrorClass {
    /// An argument or key that is not defined: `ErrorKind::UnknownArgument`.
    UnknownArgument,
    /// A value that is missing or empty: `ErrorKind::EmptyValue`.
    EmptyValue,
    /// A value that is not valid: `ErrorKind::InvalidValue`.
    InvalidValue,
}

/// The class under which an error is reported: one class for each variant.
pub open spec fn class_of(error: SubOptErrorView) -> ErrorClass {
    match error {
        SubOptErrorView::UnknownKey(_) => ErrorClass::UnknownArgument,
        SubOptErrorView::MissingValueForKey(_) => ErrorClass::EmptyValue,
        SubOptErrorView::Custom(_) => ErrorClass::InvalidValue,
    }
}

/// The class under which `error` is reported.
pub fn error_class(error: &SubOptError) -> (class: ErrorClass)
    ensures
        class == class_of(error@),
{
    match error {
        SubOptError::UnknownKey(_) => ErrorClass::UnknownArgument,
        SubOptError::MissingValueForKey(_) => ErrorClass::EmptyValue,
        SubOptError::Custom(_) => ErrorClass::InvalidValue,
    }
}

/// `clap::Error`. The verified code hands such a value on and never looks
/// into it.
#[verifier::external_type_specification]
#[verifier::external_body]
pub struct ExClapError(clap::Error);

/// The error that `clap::Error::raw` makes of the kind that stands for
/// `class` and of `message`: an unformatted error of that kind, which
/// shows `error: ` and the message.
pub uninterp spec fn raw_error(class: ErrorClass, message: Seq<char>) -> clap::Error;

/// Calls `clap::Error::raw` with the kind of the same name as `class` and
/// with `message`.
///
/// This contract is believed, not proved. It claims that the error made
/// depends on nothing but the two arguments, and gives it the name
/// [`raw_error`]; it claims nothing of what is in the error.
#[verifier::external_body]
fn new_raw_error(class: ErrorClass, message: String) -> (error: clap::Error)
    ensures
        error == raw_error(class, message@),
{
    let kind = match class {
        ErrorClass::UnknownArgument => clap::ErrorKind::UnknownArgument,
        ErrorClass::EmptyValue => clap::ErrorKind::EmptyValue,
        ErrorClass::InvalidValue => clap::ErrorKind::InvalidValue,
    };
    clap::Error::raw(kind, message)
}

/// The clap error that reports `error`: of the error's class, with the
/// error's message.
pub open spec fn reported(error: SubOptErrorView) -> clap::Error {
    raw_error(class_of(error), error.message())
}

impl From<SubOptError> for clap::Error {
    fn from(sub: SubOptError) -> (error: clap::Error) {
        let class = error_class(&sub);
        new_raw_error(class, sub.message())
    }
}

impl FromSpecImpl<SubOptError> for clap::Error {
    open spec fn obeys_from_spec() -> bool {
        true
    }

    open spec fn from_spec(sub: SubOptError) -> clap::Error {
        reported(sub@)
    }
}

} // verus!
