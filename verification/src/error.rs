//! The failures that this crate reports.

use vstd::prelude::*;

verus! {

/// The failure that a caller sees when the schema engine refuses a schema or
/// a value: the engine's description of it, and nothing else.
#[derive(Debug, PartialEq, Eq)]
pub struct ValidateError {
    pub message: String,
}

/// A failure of one of this crate's operations.
#[derive(Debug, PartialEq, Eq)]
pub enum Error {
    /// The schema text does not compile.
    CompileFailure(ValidateError),
    /// The value does not validate: the schema does not compile, the type name
    /// is unknown, the value does not decode, or it does not match.
    ValidationFailure(ValidateError),
    /// An accessor was called on a node whose variant does not support it.
    AttributeAccess,
    /// A child index is not below the number of children.
    IndexOutOfRange,
    /// A rule set holds no rule of the given name.
    KeyNotFound,
}

/// What an [`Error`] is, mathematically.
pub enum ErrorView {
    CompileFailure(Seq<char>),
    ValidationFailure(Seq<char>),
    AttributeAccess,
    IndexOutOfRange,
    KeyNotFound,
}

impl View for Error {
    type V = ErrorView;

    open spec fn view(&self) -> ErrorView {
        match self {
            Error::CompileFailure(e) => ErrorView::CompileFailure(e.message@),
            Error::ValidationFailure(e) => ErrorView::ValidationFailure(e.message@),
            Error::AttributeAccess => ErrorView::AttributeAccess,
            Error::IndexOutOfRange => ErrorView::IndexOutOfRange,
            Error::KeyNotFound => ErrorView::KeyNotFound,
        }
    }
}

/// Makes of the engine's description of a failure the one failure that callers
/// see. Whatever the cause was, the description is all that is kept, and it is
/// kept as it is.
pub fn err_adapter(description: String) -> (failure: ValidateError)
    ensures
        failure.message@ == description@,
{
    ValidateError { message: description }
}

} // verus!
