//! What an adapter reports in place of results.

use vstd::prelude::*;

verus! {

/// Why an adapter gave no results.
#[derive(Clone, Debug, PartialEq, Eq)]
pub enum AdapterError {
    /// The structured input is malformed; the text is the parser's message.
    Deserialization(String),
    /// A unit that is none of the recognised ones; the text is the unit.
    InvalidUnit(String),
    /// A number that cannot be read or held; the text is the number as it
    /// was written, or the name of the benchmark whose number it is.
    InvalidNumber(String),
    /// The harness reported a failure while failures were not allowed.
    Panic { thread: String, context: String, location: String },
    /// A benchmark name that is not valid; the text is the name.
    InvalidName(String),
}

/// An [`AdapterError`] as the specifications see it.
pub enum ErrorView {
    Deserialization(Seq<char>),
    InvalidUnit(Seq<char>),
    InvalidNumber(Seq<char>),
    Panic { thread: Seq<char>, context: Seq<char>, location: Seq<char> },
    InvalidName(Seq<char>),
}

impl View for AdapterError {
    type V = ErrorView;

    open spec fn view(&self) -> ErrorView {
        match self {
            AdapterError::Deserialization(message) => ErrorView::Deserialization(message@),
            AdapterError::InvalidUnit(unit) => ErrorView::InvalidUnit(unit@),
            AdapterError::InvalidNumber(name) => ErrorView::InvalidNumber(name@),
            AdapterError::Panic { thread, context, location } => ErrorView::Panic {
                thread: thread@,
                context: context@,
                location: location@,
            },
            AdapterError::InvalidName(name) => ErrorView::InvalidName(name@),
        }
    }
}

/// Whether what an adapter returned is what its specification gives: the
/// same results, or the same error.
pub open spec fn adapted<R: View>(
    r: Result<R, AdapterError>,
    wanted: Result<R::V, ErrorView>,
) -> bool {
    match (r, wanted) {
        (Ok(results), Ok(wanted_results)) => results@ == wanted_results,
        (Err(error), Err(wanted_error)) => error@ == wanted_error,
        _ => false,
    }
}

} // verus!
