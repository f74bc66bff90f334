//! The errors of a configuration layer.

use vstd::prelude::*;
use crate::edits::ListEditAction;
use crate::value::{RawValue, RawValueView};

verus! {

/// The shape that an accessor asked for.
#[derive(Clone, Copy, Debug, PartialEq, Eq, Structural)]
pub enum Expected {
    String,
    Bool,
    Int,
    Float,
    /// An array, to be read as the items of a list edit with this action.
    Array(ListEditAction),
    /// Strings only, in the array of a list edit with this action; `first`
    /// is the position of the first item that is none.
    Strings { action: ListEditAction, first: usize },
    /// A table with the key `add`, the key `remove` or both, and no other.
    AddRemoveTable,
    StringOrTable,
}

/// Why a layer could not be built or an option could not be read.
#[derive(Debug, PartialEq)]
pub enum Error {
    /// The text of a layer is not in the layer's syntax. `detail` is the
    /// parser's own message, with the place in the text.
    Parse { file: String, detail: String },
    /// The tree of a layer is not a table of tables. `section` names the
    /// scope whose value is not a table; without it the root is none.
    Shape { file: String, section: Option<String>, actual: RawValue },
    /// An option holds a value of another shape than was asked for.
    /// `option` is the display name of the option.
    TypeMismatch { option: String, expected: Expected, actual: RawValue },
    /// A list-valued option holds a string that is not in the syntax of
    /// list edits. `detail` is the message of the parser of that syntax.
    ListSyntax { option: String, detail: String },
}

/// The mathematical model of an [`Error`].
pub enum ErrorView {
    Parse { file: Seq<char>, detail: Seq<char> },
    Shape { file: Seq<char>, section: Option<Seq<char>>, actual: RawValueView },
    TypeMismatch { option: Seq<char>, expected: Expected, actual: RawValueView },
    ListSyntax { option: Seq<char>, detail: Seq<char> },
}

impl View for Error {
    type V = ErrorView;

    open spec fn view(&self) -> ErrorView {
        match self {
            Error::Parse { file, detail } => ErrorView::Parse { file: file@, detail: detail@ },
            Error::Shape { file, section, actual } => ErrorView::Shape {
                file: file@,
                section: match section {
                    Some(name) => Some(name@),
                    None => None,
                },
                actual: actual@,
            },
            Error::TypeMismatch { option, expected, actual } => ErrorView::TypeMismatch {
                option: option@,
                expected: *expected,
                actual: actual@,
            },
            Error::ListSyntax { option, detail } => ErrorView::ListSyntax {
                option: option@,
                detail: detail@,
            },
        }
    }
}

} // verus!
