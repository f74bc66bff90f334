//! The text of an error for the user.
//!
//! A message names the option or the file, the shape that was asked for and
//! the value that was found. How a value is shown is left to the caller, who
//! hands in the text or the function that gives it.

use vstd::prelude::*;
use vstd::string::StringExecFns;
use crate::edits::ListEditAction;
use crate::error::{Error, ErrorView, Expected};
use crate::value::{shape_name, RawValue, RawValueView};

verus! {

/// What follows the name of a list option to name the part that an edit
/// with `action` is read from.
pub open spec fn part_suffix(action: ListEditAction) -> Seq<char> {
    match action {
        ListEditAction::Add => ".add"@,
        ListEditAction::Remove => ".remove"@,
        ListEditAction::Replace => ""@,
    }
}

/// The message of a value of another shape than was asked for, where
/// `shown` is the text of the value and `item` the text of the item that
/// the expectation names.
pub open spec fn mismatch_text(
    option: Seq<char>,
    expected: Expected,
    actual: RawValueView,
    shown: Seq<char>,
    item: Seq<char>,
) -> Seq<char> {
    match expected {
        Expected::String => "Expected "@ + option + " to be a string but given "@ + shown + "."@,
        Expected::Bool => "Expected "@ + option + " to be a bool but given "@ + shown + "."@,
        Expected::Int => "Expected "@ + option + " to be an int but given "@ + shown + "."@,
        Expected::Float => "Expected "@ + option + " to be a float but given "@ + shown + "."@,
        Expected::Array(action) => "Expected "@ + option + part_suffix(action)
            + " to be a toml array or Python sequence, but given "@ + shown + "."@,
        Expected::Strings { action, first } => "Expected "@ + option + part_suffix(action)
            + " to be an array of strings but given "@ + shown
            + " containing non string item "@ + item,
        Expected::AddRemoveTable => "Expected "@ + option
            + " to contain an 'add' element, a 'remove' element or both but found: "@ + shown,
        Expected::StringOrTable => "Expected "@ + option
            + " to be of type string or table, but was a "@ + shape_name(actual) + ": "@ + shown,
    }
}

/// The message of `error`, where `shown` is the text of the value that the
/// error holds and `item` the text of the item that it names.
pub open spec fn message_of(error: ErrorView, shown: Seq<char>, item: Seq<char>) -> Seq<char> {
    match error {
        ErrorView::Parse { file, detail } => "Failed to parse config file "@ + file + ": "@
            + detail,
        ErrorView::Shape { file, section: None, actual } => "Expected the config file "@ + file
            + " to contain a table but contained a "@ + shape_name(actual) + ": "@ + shown,
        ErrorView::Shape { file, section: Some(section), actual } => "Expected the config file "@
            + file + " to contain tables per section, but section "@ + section
            + " contained a "@ + shape_name(actual) + ": "@ + shown,
        ErrorView::TypeMismatch { option, expected, actual } => mismatch_text(
            option,
            expected,
            actual,
            shown,
            item,
        ),
        ErrorView::ListSyntax { option, detail } => "Problem parsing "@ + option
            + " as a list of strings: "@ + detail,
    }
}

/// The value that `error` holds, if it holds one.
pub open spec fn held_value(error: Error) -> Option<RawValue> {
    match error {
        Error::Shape { actual, .. } => Some(actual),
        Error::TypeMismatch { actual, .. } => Some(actual),
        _ => None,
    }
}

/// The item that `error` names: the first item of an array that is no
/// string, if the error is about that.
pub open spec fn named_item(error: Error) -> Option<RawValue> {
    match error {
        Error::TypeMismatch {
            expected: Expected::Strings { first, .. },
            actual: RawValue::Array(items),
            ..
        } => if first < items@.len() {
            Some(items@[first as int])
        } else {
            None
        },
        _ => None,
    }
}

/// Whether `shown` and `item` can be what `show` gives for the value that
/// `error` holds and for the item that it names.
pub open spec fn shown_by<F: Fn(&RawValue) -> String>(
    show: F,
    error: Error,
    shown: String,
    item: String,
) -> bool {
    &&& held_value(error) matches Some(value) ==> call_ensures(show, (&value,), shown)
    &&& named_item(error) matches Some(value) ==> call_ensures(show, (&value,), item)
}

fn suffix_of(action: ListEditAction) -> (suffix: &'static str)
    ensures
        suffix@ == part_suffix(action),
{
    match action {
        ListEditAction::Add => ".add",
        ListEditAction::Remove => ".remove",
        ListEditAction::Replace => "",
    }
}

fn mismatch_message(
    option: &str,
    expected: Expected,
    actual: &RawValue,
    shown: &str,
    item: &str,
) -> (text: String)
    ensures
        text@ == mismatch_text(option@, expected, actual@, shown@, item@),
{
    let mut text = String::new();
    text.append("Expected ");
    text.append(option);
    assert(text@ =~= "Expected "@ + option@);
    match expected {
        Expected::String => {
            text.append(" to be a string but given ");
            text.append(shown);
            text.append(".");
        },
        Expected::Bool => {
            text.append(" to be a bool but given ");
            text.append(shown);
            text.append(".");
        },
        Expected::Int => {
            text.append(" to be an int but given ");
            text.append(shown);
            text.append(".");
        },
        Expected::Float => {
            text.append(" to be a float but given ");
            text.append(shown);
            text.append(".");
        },
        Expected::Array(action) => {
            text.append(suffix_of(action));
            text.append(" to be a toml array or Python sequence, but given ");
            text.append(shown);
            text.append(".");
        },
        Expected::Strings { action, first } => {
            text.append(suffix_of(action));
            text.append(" to be an array of strings but given ");
            text.append(shown);
            text.append(" containing non string item ");
            text.append(item);
        },
        Expected::AddRemoveTable => {
            text.append(" to contain an 'add' element, a 'remove' element or both but found: ");
            text.append(shown);
        },
        Expected::StringOrTable => {
            text.append(" to be of type string or table, but was a ");
            text.append(actual.type_str());
            text.append(": ");
            text.append(shown);
        },
    }
    text
}

impl Error {
    /// The message of this error, where `shown` is the text of the value
    /// that the error holds and `item` the text of the item that it names.
    /// An error that holds no value, or names no item, makes no use of the
    /// text.
    pub fn message_with(&self, shown: &str, item: &str) -> (text: String)
        ensures
            text@ == message_of(self@, shown@, item@),
    {
        match self {
            Error::Parse { file, detail } => {
                let mut text = String::new();
                text.append("Failed to parse config file ");
                text.append(file.as_str());
                text.append(": ");
                text.append(detail.as_str());
                assert(text@ =~= message_of(self@, shown@, item@));
                text
            },
            Error::Shape { file, section: None, actual } => {
                let mut text = String::new();
                text.append("Expected the config file ");
                text.append(file.as_str());
                text.append(" to contain a table but contained a ");
                text.append(actual.type_str());
                text.append(": ");
                text.append(shown);
                assert(text@ =~= message_of(self@, shown@, item@));
                text
            },
            Error::Shape { file, section: Some(section), actual } => {
                let mut text = String::new();
                text.append("Expected the config file ");
                text.append(file.as_str());
                text.append(" to contain tables per section, but section ");
                text.append(section.as_str());
                text.append(" contained a ");
                text.append(actual.type_str());
                text.append(": ");
                text.append(shown);
                assert(text@ =~= message_of(self@, shown@, item@));
                text
            },
            Error::TypeMismatch { option, expected, actual } => mismatch_message(
                option.as_str(),
                *expected,
                actual,
                shown,
                item,
            ),
            Error::ListSyntax { option, detail } => {
                let mut text = String::new();
                text.append("Problem parsing ");
                text.append(option.as_str());
                text.append(" as a list of strings: ");
                text.append(detail.as_str());
                assert(text@ =~= message_of(self@, shown@, item@));
                text
            },
        }
    }

    /// The message of this error, where `show` gives the text of a value.
    pub fn message<F>(&self, show: F) -> (text: String) where F: Fn(&RawValue) -> String
        requires
            forall|value: &RawValue| call_requires(show, (value,)),
        ensures
            exists|shown: String, item: String|
                shown_by(show, *self, shown, item) && text@ == #[trigger] message_of(
                    self@,
                    shown@,
                    item@,
                ),
    {
        let shown = match self {
            Error::Shape { actual, .. } => show(actual),
            Error::TypeMismatch { actual, .. } => show(actual),
            _ => String::new(),
        };
        let item = match self {
            Error::TypeMismatch {
                expected: Expected::Strings { first, .. },
                actual: RawValue::Array(items),
                ..
            } => if *first < items.len() {
                show(&items[*first])
            } else {
                String::new()
            },
            _ => String::new(),
        };
        let text = self.message_with(shown.as_str(), item.as_str());
        assert(shown_by(show, *self, shown, item));
        text
    }
}

} // verus!
