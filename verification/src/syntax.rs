//! The text form of a layer: TOML, read by the `toml` crate.

use vstd::prelude::*;
use crate::value::{RawValue, RawValueView, Table};

verus! {

/// A tree as the `toml` crate holds it. Nothing is known of it here but the
/// tree that it stands for, [`toml_tree`].
#[verifier::external_type_specification]
#[verifier::external_body]
pub struct ExTomlValue(toml::Value);

/// The tree that a `toml::Value` holds: its variants one for one, a float
/// as its bit pattern, a date as the text that its `Display` gives, the
/// entries of a table in the table's own order.
pub uninterp spec fn toml_tree(tree: toml::Value) -> RawValueView;

/// What the `toml` crate reads out of `text` as a document: the tree, or
/// the message of its syntax error.
pub uninterp spec fn toml_document(text: Seq<char>) -> Result<RawValueView, Seq<char>>;

/// Parses `text` as a TOML document with `str::parse::<toml::Value>`.
///
/// Not proved: that the outcome is `toml_document` of the text, which is to
/// say that it depends on the text alone. A syntax error is handed out as
/// the text that its `Display` gives, which names the line and the column.
#[verifier::external_body]
pub(crate) fn parse_document(text: &str) -> (parsed: Result<toml::Value, String>)
    ensures
        match parsed {
            Ok(tree) => toml_document(text@) == Ok::<RawValueView, Seq<char>>(toml_tree(tree)),
            Err(message) => toml_document(text@) == Err::<RawValueView, Seq<char>>(message@),
        },
{
    text.parse::<toml::Value>().map_err(|error| error.to_string())
}

/// Hands a `toml::Value` over as a [`RawValue`], variant by variant.
///
/// Not proved: that the result holds the tree of the `toml::Value`.
#[verifier::external_body]
pub(crate) fn tree_from_toml(tree: toml::Value) -> (value: RawValue)
    ensures
        value@ == toml_tree(tree),
{
    match tree {
        toml::Value::String(text) => RawValue::String(text),
        toml::Value::Integer(number) => RawValue::Integer(number),
        toml::Value::Float(number) => RawValue::Float(number.to_bits()),
        toml::Value::Boolean(flag) => RawValue::Boolean(flag),
        toml::Value::Datetime(date) => RawValue::Datetime(date.to_string()),
        toml::Value::Array(items) => RawValue::Array(items.into_iter().map(tree_from_toml).collect()),
        toml::Value::Table(entries) => RawValue::Table(
            Table::from_entries(entries.into_iter().map(|(k, v)| (k, tree_from_toml(v))).collect()),
        ),
    }
}

} // verus!
