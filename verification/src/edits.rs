//! What the accessors for lists and dictionaries hand out.

use vstd::prelude::*;
use crate::value::{Table, RawValueView};

verus! {

/// What a list edit does with its items.
#[derive(Clone, Copy, Debug, PartialEq, Eq, Structural)]
pub enum ListEditAction {
    Add,
    Remove,
    Replace,
}

/// One instruction of a layer on a list-valued option. The caller folds a
/// sequence of them over the values of the layers below.
#[derive(Clone, Debug, PartialEq, Eq)]
pub struct ListEdit {
    pub action: ListEditAction,
    pub items: Vec<String>,
}

/// The mathematical model of a [`ListEdit`].
pub struct ListEditView {
    pub action: ListEditAction,
    pub items: Seq<Seq<char>>,
}

impl View for ListEdit {
    type V = ListEditView;

    open spec fn view(&self) -> ListEditView {
        ListEditView { action: self.action, items: self.items.deep_view() }
    }
}

/// The models of a sequence of list edits, edit by edit.
pub open spec fn edits_of(edits: Seq<ListEdit>) -> Seq<ListEditView> {
    Seq::new(edits.len(), |i: int| edits[i]@)
}

/// The value of a dictionary-valued option.
#[derive(Debug, PartialEq)]
pub enum StringDict {
    /// A string, left for the caller to parse.
    Literal(String),
    /// The entries of a table, each value as the layer holds it.
    Native(Table),
}

/// The mathematical model of a [`StringDict`].
pub enum StringDictView {
    Literal(Seq<char>),
    Native(Seq<(Seq<char>, RawValueView)>),
}

impl View for StringDict {
    type V = StringDictView;

    open spec fn view(&self) -> StringDictView {
        match self {
            StringDict::Literal(text) => StringDictView::Literal(text@),
            StringDict::Native(table) => StringDictView::Native(table@),
        }
    }
}

} // verus!
