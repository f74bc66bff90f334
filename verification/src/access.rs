//! The typed accessors of a layer.
//!
//! Each accessor takes the identity of an option and hands out its value,
//! `None` where the layer has no such scope or no such option, or an error
//! where the value has another shape than was asked for. What each returns
//! is a spec function of the layer's view and the identity's view.

use vstd::prelude::*;
use crate::config::Config;
use crate::edits::{
    edits_of, ListEdit, ListEditAction, ListEditView, StringDict, StringDictView,
};
use crate::error::{Error, ErrorView, Expected};
use crate::id::{OptionId, OptionIdView};
use crate::merging::option_value;
use crate::value::{has_key, lemma_array_view, lookup, RawValue, RawValueView, Table};

verus! {

/// The error of an option that holds `actual` where `expected` was asked.
pub open spec fn mismatch(id: OptionIdView, expected: Expected, actual: RawValueView) -> ErrorView {
    ErrorView::TypeMismatch { option: id.display, expected, actual }
}

/// The model of what an accessor returns.
pub open spec fn outcome_view<T: View>(outcome: Result<Option<T>, Error>) -> Result<
    Option<T::V>,
    ErrorView,
> {
    match outcome {
        Ok(Some(value)) => Ok(Some(value@)),
        Ok(None) => Ok(None),
        Err(error) => Err(error@),
    }
}

/// What reading the option `id` as a string gives.
pub open spec fn string_of(scopes: Seq<(Seq<char>, RawValueView)>, id: OptionIdView) -> Result<
    Option<Seq<char>>,
    ErrorView,
> {
    match option_value(scopes, id.scope, id.name) {
        None => Ok(None),
        Some(RawValueView::String(text)) => Ok(Some(text)),
        Some(actual) => Err(mismatch(id, Expected::String, actual)),
    }
}

/// What reading the option `id` as a boolean gives.
pub open spec fn bool_of(scopes: Seq<(Seq<char>, RawValueView)>, id: OptionIdView) -> Result<
    Option<bool>,
    ErrorView,
> {
    match option_value(scopes, id.scope, id.name) {
        None => Ok(None),
        Some(RawValueView::Boolean(flag)) => Ok(Some(flag)),
        Some(actual) => Err(mismatch(id, Expected::Bool, actual)),
    }
}

/// What reading the option `id` as an integer gives.
pub open spec fn int_of(scopes: Seq<(Seq<char>, RawValueView)>, id: OptionIdView) -> Result<
    Option<i64>,
    ErrorView,
> {
    match option_value(scopes, id.scope, id.name) {
        None => Ok(None),
        Some(RawValueView::Integer(number)) => Ok(Some(number)),
        Some(actual) => Err(mismatch(id, Expected::Int, actual)),
    }
}

/// What reading the option `id` as a floating-point number gives: the bit
/// pattern of the number.
pub open spec fn float_of(scopes: Seq<(Seq<char>, RawValueView)>, id: OptionIdView) -> Result<
    Option<u64>,
    ErrorView,
> {
    match option_value(scopes, id.scope, id.name) {
        None => Ok(None),
        Some(RawValueView::Float(bits)) => Ok(Some(bits)),
        Some(actual) => Err(mismatch(id, Expected::Float, actual)),
    }
}

/// What reading the option `id` as a dictionary gives.
pub open spec fn dict_of(scopes: Seq<(Seq<char>, RawValueView)>, id: OptionIdView) -> Result<
    Option<StringDictView>,
    ErrorView,
> {
    match option_value(scopes, id.scope, id.name) {
        None => Ok(None),
        Some(RawValueView::String(text)) => Ok(Some(StringDictView::Literal(text))),
        Some(RawValueView::Table(entries)) => Ok(Some(StringDictView::Native(entries))),
        Some(actual) => Err(mismatch(id, Expected::StringOrTable, actual)),
    }
}

/// Every item of `items` is a string.
pub open spec fn all_strings(items: Seq<RawValueView>) -> bool {
    forall|i: int| 0 <= i < items.len() ==> (#[trigger] items[i]) is String
}

/// The position of the first item of `items` that is no string.
pub open spec fn first_other_item(items: Seq<RawValueView>) -> int {
    choose|i: int|
        0 <= i < items.len() && !((#[trigger] items[i]) is String) && forall|j: int|
            0 <= j < i ==> (#[trigger] items[j]) is String
}

/// What reading `value` as the items of a list edit with `action` gives:
/// the strings of an array of strings, else the error of what is no array
/// or of the first item that is no string.
pub open spec fn items_of(id: OptionIdView, action: ListEditAction, value: RawValueView) -> Result<
    Seq<Seq<char>>,
    ErrorView,
> {
    match value {
        RawValueView::Array(items) => if all_strings(items) {
            Ok(Seq::new(items.len(), |i: int| items[i]->String_0))
        } else {
            Err(
                mismatch(
                    id,
                    Expected::Strings { action, first: first_other_item(items) as usize },
                    value,
                ),
            )
        },
        _ => Err(mismatch(id, Expected::Array(action), value)),
    }
}

/// The edits that one key of an edit table gives: none where the key is
/// absent, else one edit with the strings under it.
pub open spec fn part_edits(
    id: OptionIdView,
    action: ListEditAction,
    part: Option<RawValueView>,
) -> Result<Seq<ListEditView>, ErrorView> {
    match part {
        None => Ok(Seq::empty()),
        Some(value) => match items_of(id, action, value) {
            Ok(items) => Ok(seq![ListEditView { action, items }]),
            Err(error) => Err(error),
        },
    }
}

/// Whether `entries` are those of an edit table: at least one, and each
/// under the key `add` or the key `remove`.
pub open spec fn edit_keys_only(entries: Seq<(Seq<char>, RawValueView)>) -> bool {
    &&& entries.len() > 0
    &&& forall|i: int|
        0 <= i < entries.len() ==> (#[trigger] entries[i]).0 == "add"@ || entries[i].0
            == "remove"@
}

/// The edits that a table-valued list option gives: those under `add`, then
/// those under `remove`.
pub open spec fn table_edits(id: OptionIdView, entries: Seq<(Seq<char>, RawValueView)>) -> Result<
    Seq<ListEditView>,
    ErrorView,
> {
    if !edit_keys_only(entries) {
        Err(mismatch(id, Expected::AddRemoveTable, RawValueView::Table(entries)))
    } else {
        match part_edits(id, ListEditAction::Add, lookup(entries, "add"@)) {
            Err(error) => Err(error),
            Ok(adds) => match part_edits(id, ListEditAction::Remove, lookup(entries, "remove"@)) {
                Err(error) => Err(error),
                Ok(removes) => Ok(adds + removes),
            },
        }
    }
}

/// The edits that a string-valued list option gives, from what the parser
/// of the list-edit syntax made of the string.
pub open spec fn parsed_edits(id: OptionIdView, parsed: Result<Seq<ListEditView>, Seq<char>>) -> Result<
    Seq<ListEditView>,
    ErrorView,
> {
    match parsed {
        Ok(edits) => Ok(edits),
        Err(detail) => Err(ErrorView::ListSyntax { option: id.display, detail }),
    }
}

/// The edits that a list option of any other shape gives: one replacement
/// by the strings of the array.
pub open spec fn replace_edits(id: OptionIdView, value: RawValueView) -> Result<
    Seq<ListEditView>,
    ErrorView,
> {
    match items_of(id, ListEditAction::Replace, value) {
        Ok(items) => Ok(seq![ListEditView { action: ListEditAction::Replace, items }]),
        Err(error) => Err(error),
    }
}

/// What an accessor hands out for the edits that it found: nothing where
/// there are none.
pub open spec fn some_edits(edits: Result<Seq<ListEditView>, ErrorView>) -> Result<
    Option<Seq<ListEditView>>,
    ErrorView,
> {
    match edits {
        Ok(found) => if found.len() == 0 {
            Ok(None)
        } else {
            Ok(Some(found))
        },
        Err(error) => Err(error),
    }
}

/// What reading the option `id` as a list of strings gives, where `parsed`
/// is what the parser of the list-edit syntax makes of a string value.
pub open spec fn list_of(
    scopes: Seq<(Seq<char>, RawValueView)>,
    id: OptionIdView,
    parsed: Result<Seq<ListEditView>, Seq<char>>,
) -> Result<Option<Seq<ListEditView>>, ErrorView> {
    match option_value(scopes, id.scope, id.name) {
        None => Ok(None),
        Some(RawValueView::Table(entries)) => some_edits(table_edits(id, entries)),
        Some(RawValueView::String(text)) => some_edits(parsed_edits(id, parsed)),
        Some(other) => some_edits(replace_edits(id, other)),
    }
}

/// The model of what the parser of the list-edit syntax returns.
pub open spec fn parsed_view(parsed: Result<Vec<ListEdit>, String>) -> Result<
    Seq<ListEditView>,
    Seq<char>,
> {
    match parsed {
        Ok(edits) => Ok(edits_of(edits@)),
        Err(detail) => Err(detail@),
    }
}

/// The model of what the list accessor returns.
pub open spec fn list_view(outcome: Result<Option<Vec<ListEdit>>, Error>) -> Result<
    Option<Seq<ListEditView>>,
    ErrorView,
> {
    match outcome {
        Ok(Some(edits)) => Ok(Some(edits_of(edits@))),
        Ok(None) => Ok(None),
        Err(error) => Err(error@),
    }
}

/// The model of what reading the items of a list edit returns.
pub open spec fn items_view(outcome: Result<Vec<String>, Error>) -> Result<
    Seq<Seq<char>>,
    ErrorView,
> {
    match outcome {
        Ok(items) => Ok(items.deep_view()),
        Err(error) => Err(error@),
    }
}

/// The model of the edits that were read, or the error.
pub open spec fn edits_view(outcome: Result<Vec<ListEdit>, Error>) -> Result<
    Seq<ListEditView>,
    ErrorView,
> {
    match outcome {
        Ok(edits) => Ok(edits_of(edits@)),
        Err(error) => Err(error@),
    }
}

/// Whether `parsed` can be what `parse` makes of the string that the
/// option `id` holds. Where the option holds no string, nothing is parsed.
pub open spec fn parser_gave<F: Fn(&str) -> Result<Vec<ListEdit>, String>>(
    parse: F,
    scopes: Seq<(Seq<char>, RawValueView)>,
    id: OptionIdView,
    parsed: Result<Vec<ListEdit>, String>,
) -> bool {
    option_value(scopes, id.scope, id.name) matches Some(RawValueView::String(text))
        ==> exists|source: &str| source@ == text && #[trigger] call_ensures(parse, (source,), parsed)
}

impl Config {
    /// How `id` is named in messages to the user.
    pub fn display(&self, id: &OptionId) -> (name: String)
        ensures
            name@ == id@.display,
    {
        id.display.clone()
    }

    /// The value that the layer holds for the option `id`, if any.
    pub fn get_value(&self, id: &OptionId) -> (found: Option<&RawValue>)
        ensures
            match found {
                Some(value) => option_value(self@, id@.scope, id@.name) == Some(value@),
                None => option_value(self@, id@.scope, id@.name) is None,
            },
    {
        match self.scopes().get(id.scope.as_str()) {
            Some(RawValue::Table(options)) => options.get(id.name.as_str()),
            _ => None,
        }
    }

    /// Reads the option `id` as a string.
    pub fn get_string(&self, id: &OptionId) -> (outcome: Result<Option<String>, Error>)
        ensures
            outcome_view(outcome) == string_of(self@, id@),
    {
        match self.get_value(id) {
            None => Ok(None),
            Some(RawValue::String(text)) => Ok(Some(text.clone())),
            Some(actual) => Err(
                Error::TypeMismatch {
                    option: id.display.clone(),
                    expected: Expected::String,
                    actual: actual.clone(),
                },
            ),
        }
    }

    /// Reads the option `id` as a boolean.
    pub fn get_bool(&self, id: &OptionId) -> (outcome: Result<Option<bool>, Error>)
        ensures
            outcome_view(outcome) == bool_of(self@, id@),
    {
        match self.get_value(id) {
            None => Ok(None),
            Some(RawValue::Boolean(flag)) => Ok(Some(*flag)),
            Some(actual) => Err(
                Error::TypeMismatch {
                    option: id.display.clone(),
                    expected: Expected::Bool,
                    actual: actual.clone(),
                },
            ),
        }
    }

    /// Reads the option `id` as an integer.
    pub fn get_int(&self, id: &OptionId) -> (outcome: Result<Option<i64>, Error>)
        ensures
            outcome_view(outcome) == int_of(self@, id@),
    {
        match self.get_value(id) {
            None => Ok(None),
            Some(RawValue::Integer(number)) => Ok(Some(*number)),
            Some(actual) => Err(
                Error::TypeMismatch {
                    option: id.display.clone(),
                    expected: Expected::Int,
                    actual: actual.clone(),
                },
            ),
        }
    }

    /// Reads the option `id` as a floating-point number and hands out its
    /// IEEE 754 binary64 bit pattern. An integer is no such number.
    pub fn get_float(&self, id: &OptionId) -> (outcome: Result<Option<u64>, Error>)
        ensures
            outcome_view(outcome) == float_of(self@, id@),
    {
        match self.get_value(id) {
            None => Ok(None),
            Some(RawValue::Float(bits)) => Ok(Some(*bits)),
            Some(actual) => Err(
                Error::TypeMismatch {
                    option: id.display.clone(),
                    expected: Expected::Float,
                    actual: actual.clone(),
                },
            ),
        }
    }

    /// Reads the option `id` as a dictionary: a string is handed out as it
    /// is, for the caller to parse, and a table with its entries as the
    /// layer holds them.
    pub fn get_string_dict(&self, id: &OptionId) -> (outcome: Result<Option<StringDict>, Error>)
        ensures
            outcome_view(outcome) == dict_of(self@, id@),
    {
        match self.get_value(id) {
            None => Ok(None),
            Some(RawValue::String(text)) => Ok(Some(StringDict::Literal(text.clone()))),
            Some(RawValue::Table(entries)) => Ok(Some(StringDict::Native(entries.clone()))),
            Some(actual) => Err(
                Error::TypeMismatch {
                    option: id.display.clone(),
                    expected: Expected::StringOrTable,
                    actual: actual.clone(),
                },
            ),
        }
    }
}

impl Config {
    /// Reads `value` as an array of strings: the items of a list edit with
    /// `action` on the option `id`.
    pub fn extract_string_list(id: &OptionId, action: ListEditAction, value: &RawValue) -> (outcome:
        Result<Vec<String>, Error>)
        ensures
            items_view(outcome) == items_of(id@, action, value@),
    {
        match value {
            RawValue::Array(items) => {
                proof {
                    lemma_array_view(*value);
                }
                let mut strings: Vec<String> = Vec::new();
                let mut index: usize = 0;
                while index < items.len()
                    invariant
                        index <= items@.len(),
                        value@ is Array,
                        value@->Array_0.len() == items@.len(),
                        forall|i: int|
                            0 <= i < items@.len() ==> value@->Array_0[i] == (#[trigger] items@[i])@,
                        strings@.len() == index,
                        forall|i: int|
                            0 <= i < index ==> value@->Array_0[i] == RawValueView::String(
                                (#[trigger] strings@[i])@,
                            ),
                    decreases items@.len() - index,
                {
                    match &items[index] {
                        RawValue::String(text) => {
                            strings.push(text.clone());
                        },
                        _ => {
                            proof {
                                let trees = value@->Array_0;
                                assert(!(trees[index as int] is String));
                                assert forall|j: int| 0 <= j < index implies (#[trigger] trees[j])
                                    is String by {
                                    assert(trees[j] == RawValueView::String(strings@[j]@));
                                }
                                assert(first_other_item(trees) == index);
                            }
                            return Err(
                                Error::TypeMismatch {
                                    option: id.display.clone(),
                                    expected: Expected::Strings { action, first: index },
                                    actual: value.clone(),
                                },
                            );
                        },
                    }
                    index += 1;
                }
                proof {
                    let trees = value@->Array_0;
                    assert forall|i: int| 0 <= i < trees.len() implies (#[trigger] trees[i])
                        is String by {
                        assert(trees[i] == RawValueView::String(strings@[i]@));
                    }
                    assert(Seq::new(trees.len(), |i: int| trees[i]->String_0)
                        =~= strings.deep_view());
                }
                Ok(strings)
            },
            _ => Err(
                Error::TypeMismatch {
                    option: id.display.clone(),
                    expected: Expected::Array(action),
                    actual: value.clone(),
                },
            ),
        }
    }
}

impl Config {
    /// What the list accessor hands out for an option that holds a string,
    /// given what the parser of the list-edit syntax made of the string:
    /// its edits, nothing where it found none, or its error with the
    /// display name of the option.
    pub fn string_list_from_parsed(id: &OptionId, parsed: Result<Vec<ListEdit>, String>) -> (outcome:
        Result<Option<Vec<ListEdit>>, Error>)
        ensures
            list_view(outcome) == some_edits(parsed_edits(id@, parsed_view(parsed))),
    {
        match parsed {
            Ok(edits) => if edits.len() == 0 {
                Ok(None)
            } else {
                Ok(Some(edits))
            },
            Err(detail) => Err(Error::ListSyntax { option: id.display.clone(), detail }),
        }
    }

    /// Reads the edits of a table-valued list option: those under the key
    /// `add`, then those under the key `remove`.
    pub fn edits_from_table(id: &OptionId, table: &Table) -> (outcome: Result<Vec<ListEdit>, Error>)
        ensures
            edits_view(outcome) == table_edits(id@, table@),
            outcome matches Ok(edits) ==> edits@.len() > 0,
    {
        let mut index: usize = 0;
        while index < table.len()
            invariant
                index <= table@.len(),
                forall|i: int|
                    0 <= i < index ==> (#[trigger] table@[i]).0 == "add"@ || table@[i].0
                        == "remove"@,
            decreases table@.len() - index,
        {
            let key = table.key(index);
            if !(*key == *"add" || *key == *"remove") {
                assert(!edit_keys_only(table@));
                return Err(
                    Error::TypeMismatch {
                        option: id.display.clone(),
                        expected: Expected::AddRemoveTable,
                        actual: RawValue::Table(table.clone()),
                    },
                );
            }
            index += 1;
        }
        if table.is_empty() {
            return Err(
                Error::TypeMismatch {
                    option: id.display.clone(),
                    expected: Expected::AddRemoveTable,
                    actual: RawValue::Table(table.clone()),
                },
            );
        }
        assert(edit_keys_only(table@));
        assert(lookup(table@, "add"@) is Some || lookup(table@, "remove"@) is Some) by {
            assert(table@[0].0 == "add"@ || table@[0].0 == "remove"@);
            assert(has_key(table@, table@[0].0));
        }
        let mut edits: Vec<ListEdit> = Vec::new();
        match table.get("add") {
            Some(value) => {
                match Config::extract_string_list(id, ListEditAction::Add, value) {
                    Ok(items) => {
                        let ghost strings = items.deep_view();
                        edits.push(ListEdit { action: ListEditAction::Add, items });
                        assert(edits_of(edits@) =~= seq![
                            ListEditView { action: ListEditAction::Add, items: strings },
                        ]);
                    },
                    Err(error) => {
                        return Err(error);
                    },
                }
            },
            None => {
                assert(edits_of(edits@) =~= Seq::empty());
            },
        }
        let ghost adds = edits_of(edits@);
        assert(Ok::<Seq<ListEditView>, ErrorView>(adds) == part_edits(
            id@,
            ListEditAction::Add,
            lookup(table@, "add"@),
        ));
        match table.get("remove") {
            Some(value) => {
                match Config::extract_string_list(id, ListEditAction::Remove, value) {
                    Ok(items) => {
                        let ghost strings = items.deep_view();
                        edits.push(ListEdit { action: ListEditAction::Remove, items });
                        assert(edits_of(edits@) =~= adds + seq![
                            ListEditView { action: ListEditAction::Remove, items: strings },
                        ]);
                    },
                    Err(error) => {
                        return Err(error);
                    },
                }
            },
            None => {
                assert(adds + Seq::<ListEditView>::empty() =~= adds);
            },
        }
        proof {
            let removes = part_edits(id@, ListEditAction::Remove, lookup(table@, "remove"@));
            assert(removes is Ok);
            assert(edits_of(edits@) == adds + removes->Ok_0);
        }
        Ok(edits)
    }

    /// Reads the option `id` as a list of strings, as a sequence of edits.
    ///
    /// A table gives the edits under its keys `add` and `remove`, in that
    /// order. A string is handed to `parse`, the parser of the list-edit
    /// syntax, which gives the edits or the detail of a syntax error. Any
    /// other value is read as an array of strings that replaces the list.
    /// No empty sequence of edits is handed out.
    pub fn get_string_list<F>(&self, id: &OptionId, parse: F) -> (outcome: Result<
        Option<Vec<ListEdit>>,
        Error,
    >) where F: Fn(&str) -> Result<Vec<ListEdit>, String>
        requires
            forall|text: &str|
                option_value(self@, id@.scope, id@.name) == Some(
                    RawValueView::String(text@),
                ) ==> call_requires(parse, (text,)),
        ensures
            exists|parsed: Result<Vec<ListEdit>, String>|
                parser_gave(parse, self@, id@, parsed) && list_view(outcome) == list_of(
                    self@,
                    id@,
                    #[trigger] parsed_view(parsed),
                ),
    {
        let ghost unused = Err::<Vec<ListEdit>, String>(id.display);
        match self.get_value(id) {
            None => {
                assert(parser_gave(parse, self@, id@, unused));
                assert(list_of(self@, id@, parsed_view(unused)) == Ok::<
                    Option<Seq<ListEditView>>,
                    ErrorView,
                >(None));
                Ok(None)
            },
            Some(RawValue::Table(table)) => {
                let outcome = match Config::edits_from_table(id, table) {
                    Ok(edits) => Ok(Some(edits)),
                    Err(error) => Err(error),
                };
                assert(parser_gave(parse, self@, id@, unused));
                assert(list_view(outcome) == list_of(self@, id@, parsed_view(unused)));
                outcome
            },
            Some(RawValue::String(text)) => {
                let parsed = parse(text.as_str());
                let ghost given = parsed;
                let outcome = Config::string_list_from_parsed(id, parsed);
                assert(parser_gave(parse, self@, id@, given));
                assert(list_view(outcome) == list_of(self@, id@, parsed_view(given)));
                outcome
            },
            Some(other) => {
                let outcome = match Config::extract_string_list(id, ListEditAction::Replace, other) {
                    Ok(items) => {
                        let mut edits: Vec<ListEdit> = Vec::new();
                        edits.push(ListEdit { action: ListEditAction::Replace, items });
                        assert(edits_of(edits@) =~= seq![
                            ListEditView {
                                action: ListEditAction::Replace,
                                items: items.deep_view(),
                            },
                        ]);
                        Ok(Some(edits))
                    },
                    Err(error) => Err(error),
                };
                assert(parser_gave(parse, self@, id@, unused));
                assert(list_view(outcome) == list_of(self@, id@, parsed_view(unused)));
                outcome
            },
        }
    }
}

} // verus!
