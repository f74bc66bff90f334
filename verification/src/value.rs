//! The generic value tree that a configuration layer is made of.
//!
//! A [`RawValue`] is a tagged union with one constructor per shape. A [`Table`]
//! is an ordered mapping from strings to values in which no key occurs twice.
//! Contracts speak of both through their views: [`RawValueView`] for a value and
//! a sequence of key/value pairs, in table order, for a table.

use vstd::prelude::*;

verus! {

/// The mathematical model of a [`RawValue`]: the same tree with strings as
/// character sequences, arrays as sequences and tables as sequences of
/// key/value pairs in table order.
pub enum RawValueView {
    String(Seq<char>),
    Integer(i64),
    Float(u64),
    Boolean(bool),
    Datetime(Seq<char>),
    Array(Seq<RawValueView>),
    Table(Seq<(Seq<char>, RawValueView)>),
}

/// One node of a configuration tree.
#[derive(Debug, PartialEq)]
pub enum RawValue {
    String(String),
    Integer(i64),
    /// A floating-point number, held as its IEEE 754 binary64 bit pattern.
    Float(u64),
    Boolean(bool),
    /// A date and/or time, held in its RFC 3339 text form.
    Datetime(String),
    Array(Vec<RawValue>),
    Table(Table),
}

/// An ordered mapping from strings to values. No key occurs twice.
#[derive(Debug, PartialEq)]
pub struct Table {
    entries: Vec<(String, RawValue)>,
}

/// Equality of string slices, `str::eq` of std: two slices are equal where
/// they hold the same characters. Not proved; std documents it.
pub assume_specification[ <str as PartialEq>::eq ](left: &str, right: &str) -> (same: bool)
    ensures
        same == (left@ == right@),
;

/// No two entries of `entries` share a key.
pub open spec fn distinct_keys(entries: Seq<(Seq<char>, RawValueView)>) -> bool {
    forall|i: int, j: int|
        0 <= i < j < entries.len() ==> (#[trigger] entries[i]).0 != (#[trigger] entries[j]).0
}

/// Some entry of `entries` has the key `key`.
pub open spec fn has_key(entries: Seq<(Seq<char>, RawValueView)>, key: Seq<char>) -> bool {
    exists|i: int| 0 <= i < entries.len() && (#[trigger] entries[i]).0 == key
}

/// The position of an entry of `entries` with the key `key`. Where the keys
/// are distinct and `key` is present, this is the one such position.
pub open spec fn key_index(entries: Seq<(Seq<char>, RawValueView)>, key: Seq<char>) -> int {
    choose|i: int| 0 <= i < entries.len() && (#[trigger] entries[i]).0 == key
}

/// The value that `entries` holds under `key`, if any.
pub open spec fn lookup(entries: Seq<(Seq<char>, RawValueView)>, key: Seq<char>) -> Option<
    RawValueView,
> {
    if has_key(entries, key) {
        Some(entries[key_index(entries, key)].1)
    } else {
        None
    }
}

/// `entries` after `key` is set to `value`: an entry that has the key keeps
/// its place and takes the new value; otherwise a new entry goes to the end.
pub open spec fn with_entry(
    entries: Seq<(Seq<char>, RawValueView)>,
    key: Seq<char>,
    value: RawValueView,
) -> Seq<(Seq<char>, RawValueView)> {
    if has_key(entries, key) {
        entries.update(key_index(entries, key), (key, value))
    } else {
        entries.push((key, value))
    }
}

/// `entries` without the entry under `key`; the others keep their order.
pub open spec fn without_key(entries: Seq<(Seq<char>, RawValueView)>, key: Seq<char>) -> Seq<
    (Seq<char>, RawValueView),
> {
    if has_key(entries, key) {
        entries.remove(key_index(entries, key))
    } else {
        entries
    }
}

/// `entries` after every entry of `more` has been set in it, first to last.
pub open spec fn extended(
    entries: Seq<(Seq<char>, RawValueView)>,
    more: Seq<(Seq<char>, RawValueView)>,
) -> Seq<(Seq<char>, RawValueView)>
    decreases more.len(),
{
    if more.len() == 0 {
        entries
    } else {
        with_entry(extended(entries, more.drop_last()), more.last().0, more.last().1)
    }
}

/// In a table with distinct keys, the entry at a position is the one that
/// its key finds.
pub proof fn lemma_lookup_at(entries: Seq<(Seq<char>, RawValueView)>, at: int)
    requires
        distinct_keys(entries),
        0 <= at < entries.len(),
    ensures
        has_key(entries, entries[at].0),
        key_index(entries, entries[at].0) == at,
        lookup(entries, entries[at].0) == Some(entries[at].1),
{
    let key = entries[at].0;
    assert(has_key(entries, key));
    let found = key_index(entries, key);
    if found < at {
        assert(entries[found].0 != entries[at].0);
    } else if at < found {
        assert(entries[at].0 != entries[found].0);
    }
}

/// After a key is set it finds the new value, and every other key finds
/// what it found before.
pub proof fn lemma_with_entry_lookup(
    entries: Seq<(Seq<char>, RawValueView)>,
    key: Seq<char>,
    value: RawValueView,
    other: Seq<char>,
)
    requires
        distinct_keys(entries),
    ensures
        lookup(with_entry(entries, key, value), key) == Some(value),
        other != key ==> lookup(with_entry(entries, key, value), other) == lookup(entries, other),
        has_key(with_entry(entries, key, value), other) == (other == key || has_key(
            entries,
            other,
        )),
{
    let after = with_entry(entries, key, value);
    lemma_with_entry_distinct(entries, key, value);
    let place = if has_key(entries, key) {
        key_index(entries, key)
    } else {
        entries.len() as int
    };
    assert(after[place] == (key, value));
    lemma_lookup_at(after, place);
    if has_key(entries, other) && other != key {
        let at = key_index(entries, other);
        assert(after[at] == entries[at]);
        lemma_lookup_at(entries, at);
        lemma_lookup_at(after, at);
    }
    if has_key(after, other) && other != key {
        let at = key_index(after, other);
        assert(at != place);
        assert(entries[at] == after[at]);
    }
}

/// What a key finds after one table was extended by another: the value of
/// the second table where that has the key, else the value of the first.
pub proof fn lemma_extended_lookup(
    entries: Seq<(Seq<char>, RawValueView)>,
    more: Seq<(Seq<char>, RawValueView)>,
    key: Seq<char>,
)
    requires
        distinct_keys(entries),
        distinct_keys(more),
    ensures
        distinct_keys(extended(entries, more)),
        has_key(extended(entries, more), key) == (has_key(entries, key) || has_key(more, key)),
        lookup(extended(entries, more), key) == if has_key(more, key) {
            lookup(more, key)
        } else {
            lookup(entries, key)
        },
    decreases more.len(),
{
    if more.len() > 0 {
        let earlier = more.drop_last();
        let last = more.last();
        assert forall|i: int, j: int| 0 <= i < j < earlier.len() implies (#[trigger] earlier[i]).0
            != (#[trigger] earlier[j]).0 by {
            assert(earlier[i] == more[i]);
            assert(earlier[j] == more[j]);
        }
        lemma_extended_lookup(entries, earlier, key);
        lemma_with_entry_distinct(extended(entries, earlier), last.0, last.1);
        lemma_with_entry_lookup(extended(entries, earlier), last.0, last.1, key);
        lemma_lookup_at(more, more.len() - 1);
        if has_key(earlier, key) {
            let at = key_index(earlier, key);
            assert(more[at] == earlier[at]);
            lemma_lookup_at(more, at);
            lemma_lookup_at(earlier, at);
        }
        if has_key(more, key) && key != last.0 {
            let at = key_index(more, key);
            assert(earlier[at] == more[at]);
        }
    }
}

/// Extending by a table whose keys are all new puts its entries at the end.
pub proof fn lemma_extended_by_new(
    entries: Seq<(Seq<char>, RawValueView)>,
    more: Seq<(Seq<char>, RawValueView)>,
)
    requires
        distinct_keys(more),
        forall|i: int| 0 <= i < more.len() ==> !has_key(entries, (#[trigger] more[i]).0),
    ensures
        extended(entries, more) == entries + more,
    decreases more.len(),
{
    if more.len() == 0 {
        assert(entries + more =~= entries);
    } else {
        let earlier = more.drop_last();
        let last = more.last();
        assert forall|i: int, j: int| 0 <= i < j < earlier.len() implies (#[trigger] earlier[i]).0
            != (#[trigger] earlier[j]).0 by {
            assert(earlier[i] == more[i]);
            assert(earlier[j] == more[j]);
        }
        assert forall|i: int| 0 <= i < earlier.len() implies !has_key(
            entries,
            (#[trigger] earlier[i]).0,
        ) by {
            assert(earlier[i] == more[i]);
        }
        lemma_extended_by_new(entries, earlier);
        let before = entries + earlier;
        assert(!has_key(before, last.0)) by {
            if has_key(before, last.0) {
                let at = key_index(before, last.0);
                if at < entries.len() {
                    assert(before[at] == entries[at]);
                    assert(has_key(entries, more[more.len() - 1].0));
                } else {
                    assert(before[at] == more[at - entries.len()]);
                    assert(more[at - entries.len()].0 != more[more.len() - 1].0);
                }
            }
        }
        assert(before.push(last) =~= entries + more);
    }
}

/// Setting a key keeps the keys distinct.
pub proof fn lemma_with_entry_distinct(
    entries: Seq<(Seq<char>, RawValueView)>,
    key: Seq<char>,
    value: RawValueView,
)
    requires
        distinct_keys(entries),
    ensures
        distinct_keys(with_entry(entries, key, value)),
{
    let after = with_entry(entries, key, value);
    assert forall|i: int, j: int| 0 <= i < j < after.len() implies (#[trigger] after[i]).0 != (
    #[trigger] after[j]).0 by {
        if has_key(entries, key) {
            let at = key_index(entries, key);
            assert(entries[i].0 == after[i].0);
            assert(entries[j].0 == after[j].0);
        } else {
            if j == entries.len() {
                assert(entries[i].0 != key);
            } else {
                assert(entries[i] == after[i]);
                assert(entries[j] == after[j]);
            }
        }
    }
}

/// Taking a key out keeps the keys distinct.
pub proof fn lemma_without_key_distinct(entries: Seq<(Seq<char>, RawValueView)>, key: Seq<char>)
    requires
        distinct_keys(entries),
    ensures
        distinct_keys(without_key(entries, key)),
        !has_key(without_key(entries, key), key),
{
    let after = without_key(entries, key);
    if has_key(entries, key) {
        let at = key_index(entries, key);
        assert forall|i: int, j: int| 0 <= i < j < after.len() implies (#[trigger] after[i]).0 != (
        #[trigger] after[j]).0 by {
            let from_i = if i < at { i } else { i + 1 };
            let from_j = if j < at { j } else { j + 1 };
            assert(after[i] == entries[from_i]);
            assert(after[j] == entries[from_j]);
        }
        assert forall|i: int| 0 <= i < after.len() implies (#[trigger] after[i]).0 != key by {
            let from_i = if i < at { i } else { i + 1 };
            assert(after[i] == entries[from_i]);
            assert(entries[at].0 == key);
        }
    }
}

impl Table {
    /// The validity of a table: no key occurs twice.
    #[verifier::type_invariant]
    pub open spec fn valid(self) -> bool {
        distinct_keys(self@)
    }

    /// A table without entries.
    pub fn new() -> (table: Table)
        ensures
            table@ == Seq::<(Seq<char>, RawValueView)>::empty(),
    {
        let table = Table { entries: Vec::new() };
        assert(table@ =~= Seq::<(Seq<char>, RawValueView)>::empty());
        table
    }

    /// The number of entries.
    pub fn len(&self) -> (len: usize)
        ensures
            len == self@.len(),
    {
        self.entries.len()
    }

    /// Whether the table has no entries.
    pub fn is_empty(&self) -> (empty: bool)
        ensures
            empty == (self@.len() == 0),
    {
        self.entries.len() == 0
    }

    /// The key of the entry at `index`, in table order.
    pub fn key(&self, index: usize) -> (key: &str)
        requires
            index < self@.len(),
        ensures
            key@ == self@[index as int].0,
    {
        self.entries[index].0.as_str()
    }

    /// The value of the entry at `index`, in table order.
    pub fn value(&self, index: usize) -> (value: &RawValue)
        requires
            index < self@.len(),
        ensures
            value@ == self@[index as int].1,
    {
        &self.entries[index].1
    }

    /// The position of the entry under `key`, if there is one.
    pub fn position(&self, key: &str) -> (found: Option<usize>)
        ensures
            match found {
                Some(index) => has_key(self@, key@) && index == key_index(self@, key@),
                None => !has_key(self@, key@),
            },
            distinct_keys(self@),
    {
        proof {
            use_type_invariant(self);
        }
        let mut index: usize = 0;
        while index < self.entries.len()
            invariant
                index <= self.entries@.len(),
                self@.len() == self.entries@.len(),
                distinct_keys(self@),
                forall|i: int| 0 <= i < index ==> (#[trigger] self@[i]).0 != key@,
            decreases self.entries@.len() - index,
        {
            if *self.entries[index].0.as_str() == *key {
                assert(self@[index as int].0 == key@);
                return Some(index);
            }
            index += 1;
        }
        None
    }

    /// The value under `key`, if there is one.
    pub fn get(&self, key: &str) -> (found: Option<&RawValue>)
        ensures
            match found {
                Some(value) => lookup(self@, key@) == Some(value@),
                None => lookup(self@, key@) is None,
            },
    {
        match self.position(key) {
            Some(index) => Some(&self.entries[index].1),
            None => None,
        }
    }

    /// Whether there is an entry under `key`.
    pub fn contains_key(&self, key: &str) -> (present: bool)
        ensures
            present == has_key(self@, key@),
    {
        self.position(key).is_some()
    }
}

impl Table {
    /// Sets `key` to `value`. An entry that has the key keeps its place and
    /// takes the new value; otherwise a new entry goes to the end.
    pub fn insert(&mut self, key: String, value: RawValue)
        ensures
            final(self)@ == with_entry(old(self)@, key@, value@),
    {
        let found = self.position(key.as_str());
        let mut entries: Vec<(String, RawValue)> = Vec::new();
        core::mem::swap(&mut self.entries, &mut entries);
        match found {
            Some(index) => {
                entries[index] = (key, value);
            },
            None => {
                entries.push((key, value));
            },
        }
        proof {
            let next = Table { entries };
            assert(next@ =~= with_entry(old(self)@, key@, value@));
            lemma_with_entry_distinct(old(self)@, key@, value@);
        }
        self.entries = entries;
    }

    /// Puts `value` in the place of the value at `index` and returns the
    /// value that was there. The key and the order stay.
    pub fn replace_value(&mut self, index: usize, value: RawValue) -> (previous: RawValue)
        requires
            index < old(self)@.len(),
        ensures
            final(self)@ == old(self)@.update(index as int, (old(self)@[index as int].0, value@)),
            previous@ == old(self)@[index as int].1,
    {
        proof {
            use_type_invariant(&*self);
        }
        let mut entries: Vec<(String, RawValue)> = Vec::new();
        core::mem::swap(&mut self.entries, &mut entries);
        entries.push((String::new(), RawValue::Boolean(false)));
        let entry = entries.swap_remove(index);
        entries[index] = (entry.0, value);
        proof {
            let next = Table { entries };
            let after = old(self)@.update(index as int, (old(self)@[index as int].0, value@));
            assert(next@ =~= after);
            assert forall|i: int, j: int| 0 <= i < j < after.len() implies (#[trigger] after[i]).0
                != (#[trigger] after[j]).0 by {
                assert(after[i].0 == old(self)@[i].0);
                assert(after[j].0 == old(self)@[j].0);
            }
        }
        self.entries = entries;
        entry.1
    }

    /// Takes out the entry under `key` and returns its value; the entries
    /// after it move up by one place.
    pub fn remove(&mut self, key: &str) -> (removed: Option<RawValue>)
        ensures
            final(self)@ == without_key(old(self)@, key@),
            match removed {
                Some(value) => lookup(old(self)@, key@) == Some(value@),
                None => lookup(old(self)@, key@) is None,
            },
    {
        match self.position(key) {
            Some(index) => {
                let mut entries: Vec<(String, RawValue)> = Vec::new();
                core::mem::swap(&mut self.entries, &mut entries);
                let entry = entries.remove(index);
                proof {
                    let next = Table { entries };
                    assert(next@ =~= without_key(old(self)@, key@));
                    lemma_without_key_distinct(old(self)@, key@);
                }
                self.entries = entries;
                Some(entry.1)
            },
            None => None,
        }
    }
}

impl Table {
    /// Sets every entry of `other` in this table, first to last: a key that
    /// is already present keeps its place and takes the value from `other`,
    /// a new key goes to the end.
    pub fn extend(&mut self, other: Table)
        ensures
            final(self)@ == extended(old(self)@, other@),
    {
        assert(other@ =~= pairs_of(other.entries@));
        self.extend_from(other.entries);
    }

    /// The entries of the table, in table order.
    pub fn into_entries(self) -> (entries: Vec<(String, RawValue)>)
        ensures
            pairs_of(entries@) == self@,
            distinct_keys(self@),
    {
        proof {
            use_type_invariant(&self);
        }
        assert(self@ =~= pairs_of(self.entries@));
        self.entries
    }

    /// The table that holds `entries`, set first to last: of two entries
    /// with one key, the later gives the value and the earlier the place.
    pub fn from_entries(entries: Vec<(String, RawValue)>) -> (table: Table)
        ensures
            table@ == extended(Seq::empty(), pairs_of(entries@)),
            distinct_keys(pairs_of(entries@)) ==> table@ == pairs_of(entries@),
    {
        proof {
            let pairs = pairs_of(entries@);
            if distinct_keys(pairs) {
                lemma_extended_by_new(Seq::empty(), pairs);
                assert(Seq::<(Seq<char>, RawValueView)>::empty() + pairs =~= pairs);
            }
        }
        let mut table = Table::new();
        table.extend_from(entries);
        table
    }

    fn extend_from(&mut self, entries: Vec<(String, RawValue)>)
        ensures
            final(self)@ == extended(old(self)@, pairs_of(entries@)),
    {
        let ghost more = pairs_of(entries@);
        assert(extended(self@, more.take(0)) == self@);
        for entry in it: entries
            invariant
                it.seq() == entries@,
                more == pairs_of(entries@),
                self@ == extended(old(self)@, more.take(it.index() as int)),
        {
            let ghost done = it.index() as int;
            assert(more.take(done + 1).drop_last() =~= more.take(done));
            assert(more.take(done + 1).last() == more[done]);
            self.insert(entry.0, entry.1);
        }
        assert(more.take(more.len() as int) =~= more);
    }
}

/// The name of the shape of a value.
pub open spec fn shape_name(value: RawValueView) -> Seq<char> {
    match value {
        RawValueView::String(_) => "string"@,
        RawValueView::Integer(_) => "integer"@,
        RawValueView::Float(_) => "float"@,
        RawValueView::Boolean(_) => "boolean"@,
        RawValueView::Datetime(_) => "datetime"@,
        RawValueView::Array(_) => "array"@,
        RawValueView::Table(_) => "table"@,
    }
}

impl RawValue {
    /// The name of the shape of this value, for messages to the user.
    pub fn type_str(&self) -> (name: &'static str)
        ensures
            name@ == shape_name(self@),
    {
        match self {
            RawValue::String(_) => "string",
            RawValue::Integer(_) => "integer",
            RawValue::Float(_) => "float",
            RawValue::Boolean(_) => "boolean",
            RawValue::Datetime(_) => "datetime",
            RawValue::Array(_) => "array",
            RawValue::Table(_) => "table",
        }
    }
}

/// The view of an array is the sequence of the views of its items.
pub proof fn lemma_array_view(value: RawValue)
    requires
        value is Array,
    ensures
        value@ is Array,
        value@->Array_0.len() == value->Array_0@.len(),
        forall|i: int|
            0 <= i < value->Array_0@.len() ==> value@->Array_0[i] == (
            #[trigger] value->Array_0@[i])@,
{
}

impl Clone for RawValue {
    /// A deep copy: the same tree in fresh storage.
    fn clone(&self) -> (copy: RawValue)
        ensures
            copy@ == self@,
        decreases self,
    {
        match self {
            RawValue::String(s) => RawValue::String(s.clone()),
            RawValue::Integer(i) => RawValue::Integer(*i),
            RawValue::Float(bits) => RawValue::Float(*bits),
            RawValue::Boolean(b) => RawValue::Boolean(*b),
            RawValue::Datetime(s) => RawValue::Datetime(s.clone()),
            RawValue::Array(items) => {
                let mut copies: Vec<RawValue> = Vec::new();
                let mut index: usize = 0;
                while index < items.len()
                    invariant
                        index <= items@.len(),
                        copies@.len() == index,
                        decreases_to!(self => items),
                        forall|i: int| 0 <= i < index ==> (#[trigger] copies@[i])@ == items@[i]@,
                    decreases items@.len() - index,
                {
                    copies.push(items[index].clone());
                    index += 1;
                }
                let copy = RawValue::Array(copies);
                proof {
                    lemma_array_view(*self);
                    lemma_array_view(copy);
                    assert(copy@->Array_0 =~= self@->Array_0);
                }
                copy
            },
            RawValue::Table(table) => RawValue::Table(table.clone()),
        }
    }
}

impl Clone for Table {
    /// A deep copy: the same entries in fresh storage.
    fn clone(&self) -> (copy: Table)
        ensures
            copy@ == self@,
        decreases self,
    {
        proof {
            use_type_invariant(self);
        }
        let mut copies: Vec<(String, RawValue)> = Vec::new();
        let mut index: usize = 0;
        while index < self.entries.len()
            invariant
                index <= self.entries@.len(),
                copies@.len() == index,
                forall|i: int|
                    0 <= i < index ==> (#[trigger] copies@[i]).0@ == self.entries@[i].0@
                        && copies@[i].1@ == self.entries@[i].1@,
            decreases self.entries@.len() - index,
        {
            let key = self.entries[index].0.clone();
            let value = self.entries[index].1.clone();
            copies.push((key, value));
            index += 1;
        }
        proof {
            let next = Table { entries: copies };
            assert(next@ =~= self@);
        }
        Table { entries: copies }
    }
}

/// The views of a sequence of entries, pair by pair.
pub open spec fn pairs_of(entries: Seq<(String, RawValue)>) -> Seq<(Seq<char>, RawValueView)> {
    Seq::new(entries.len(), |i: int| (entries[i].0@, entries[i].1@))
}

/// The tree that `value` holds.
pub open spec fn tree_of(value: RawValue) -> RawValueView
    decreases value,
{
    match value {
        RawValue::String(s) => RawValueView::String(s@),
        RawValue::Integer(i) => RawValueView::Integer(i),
        RawValue::Float(bits) => RawValueView::Float(bits),
        RawValue::Boolean(b) => RawValueView::Boolean(b),
        RawValue::Datetime(s) => RawValueView::Datetime(s@),
        RawValue::Array(items) => RawValueView::Array(
            Seq::new(
                items@.len(),
                |i: int|
                    if 0 <= i < items@.len() {
                        tree_of(items@[i])
                    } else {
                        RawValueView::Boolean(false)
                    },
            ),
        ),
        RawValue::Table(table) => RawValueView::Table(entries_of(table)),
    }
}

/// The entries that `table` holds, in table order.
pub closed spec fn entries_of(table: Table) -> Seq<(Seq<char>, RawValueView)>
    decreases table,
{
    Seq::new(
        table.entries@.len(),
        |i: int|
            if 0 <= i < table.entries@.len() {
                (table.entries@[i].0@, tree_of(table.entries@[i].1))
            } else {
                (Seq::empty(), RawValueView::Boolean(false))
            },
    )
}

impl View for RawValue {
    type V = RawValueView;

    open spec fn view(&self) -> RawValueView {
        tree_of(*self)
    }
}

impl View for Table {
    type V = Seq<(Seq<char>, RawValueView)>;

    open spec fn view(&self) -> Seq<(Seq<char>, RawValueView)> {
        entries_of(*self)
    }
}

} // verus!
