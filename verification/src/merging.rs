//! What merging two layers means, and what follows from it.
//!
//! Layers are spoken of here as sequences of scopes, each a pair of the
//! scope's name and its table of options: the view of a `Config`.

use vstd::prelude::*;
use crate::value::{
    distinct_keys, extended, has_key, key_index, lemma_extended_lookup, lemma_lookup_at, lookup,
    RawValueView,
};

verus! {

/// The validity of a layer: no scope occurs twice, every scope is a table,
/// and in no scope an option occurs twice.
pub open spec fn well_formed(scopes: Seq<(Seq<char>, RawValueView)>) -> bool {
    &&& distinct_keys(scopes)
    &&& forall|i: int|
        0 <= i < scopes.len() ==> (#[trigger] scopes[i]).1 is Table && distinct_keys(
            scopes[i].1->Table_0,
        )
}

/// The options of a scope; none where the value is no table.
pub open spec fn options_of(scope: RawValueView) -> Seq<(Seq<char>, RawValueView)> {
    match scope {
        RawValueView::Table(options) => options,
        _ => Seq::empty(),
    }
}

/// The value that a layer holds for the option `name` of the scope `scope`.
pub open spec fn option_value(
    scopes: Seq<(Seq<char>, RawValueView)>,
    scope: Seq<char>,
    name: Seq<char>,
) -> Option<RawValueView> {
    match lookup(scopes, scope) {
        Some(RawValueView::Table(options)) => lookup(options, name),
        _ => None,
    }
}

/// One scope of `low` after the merge with `high`: where `high` has a scope
/// of the same name, the options of `low` extended by those of `high`.
pub open spec fn overlaid_scope(
    entry: (Seq<char>, RawValueView),
    high: Seq<(Seq<char>, RawValueView)>,
) -> (Seq<char>, RawValueView) {
    match lookup(high, entry.0) {
        Some(more) => (
            entry.0,
            RawValueView::Table(extended(options_of(entry.1), options_of(more))),
        ),
        None => entry,
    }
}

/// The scopes of `low`, in their order, each after the merge with `high`.
pub open spec fn overlaid(
    low: Seq<(Seq<char>, RawValueView)>,
    high: Seq<(Seq<char>, RawValueView)>,
) -> Seq<(Seq<char>, RawValueView)> {
    Seq::new(low.len(), |i: int| overlaid_scope(low[i], high))
}

/// The scopes of `high` that `low` does not have, in their order.
pub open spec fn unclaimed(
    low: Seq<(Seq<char>, RawValueView)>,
    high: Seq<(Seq<char>, RawValueView)>,
) -> Seq<(Seq<char>, RawValueView)>
    decreases high.len(),
{
    if high.len() == 0 {
        high
    } else if has_key(low, high.last().0) {
        unclaimed(low, high.drop_last())
    } else {
        unclaimed(low, high.drop_last()).push(high.last())
    }
}

/// The merge of the layer `low` with the layer `high` of higher precedence:
/// the scopes of `low` first, each extended by the scope of the same name
/// in `high`, then the scopes that only `high` has.
pub open spec fn merge_of(
    low: Seq<(Seq<char>, RawValueView)>,
    high: Seq<(Seq<char>, RawValueView)>,
) -> Seq<(Seq<char>, RawValueView)> {
    overlaid(low, high) + unclaimed(low, high)
}

/// The merge of a sequence of layers, the last of highest precedence.
pub open spec fn merge_all_of(layers: Seq<Seq<(Seq<char>, RawValueView)>>) -> Seq<
    (Seq<char>, RawValueView),
>
    decreases layers.len(),
{
    if layers.len() == 0 {
        Seq::empty()
    } else {
        merge_of(merge_all_of(layers.drop_last()), layers.last())
    }
}

/// A prefix of a table with distinct keys has distinct keys.
pub proof fn lemma_take_distinct(entries: Seq<(Seq<char>, RawValueView)>, count: int)
    requires
        distinct_keys(entries),
        0 <= count <= entries.len(),
    ensures
        distinct_keys(entries.take(count)),
        forall|key: Seq<char>|
            has_key(entries.take(count), key) ==> has_key(entries, key) && key_index(
                entries,
                key,
            ) < count && lookup(entries.take(count), key) == lookup(entries, key),
        forall|i: int| 0 <= i < count ==> has_key(entries.take(count), (#[trigger] entries[i]).0),
{
    let part = entries.take(count);
    assert forall|i: int, j: int| 0 <= i < j < part.len() implies (#[trigger] part[i]).0 != (
    #[trigger] part[j]).0 by {
        assert(part[i] == entries[i]);
        assert(part[j] == entries[j]);
    }
    assert forall|key: Seq<char>| has_key(part, key) implies has_key(entries, key) && key_index(
        entries,
        key,
    ) < count && lookup(part, key) == lookup(entries, key) by {
        let at = key_index(part, key);
        assert(part[at] == entries[at]);
        lemma_lookup_at(entries, at);
        lemma_lookup_at(part, at);
    }
    assert forall|i: int| 0 <= i < count implies has_key(part, (#[trigger] entries[i]).0) by {
        assert(part[i] == entries[i]);
    }
}

/// The scopes that only `high` has are those of `high` whose names `low`
/// lacks, each with the value that `high` gives it.
pub proof fn lemma_unclaimed(
    low: Seq<(Seq<char>, RawValueView)>,
    high: Seq<(Seq<char>, RawValueView)>,
)
    requires
        distinct_keys(high),
    ensures
        distinct_keys(unclaimed(low, high)),
        forall|key: Seq<char>| #[trigger]
            has_key(unclaimed(low, high), key) == (has_key(high, key) && !has_key(low, key)),
        forall|key: Seq<char>|
            has_key(unclaimed(low, high), key) ==> #[trigger] lookup(unclaimed(low, high), key)
                == lookup(high, key),
        forall|i: int|
            0 <= i < unclaimed(low, high).len() ==> exists|j: int|
                0 <= j < high.len() && high[j] == #[trigger] unclaimed(low, high)[i],
    decreases high.len(),
{
    let rest = unclaimed(low, high);
    if high.len() == 0 {
        assert forall|key: Seq<char>| #[trigger]
            has_key(rest, key) == (has_key(high, key) && !has_key(low, key)) by {}
    } else {
        let earlier = high.drop_last();
        let last = high.last();
        let before = unclaimed(low, earlier);
        assert(earlier =~= high.take(high.len() - 1));
        lemma_take_distinct(high, high.len() - 1);
        lemma_unclaimed(low, earlier);
        lemma_lookup_at(high, high.len() - 1);
        assert(!has_key(earlier, last.0)) by {
            if has_key(earlier, last.0) {
                assert(key_index(high, last.0) < high.len() - 1);
            }
        }
        assert(!has_key(before, last.0));
        assert forall|i: int, j: int| 0 <= i < j < rest.len() implies (#[trigger] rest[i]).0 != (
        #[trigger] rest[j]).0 by {
            if j < before.len() {
                assert(rest[i] == before[i]);
                assert(rest[j] == before[j]);
            } else {
                assert(rest[i] == before[i]);
                assert(has_key(before, before[i].0));
            }
        }
        assert forall|key: Seq<char>| #[trigger]
            has_key(rest, key) == (has_key(high, key) && !has_key(low, key)) by {
            if has_key(rest, key) {
                let at = key_index(rest, key);
                if at < before.len() {
                    assert(rest[at] == before[at]);
                    assert(has_key(before, key));
                    assert(has_key(earlier, key));
                    let from = key_index(earlier, key);
                    assert(high[from] == earlier[from]);
                } else {
                    assert(key == last.0);
                }
            }
            if has_key(high, key) && !has_key(low, key) {
                if key == last.0 {
                    assert(rest[rest.len() - 1] == last);
                } else {
                    let from = key_index(high, key);
                    assert(earlier[from] == high[from]);
                    assert(has_key(earlier, key));
                    assert(has_key(before, key));
                    let at = key_index(before, key);
                    assert(rest[at] == before[at]);
                }
            }
        }
        assert forall|key: Seq<char>| has_key(rest, key) implies #[trigger] lookup(rest, key)
            == lookup(high, key) by {
            let at = key_index(rest, key);
            lemma_lookup_at(rest, at);
            if at < before.len() {
                assert(rest[at] == before[at]);
                assert(has_key(before, key));
                lemma_lookup_at(before, at);
                assert(lookup(before, key) == lookup(earlier, key));
                assert(has_key(earlier, key));
            } else {
                assert(rest[at] == last);
            }
        }
        assert forall|i: int| 0 <= i < rest.len() implies exists|j: int|
            0 <= j < high.len() && high[j] == #[trigger] rest[i] by {
            if i < before.len() {
                assert(rest[i] == before[i]);
                let j = choose|j: int| 0 <= j < earlier.len() && earlier[j] == before[i];
                assert(high[j] == earlier[j]);
            } else {
                assert(high[high.len() - 1] == rest[i]);
            }
        }
    }
}

/// After the merge with `high`, the scopes of `low` have their names and
/// places, and each is a table with distinct options.
pub proof fn lemma_overlaid(
    low: Seq<(Seq<char>, RawValueView)>,
    high: Seq<(Seq<char>, RawValueView)>,
)
    requires
        well_formed(low),
        well_formed(high),
    ensures
        overlaid(low, high).len() == low.len(),
        well_formed(overlaid(low, high)),
        forall|i: int| 0 <= i < low.len() ==> (#[trigger] overlaid(low, high)[i]).0 == low[i].0,
        forall|key: Seq<char>| #[trigger] has_key(overlaid(low, high), key) == has_key(low, key),
        forall|key: Seq<char>|
            has_key(low, key) ==> #[trigger] key_index(overlaid(low, high), key) == key_index(
                low,
                key,
            ),
{
    let over = overlaid(low, high);
    assert forall|i: int| 0 <= i < low.len() implies (#[trigger] over[i]).1 is Table
        && distinct_keys(over[i].1->Table_0) by {
        assert(low[i].1 is Table);
        if has_key(high, low[i].0) {
            let from = key_index(high, low[i].0);
            assert(high[from].1 is Table);
            lemma_extended_lookup(options_of(low[i].1), options_of(high[from].1), Seq::empty());
        }
    }
    assert forall|i: int, j: int| 0 <= i < j < over.len() implies (#[trigger] over[i]).0 != (
    #[trigger] over[j]).0 by {
        assert(low[i].0 != low[j].0);
    }
    assert forall|key: Seq<char>| #[trigger] has_key(over, key) == has_key(low, key) by {
        if has_key(over, key) {
            let at = key_index(over, key);
            assert(low[at].0 == key);
        }
        if has_key(low, key) {
            let at = key_index(low, key);
            assert(over[at].0 == key);
        }
    }
    assert forall|key: Seq<char>| has_key(low, key) implies #[trigger] key_index(over, key)
        == key_index(low, key) by {
        let at = key_index(low, key);
        assert(over[at].0 == key);
        lemma_lookup_at(over, at);
    }
}

/// What a scope name finds in a merge: the overlaid scope of `low` where
/// `low` has the name, else what `high` holds under it.
pub proof fn lemma_merge_lookup(
    low: Seq<(Seq<char>, RawValueView)>,
    high: Seq<(Seq<char>, RawValueView)>,
    key: Seq<char>,
)
    requires
        well_formed(low),
        well_formed(high),
    ensures
        well_formed(merge_of(low, high)),
        has_key(merge_of(low, high), key) == (has_key(low, key) || has_key(high, key)),
        has_key(low, key) ==> key_index(merge_of(low, high), key) == key_index(low, key)
            && lookup(merge_of(low, high), key) == Some(
            overlaid_scope(low[key_index(low, key)], high).1,
        ),
        !has_key(low, key) ==> lookup(merge_of(low, high), key) == lookup(high, key),
{
    let over = overlaid(low, high);
    let rest = unclaimed(low, high);
    let all = merge_of(low, high);
    lemma_overlaid(low, high);
    lemma_unclaimed(low, high);
    assert forall|i: int, j: int| 0 <= i < j < all.len() implies (#[trigger] all[i]).0 != (
    #[trigger] all[j]).0 by {
        if j < over.len() {
            assert(over[i].0 != over[j].0);
        } else if i < over.len() {
            assert(all[j] == rest[j - over.len()]);
            assert(has_key(rest, all[j].0));
            assert(has_key(over, over[i].0));
        } else {
            assert(rest[i - over.len()].0 != rest[j - over.len()].0);
        }
    }
    assert forall|i: int| 0 <= i < all.len() implies (#[trigger] all[i]).1 is Table
        && distinct_keys(all[i].1->Table_0) by {
        if i < over.len() {
            assert(all[i] == over[i]);
        } else {
            let entry = rest[i - over.len()];
            assert(all[i] == entry);
            let from = choose|j: int| 0 <= j < high.len() && high[j] == entry;
            assert(high[from].1 is Table);
        }
    }
    if has_key(low, key) {
        let at = key_index(low, key);
        assert(all[at] == over[at]);
        lemma_lookup_at(all, at);
    } else if has_key(high, key) {
        assert(has_key(rest, key));
        let at = key_index(rest, key);
        assert(all[over.len() + at] == rest[at]);
        lemma_lookup_at(all, over.len() + at);
        lemma_lookup_at(rest, at);
    } else {
        if has_key(all, key) {
            let at = key_index(all, key);
            if at < over.len() {
                assert(all[at] == over[at]);
                assert(has_key(over, key));
            } else {
                assert(all[at] == rest[at - over.len()]);
                assert(has_key(rest, key));
            }
        }
    }
}

/// How a merge grows when `high` gets one more scope: a scope that `low`
/// has is extended in its place, a new one goes to the end.
pub proof fn lemma_merge_step(
    low: Seq<(Seq<char>, RawValueView)>,
    high: Seq<(Seq<char>, RawValueView)>,
    count: int,
)
    requires
        well_formed(low),
        well_formed(high),
        0 <= count < high.len(),
    ensures
        well_formed(merge_of(low, high.take(count))),
        has_key(merge_of(low, high.take(count)), high[count].0) == has_key(low, high[count].0),
        has_key(low, high[count].0) ==> {
            let place = key_index(low, high[count].0);
            &&& key_index(merge_of(low, high.take(count)), high[count].0) == place
            &&& merge_of(low, high.take(count))[place] == low[place]
            &&& merge_of(low, high.take(count + 1)) == merge_of(low, high.take(count)).update(
                place,
                (
                    high[count].0,
                    RawValueView::Table(
                        extended(options_of(low[place].1), options_of(high[count].1)),
                    ),
                ),
            )
        },
        !has_key(low, high[count].0) ==> merge_of(low, high.take(count + 1)) == merge_of(
            low,
            high.take(count),
        ).push(high[count]),
{
    let before = high.take(count);
    let after = high.take(count + 1);
    let entry = high[count];
    lemma_take_distinct(high, count);
    lemma_take_distinct(high, count + 1);
    assert(well_formed(before)) by {
        assert forall|i: int| 0 <= i < before.len() implies (#[trigger] before[i]).1 is Table
            && distinct_keys(before[i].1->Table_0) by {
            assert(before[i] == high[i]);
        }
    }
    assert(well_formed(after)) by {
        assert forall|i: int| 0 <= i < after.len() implies (#[trigger] after[i]).1 is Table
            && distinct_keys(after[i].1->Table_0) by {
            assert(after[i] == high[i]);
        }
    }
    lemma_merge_lookup(low, before, entry.0);
    lemma_overlaid(low, before);
    lemma_overlaid(low, after);
    lemma_lookup_at(high, count);
    assert(!has_key(before, entry.0)) by {
        if has_key(before, entry.0) {
            assert(key_index(high, entry.0) < count);
        }
    }
    assert(after.drop_last() =~= before);
    assert(after.last() == entry);
    assert(after[count] == entry);
    lemma_lookup_at(after, count);
    // What each scope name of `low` finds in the longer prefix.
    assert forall|i: int| 0 <= i < low.len() implies #[trigger] lookup(after, low[i].0) == if low[i].0
        == entry.0 {
        Some(entry.1)
    } else {
        lookup(before, low[i].0)
    } by {
        let key = low[i].0;
        if key != entry.0 {
            if has_key(after, key) {
                let at = key_index(after, key);
                assert(at != count);
                assert(before[at] == after[at]);
                lemma_lookup_at(before, at);
                lemma_lookup_at(after, at);
            }
            if has_key(before, key) {
                let at = key_index(before, key);
                assert(after[at] == before[at]);
            }
        }
    }
    if has_key(low, entry.0) {
        let place = key_index(low, entry.0);
        lemma_lookup_at(low, place);
        assert(lookup(before, low[place].0) is None);
        let grown = merge_of(low, before).update(
            place,
            (entry.0, RawValueView::Table(extended(options_of(low[place].1), options_of(entry.1)))),
        );
        assert(merge_of(low, after).len() == grown.len());
        assert forall|i: int| 0 <= i < grown.len() implies merge_of(low, after)[i] == grown[i] by {
            if i < low.len() {
                if i != place {
                    assert(low[i].0 != low[place].0);
                }
                assert(lookup(after, low[i].0) == if low[i].0 == entry.0 {
                    Some(entry.1)
                } else {
                    lookup(before, low[i].0)
                });
            }
        }
        assert(merge_of(low, after) =~= grown);
    } else {
        assert forall|i: int| 0 <= i < low.len() implies overlaid(low, after)[i] == overlaid(
            low,
            before,
        )[i] by {
            assert(has_key(low, low[i].0));
            assert(lookup(after, low[i].0) == if low[i].0 == entry.0 {
                Some(entry.1)
            } else {
                lookup(before, low[i].0)
            });
        }
        assert(overlaid(low, after) =~= overlaid(low, before));
        assert(merge_of(low, after) =~= merge_of(low, before).push(entry));
    }
}

} // verus!
