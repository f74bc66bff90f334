//! What holds of layers, merges and accessors in general.
//!
//! Layers are spoken of as sequences of scopes, the view of a `Config`, and
//! option identities through their views.

use vstd::prelude::*;
use crate::access::{bool_of, dict_of, float_of, int_of, list_of, string_of};
use crate::config::layer_of_parsed;
use crate::edits::ListEditView;
use crate::id::OptionIdView;
use crate::merging::{
    lemma_merge_lookup, merge_of, option_value, options_of, overlaid, unclaimed, well_formed,
};
use crate::value::{has_key, key_index, lemma_extended_lookup, RawValueView};

verus! {

/// The scopes that the layer without scopes leaves unclaimed are all.
proof fn lemma_nothing_claimed(high: Seq<(Seq<char>, RawValueView)>)
    ensures
        unclaimed(Seq::empty(), high) == high,
    decreases high.len(),
{
    if high.len() > 0 {
        lemma_nothing_claimed(high.drop_last());
        assert(high.drop_last().push(high.last()) =~= high);
    }
}

/// Merge identity: the merge of the layer without scopes with a layer, in
/// either order, is that layer.
pub proof fn merge_identity(layer: Seq<(Seq<char>, RawValueView)>)
    ensures
        merge_of(Seq::empty(), layer) == layer,
        merge_of(layer, Seq::empty()) == layer,
{
    lemma_nothing_claimed(layer);
    assert(merge_of(Seq::empty(), layer) =~= layer);
    assert(overlaid(layer, Seq::empty()) =~= layer);
    assert(merge_of(layer, Seq::empty()) =~= layer);
}

/// The merge of two layers is a layer, and resolves every option to the
/// value of the layer of higher precedence where that has the option, else
/// to the value of the other.
pub proof fn merge_resolves(
    low: Seq<(Seq<char>, RawValueView)>,
    high: Seq<(Seq<char>, RawValueView)>,
    scope: Seq<char>,
    name: Seq<char>,
)
    requires
        well_formed(low),
        well_formed(high),
    ensures
        well_formed(merge_of(low, high)),
        has_key(merge_of(low, high), scope) == (has_key(low, scope) || has_key(high, scope)),
        option_value(merge_of(low, high), scope, name) == match option_value(high, scope, name) {
            Some(value) => Some(value),
            None => option_value(low, scope, name),
        },
{
    lemma_merge_lookup(low, high, scope);
    if has_key(low, scope) {
        let place = key_index(low, scope);
        assert(low[place].1 is Table);
        if has_key(high, scope) {
            let from = key_index(high, scope);
            assert(high[from].1 is Table);
            lemma_extended_lookup(options_of(low[place].1), options_of(high[from].1), name);
        }
    } else if has_key(high, scope) {
        let from = key_index(high, scope);
        assert(high[from].1 is Table);
    }
}

/// Merge precedence: an option that both layers have is resolved to the
/// value of the layer of higher precedence.
pub proof fn merge_precedence(
    low: Seq<(Seq<char>, RawValueView)>,
    high: Seq<(Seq<char>, RawValueView)>,
    scope: Seq<char>,
    name: Seq<char>,
)
    requires
        well_formed(low),
        well_formed(high),
        option_value(low, scope, name) is Some,
        option_value(high, scope, name) is Some,
    ensures
        option_value(merge_of(low, high), scope, name) == option_value(high, scope, name),
{
    merge_resolves(low, high, scope, name);
}

/// Merge additivity: in a scope that both layers have, an option that only
/// one of them has keeps its value in the merge.
pub proof fn merge_additivity(
    low: Seq<(Seq<char>, RawValueView)>,
    high: Seq<(Seq<char>, RawValueView)>,
    scope: Seq<char>,
    name: Seq<char>,
)
    requires
        well_formed(low),
        well_formed(high),
        has_key(low, scope),
        has_key(high, scope),
    ensures
        option_value(high, scope, name) is None ==> option_value(merge_of(low, high), scope, name)
            == option_value(low, scope, name),
        option_value(low, scope, name) is None ==> option_value(merge_of(low, high), scope, name)
            == option_value(high, scope, name),
{
    merge_resolves(low, high, scope, name);
}

/// Round trip: a layer that was built from what a source was read as holds
/// the tree that was read, so that every option resolves to the node that
/// the tree has at the option's scope and name.
pub proof fn round_trip(
    file: Seq<char>,
    parsed: Result<RawValueView, Seq<char>>,
    scope: Seq<char>,
    name: Seq<char>,
)
    requires
        layer_of_parsed(file, parsed) is Ok,
    ensures
        parsed == Ok::<RawValueView, Seq<char>>(
            RawValueView::Table(layer_of_parsed(file, parsed)->Ok_0),
        ),
        option_value(layer_of_parsed(file, parsed)->Ok_0, scope, name) == option_value(
            options_of(parsed->Ok_0),
            scope,
            name,
        ),
{
}

/// Absence propagation: every accessor finds nothing, and no error, for an
/// option of a scope that the layer does not have.
pub proof fn absent_scope(
    scopes: Seq<(Seq<char>, RawValueView)>,
    id: OptionIdView,
    parsed: Result<Seq<ListEditView>, Seq<char>>,
)
    requires
        !has_key(scopes, id.scope),
    ensures
        option_value(scopes, id.scope, id.name) is None,
        string_of(scopes, id) matches Ok(None),
        bool_of(scopes, id) matches Ok(None),
        int_of(scopes, id) matches Ok(None),
        float_of(scopes, id) matches Ok(None),
        dict_of(scopes, id) matches Ok(None),
        list_of(scopes, id, parsed) matches Ok(None),
{
}

} // verus!
