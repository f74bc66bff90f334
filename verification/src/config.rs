//! One layer of configuration: how it is built and how layers are merged.

use vstd::prelude::*;
use crate::error::{Error, ErrorView};
use crate::merging::{lemma_merge_lookup, lemma_merge_step, merge_all_of, merge_of, well_formed};
use crate::syntax::{parse_document, toml_document, tree_from_toml};
use crate::value::{
    distinct_keys, lemma_lookup_at, lookup, pairs_of, RawValue, RawValueView, Table,
};

verus! {

/// One layer of configuration: a table of scopes, each a table of options.
///
/// Its view is the sequence of its scopes in order, each with its options.
#[derive(Debug, PartialEq)]
pub struct Config {
    scopes: Table,
}

/// Every entry of `entries` holds a table.
pub open spec fn all_tables(entries: Seq<(Seq<char>, RawValueView)>) -> bool {
    forall|i: int| 0 <= i < entries.len() ==> (#[trigger] entries[i]).1 is Table
}

/// The position of the first entry of `entries` that holds no table.
pub open spec fn first_other(entries: Seq<(Seq<char>, RawValueView)>) -> int {
    choose|i: int|
        0 <= i < entries.len() && !((#[trigger] entries[i]).1 is Table) && forall|j: int|
            0 <= j < i ==> (#[trigger] entries[j]).1 is Table
}

/// The layer that the tree `tree`, read from `file`, stands for: its scopes
/// where it is a table of tables, else the shape error of the root or of
/// the first scope that is no table.
pub open spec fn layer_of(file: Seq<char>, tree: RawValueView) -> Result<
    Seq<(Seq<char>, RawValueView)>,
    ErrorView,
> {
    match tree {
        RawValueView::Table(scopes) => if all_tables(scopes) {
            Ok(scopes)
        } else {
            Err(
                ErrorView::Shape {
                    file,
                    section: Some(scopes[first_other(scopes)].0),
                    actual: scopes[first_other(scopes)].1,
                },
            )
        },
        other => Err(ErrorView::Shape { file, section: None, actual: other }),
    }
}

/// The layer that the outcome `parsed` of reading `file` stands for.
pub open spec fn layer_of_parsed(
    file: Seq<char>,
    parsed: Result<RawValueView, Seq<char>>,
) -> Result<Seq<(Seq<char>, RawValueView)>, ErrorView> {
    match parsed {
        Ok(tree) => layer_of(file, tree),
        Err(detail) => Err(ErrorView::Parse { file, detail }),
    }
}

/// The model of the outcome of building a layer.
pub open spec fn layer_view(layer: Result<Config, Error>) -> Result<
    Seq<(Seq<char>, RawValueView)>,
    ErrorView,
> {
    match layer {
        Ok(config) => Ok(config@),
        Err(error) => Err(error@),
    }
}

impl View for Config {
    type V = Seq<(Seq<char>, RawValueView)>;

    closed spec fn view(&self) -> Seq<(Seq<char>, RawValueView)> {
        self.scopes@
    }
}

impl Clone for Config {
    /// A deep copy of the layer.
    fn clone(&self) -> (copy: Config)
        ensures
            copy@ == self@,
    {
        proof {
            use_type_invariant(self);
        }
        Config { scopes: self.scopes.clone() }
    }
}

impl Config {
    /// The validity of a layer, which every `Config` has.
    #[verifier::type_invariant]
    pub open spec fn valid(self) -> bool {
        well_formed(self@)
    }

    /// The scopes of the layer, each a table of options.
    pub fn scopes(&self) -> (scopes: &Table)
        ensures
            scopes@ == self@,
            well_formed(self@),
    {
        proof {
            use_type_invariant(self);
        }
        &self.scopes
    }

    /// A layer without scopes.
    pub fn default() -> (config: Config)
        ensures
            config@ == Seq::<(Seq<char>, RawValueView)>::empty(),
    {
        Config { scopes: Table::new() }
    }

    /// Builds a layer from the text `text` of the source named `file`.
    ///
    /// Fails with [`Error::Parse`] where the text is not a TOML document,
    /// and with [`Error::Shape`] where the document is no table of tables.
    pub fn parse(file: &str, text: &str) -> (layer: Result<Config, Error>)
        ensures
            layer_view(layer) == layer_of_parsed(file@, toml_document(text@)),
    {
        match parse_document(text) {
            Ok(tree) => Config::from_value(file, tree_from_toml(tree)),
            Err(detail) => Config::from_parsed(file, Err(detail)),
        }
    }

    /// Builds a layer from the outcome of reading the source named `file`:
    /// the tree that was read, or the message of the syntax error.
    pub fn from_parsed(file: &str, parsed: Result<RawValue, String>) -> (layer: Result<
        Config,
        Error,
    >)
        ensures
            layer_view(layer) == layer_of_parsed(
                file@,
                match parsed {
                    Ok(tree) => Ok(tree@),
                    Err(detail) => Err(detail@),
                },
            ),
    {
        match parsed {
            Ok(tree) => Config::from_value(file, tree),
            Err(detail) => Err(Error::Parse { file: file.to_owned(), detail }),
        }
    }

    /// Builds a layer from the tree `tree` of the source named `file`.
    ///
    /// Fails with [`Error::Shape`] where the root is no table, and where a
    /// scope is no table: the error then names the first such scope.
    pub fn from_value(file: &str, tree: RawValue) -> (layer: Result<Config, Error>)
        ensures
            layer_view(layer) == layer_of(file@, tree@),
    {
        match tree {
            RawValue::Table(scopes) => {
                proof {
                    use_type_invariant(&scopes);
                }
                let mut index: usize = 0;
                while index < scopes.len()
                    invariant
                        index <= scopes@.len(),
                        tree@ == RawValueView::Table(scopes@),
                        forall|i: int|
                            0 <= i < index ==> (#[trigger] scopes@[i]).1 is Table && distinct_keys(
                                scopes@[i].1->Table_0,
                            ),
                    decreases scopes@.len() - index,
                {
                    match scopes.value(index) {
                        RawValue::Table(options) => {
                            proof {
                                use_type_invariant(options);
                            }
                        },
                        other => {
                            let section = scopes.key(index).to_owned();
                            let actual = other.clone();
                            assert(first_other(scopes@) == index);
                            return Err(
                                Error::Shape {
                                    file: file.to_owned(),
                                    section: Some(section),
                                    actual,
                                },
                            );
                        },
                    }
                    index += 1;
                }
                Ok(Config { scopes })
            },
            other => Err(Error::Shape { file: file.to_owned(), section: None, actual: other }),
        }
    }
}

impl Config {
    /// Merges this layer with `other`, whose options take precedence.
    ///
    /// The scopes of this layer come first, in their order. A scope that
    /// both layers have holds the options of both; an option that both have
    /// takes the value of `other`. The scopes that only `other` has follow,
    /// in their order.
    pub fn merge(self, other: Config) -> (merged: Config)
        ensures
            merged@ == merge_of(self@, other@),
    {
        proof {
            use_type_invariant(&self);
            use_type_invariant(&other);
        }
        let ghost low = self@;
        let ghost high = other@;
        let mut scopes = self.scopes;
        let entries = other.scopes.into_entries();
        proof {
            assert(high.take(0) =~= Seq::empty());
            assert(merge_of(low, high.take(0)) =~= low) by {
                assert forall|i: int| 0 <= i < low.len() implies lookup(
                    high.take(0),
                    (#[trigger] low[i]).0,
                ) is None by {}
            }
        }
        for entry in it: entries
            invariant
                it.seq() == entries@,
                high == pairs_of(entries@),
                well_formed(low),
                well_formed(high),
                scopes@ == merge_of(low, high.take(it.index() as int)),
        {
            let ghost done = it.index() as int;
            proof {
                lemma_merge_step(low, high, done);
            }
            let scope = entry.0;
            let more = entry.1;
            match scopes.position(scope.as_str()) {
                Some(place) => {
                    proof {
                        lemma_lookup_at(low, place as int);
                    }
                    let previous = scopes.replace_value(place, RawValue::Boolean(false));
                    let combined = match previous {
                        RawValue::Table(mut options) => {
                            match more {
                                RawValue::Table(added) => {
                                    options.extend(added);
                                },
                                _ => {},
                            }
                            RawValue::Table(options)
                        },
                        other_shape => other_shape,
                    };
                    scopes.replace_value(place, combined);
                    assert(scopes@ =~= merge_of(low, high.take(done + 1)));
                },
                None => {
                    scopes.insert(scope, more);
                },
            }
        }
        proof {
            assert(high.take(high.len() as int) =~= high);
            lemma_merge_lookup(low, high, Seq::empty());
        }
        Config { scopes }
    }

    /// Merges `layers` from first to last into one layer, so that the last
    /// has the highest precedence.
    pub fn merged(layers: Vec<Config>) -> (merged: Config)
        ensures
            merged@ == merge_all_of(views_of(layers@)),
    {
        let ghost all = views_of(layers@);
        let mut merged = Config::default();
        assert(all.take(0) =~= Seq::empty());
        for layer in it: layers
            invariant
                it.seq() == layers@,
                all == views_of(layers@),
                merged@ == merge_all_of(all.take(it.index() as int)),
        {
            let ghost done = it.index() as int;
            assert(all.take(done + 1).drop_last() =~= all.take(done));
            assert(all.take(done + 1).last() == layer@);
            merged = merged.merge(layer);
        }
        assert(all.take(all.len() as int) =~= all);
        merged
    }
}

/// The views of a sequence of layers, layer by layer.
pub open spec fn views_of(layers: Seq<Config>) -> Seq<Seq<(Seq<char>, RawValueView)>> {
    Seq::new(layers.len(), |i: int| layers[i]@)
}

} // verus!
