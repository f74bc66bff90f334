//! The identity of an option: where it is looked up, and how it is named to
//! the user.

use vstd::prelude::*;

verus! {

/// The addressable key of one option.
#[derive(Clone, Debug, PartialEq, Eq)]
pub struct OptionId {
    /// The name of the scope that holds the option.
    pub scope: String,
    /// The name of the option inside its scope.
    pub name: String,
    /// How the option is named in messages to the user.
    pub display: String,
}

/// The mathematical model of an [`OptionId`].
pub struct OptionIdView {
    pub scope: Seq<char>,
    pub name: Seq<char>,
    pub display: Seq<char>,
}

impl View for OptionId {
    type V = OptionIdView;

    open spec fn view(&self) -> OptionIdView {
        OptionIdView { scope: self.scope@, name: self.name@, display: self.display@ }
    }
}

impl OptionId {
    /// The identity of the option `name` in the scope `scope`, shown to the
    /// user as `display`.
    pub fn new(scope: &str, name: &str, display: &str) -> (id: OptionId)
        ensures
            id@.scope == scope@,
            id@.name == name@,
            id@.display == display@,
    {
        OptionId { scope: scope.to_owned(), name: name.to_owned(), display: display.to_owned() }
    }
}

} // verus!
