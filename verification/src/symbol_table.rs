//! Identifiers as they appear in source text.

use vstd::prelude::*;
use vstd::std_specs::cmp::PartialEqSpecImpl;
use vstd::string::*;

verus! {

/// A name scanned from source text.
///
/// An identifier owns a copy of its name. Two identifiers denote the same
/// name exactly when their views are equal; no canonical instance per name
/// is kept.
#[derive(Clone, Debug)]
pub struct Identifier {
    name: String,
}

impl View for Identifier {
    type V = Seq<char>;

    closed spec fn view(&self) -> Seq<char> {
        self.name@
    }
}

impl PartialEq for Identifier {
    /// Whether both identifiers hold the same name.
    fn eq(&self, other: &Identifier) -> (equal: bool) {
        self.name == other.name
    }
}

impl PartialEqSpecImpl for Identifier {
    open spec fn obeys_eq_spec() -> bool {
        true
    }

    open spec fn eq_spec(&self, other: &Identifier) -> bool {
        self@ == other@
    }
}

impl Identifier {
    /// Builds an identifier that holds a copy of `name`.
    pub fn new(name: &str) -> (id: Identifier)
        ensures
            id@ == name@,
    {
        Identifier { name: String::from_str(name) }
    }
}

} // verus!
