//! A prerequisite: a reference, by name, to a target that must be current
//! before another target's recipe runs.

use vstd::prelude::*;

verus! {

/// A reference to a target that must be built first.
#[derive(Debug, Clone, PartialEq, Eq)]
pub struct Prerequisite {
    name: String,
}

impl View for Prerequisite {
    type V = Seq<char>;

    closed spec fn view(&self) -> Seq<char> {
        self.name@
    }
}

impl Prerequisite {
    /// A prerequisite on the target called `name`.
    pub fn new(name: String) -> (r: Prerequisite)
        ensures
            r@ == name@,
    {
        Prerequisite { name }
    }

    /// The name of the target this prerequisite refers to.
    pub fn name(&self) -> (r: &String)
        ensures
            r@ == self@,
    {
        &self.name
    }
}

} // verus!
