//! A named measurement span: the label under which a host times a piece of
//! work, such as one generation step.
use vstd::prelude::*;

verus! {

/// A timing span identified by its label.
pub struct Timer<'a> {
    name: &'a str,
}

impl<'a> Timer<'a> {
    /// The label of the span.
    pub closed spec fn label(&self) -> Seq<char> {
        self.name@
    }

    /// A span labelled `name`.
    pub fn new(name: &'a str) -> (r: Timer<'a>)
        ensures
            r.label() == name@,
    {
        Timer { name }
    }

    /// The label the span was made with.
    pub fn name(&self) -> (r: &'a str)
        ensures
            r@ == self.label(),
    {
        self.name
    }
}

} // verus!
