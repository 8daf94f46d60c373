//! An attribute of the client's database: a value and its count.

use vstd::prelude::*;

verus! {

/// A value and its count of sightings.
pub struct Attribute {
    value: String,
    count: u128,
}

/// What an attribute holds.
pub struct AttributeView {
    pub value: Seq<char>,
    pub count: u128,
}

impl View for Attribute {
    type V = AttributeView;

    closed spec fn view(&self) -> AttributeView {
        AttributeView { value: self.value@, count: self.count }
    }
}

impl Attribute {
    /// A fresh attribute for `value`, never seen.
    pub fn new(value: &str) -> (a: Attribute)
        ensures
            a@ == (AttributeView { value: value@, count: 0 }),
    {
        Attribute { value: value.to_owned(), count: 0 }
    }

    /// The number of sightings.
    pub fn count(&mut self) -> (c: u128)
        ensures
            c == old(self)@.count,
            final(self)@ == old(self)@,
    {
        self.count
    }

    /// Counts one more sighting.
    pub fn incr(&mut self)
        requires
            old(self)@.count < u128::MAX,
        ensures
            final(self)@ == (AttributeView { count: (old(self)@.count + 1) as u128, ..old(self)@ }),
    {
        self.count = self.count + 1;
    }
}

} // verus!
