//! An attribute of the plain database: a value and how many times it was
//! written.

use vstd::prelude::*;

verus! {

/// A value and its count of sightings.
pub struct Attribute {
    value: String,
    first_seen: u32,
    last_seen: u32,
    count: u128,
}

/// What an attribute holds.
pub struct AttributeView {
    pub value: Seq<char>,
    pub first_seen: u32,
    pub last_seen: u32,
    pub count: u128,
}

impl View for Attribute {
    type V = AttributeView;

    closed spec fn view(&self) -> AttributeView {
        AttributeView {
            value: self.value@,
            first_seen: self.first_seen,
            last_seen: self.last_seen,
            count: self.count,
        }
    }
}

/// A fresh attribute for `value`, never seen.
pub open spec fn fresh_attribute(value: Seq<char>) -> AttributeView {
    AttributeView { value, first_seen: 0, last_seen: 0, count: 0 }
}

/// The attribute with one more sighting.
pub open spec fn incremented(a: AttributeView) -> AttributeView {
    AttributeView { count: (a.count + 1) as u128, ..a }
}

impl Attribute {
    /// A fresh attribute for `value`.
    pub fn new(value: &str) -> (a: Attribute)
        ensures
            a@ == fresh_attribute(value@),
    {
        Attribute { value: value.to_owned(), first_seen: 0, last_seen: 0, count: 0 }
    }

    /// The number of sightings.
    pub fn count(&mut self) -> (c: u128)
        ensures
            c == old(self)@.count,
            final(self)@ == old(self)@,
    {
        self.count
    }

    /// Counts one more sighting.
    pub fn incr(&mut self)
        requires
            old(self)@.count < u128::MAX,
        ensures
            final(self)@ == incremented(old(self)@),
    {
        self.count = self.count + 1;
    }
}

} // verus!
