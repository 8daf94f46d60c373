//! A string-keyed table whose values can be updated in place.
//!
//! Keys go through a `StringHashMap` to a slot of a `Vec`; the slot's value
//! can then be taken out, changed and put back without cloning it.

use vstd::prelude::*;
use vstd::hash_map::StringHashMap;

verus! {

/// A map from strings to values of type `V`.
#[verifier::reject_recursive_types(V)]
pub struct StrTable<V> {
    slots: StringHashMap<usize>,
    items: Vec<V>,
}

impl<V> StrTable<V> {
    /// Every key leads to a slot of `items`, and no two keys share a slot.
    #[verifier::type_invariant]
    spec fn slots_valid(&self) -> bool {
        &&& forall|k: Seq<char>| #[trigger]
            self.slots@.contains_key(k) ==> self.slots@[k] < self.items@.len()
        &&& forall|k1: Seq<char>, k2: Seq<char>|
            #[trigger] self.slots@.contains_key(k1) && #[trigger] self.slots@.contains_key(k2)
                && k1 != k2 ==> self.slots@[k1] != self.slots@[k2]
    }
}

impl<V> View for StrTable<V> {
    type V = Map<Seq<char>, V>;

    closed spec fn view(&self) -> Map<Seq<char>, V> {
        Map::new(
            |k: Seq<char>| self.slots@.contains_key(k),
            |k: Seq<char>| self.items@[self.slots@[k] as int],
        )
    }
}

impl<V> StrTable<V> {
    /// An empty table.
    pub fn new() -> (t: Self)
        ensures
            t@ == Map::<Seq<char>, V>::empty(),
    {
        let t = StrTable { slots: StringHashMap::new(), items: Vec::new() };
        assert(t@ =~= Map::<Seq<char>, V>::empty());
        t
    }

    /// Whether `k` is a key of the table.
    pub fn contains_key(&self, k: &str) -> (b: bool)
        ensures
            b == self@.contains_key(k@),
    {
        self.slots.contains_key(k)
    }

    /// The value stored under `k`, if any.
    pub fn get(&self, k: &str) -> (r: Option<&V>)
        ensures
            match r {
                Some(v) => self@.contains_key(k@) && *v == self@[k@],
                None => !self@.contains_key(k@),
            },
    {
        proof {
            use_type_invariant(self);
        }
        match self.slots.get(k) {
            Some(j) => Some(&self.items[*j]),
            None => None,
        }
    }

    /// Stores `v` under `k`, replacing what was there.
    pub fn insert(&mut self, k: String, v: V)
        ensures
            final(self)@ == old(self)@.insert(k@, v),
    {
        proof {
            use_type_invariant(&*self);
        }
        let mut whole = StrTable::new();
        std::mem::swap(self, &mut whole);
        let StrTable { mut slots, mut items } = whole;
        match slots.get(k.as_str()) {
            Some(j) => {
                let j = *j;
                items.set(j, v);
            },
            None => {
                let j = items.len();
                items.push(v);
                slots.insert(k, j);
            },
        }
        *self = StrTable { slots, items };
        assert(self@ =~= old(self)@.insert(k@, v));
    }

    /// When `k` is a key, puts `filler` in its place and hands back the value
    /// that was there; otherwise leaves the table as it is.
    pub fn swap_out(&mut self, k: &str, filler: V) -> (r: Option<V>)
        ensures
            match r {
                Some(v) => {
                    &&& old(self)@.contains_key(k@)
                    &&& v == old(self)@[k@]
                    &&& final(self)@ == old(self)@.insert(k@, filler)
                },
                None => {
                    &&& !old(self)@.contains_key(k@)
                    &&& final(self)@ == old(self)@
                },
            },
    {
        proof {
            use_type_invariant(&*self);
        }
        if !self.slots.contains_key(k) {
            return None;
        }
        let mut whole = StrTable::new();
        std::mem::swap(self, &mut whole);
        let StrTable { slots, mut items } = whole;
        let j = *slots.get(k).unwrap();
        let mut out = filler;
        std::mem::swap(&mut items[j], &mut out);
        *self = StrTable { slots, items };
        assert(self@ =~= old(self)@.insert(k@, filler));
        Some(out)
    }
}

} // verus!
