//! A map from names to values that can be walked in a fixed order.
use vstd::hash_map::StringHashMap;
use vstd::prelude::*;

use crate::text::texts;

verus! {

/// A map keyed by strings. Entries sit in a vector, and a hash table gives the
/// position of each name.
pub struct NameMap<V> {
    positions: StringHashMap<usize>,
    names: Vec<String>,
    values: Vec<V>,
}

impl<V> View for NameMap<V> {
    type V = Map<Seq<char>, V>;

    closed spec fn view(&self) -> Map<Seq<char>, V> {
        self.positions@.map_values(|i: usize| self.values@[i as int])
    }
}

impl<V> NameMap<V> {
    #[verifier::type_invariant]
    spec fn well_formed(self) -> bool {
        &&& self.names@.len() == self.values@.len()
        &&& forall|i: int|
            0 <= i < self.names@.len() ==> self.positions@.contains_key((#[trigger] self.names@[i])@)
                && self.positions@[self.names@[i]@] == i
        &&& forall|k: Seq<char>| #[trigger]
            self.positions@.contains_key(k) ==> self.positions@[k] < self.names@.len()
                && self.names@[self.positions@[k] as int]@ == k
    }

    /// The names in the order in which the entries are walked.
    pub closed spec fn order(self) -> Seq<Seq<char>> {
        texts(self.names@)
    }

    /// An empty map.
    pub fn new() -> (r: Self)
        ensures
            r@ == Map::<Seq<char>, V>::empty(),
            r.order() == Seq::<Seq<char>>::empty(),
    {
        let r = NameMap { positions: StringHashMap::new(), names: Vec::new(), values: Vec::new() };
        assert(r@ =~= Map::<Seq<char>, V>::empty());
        assert(r.order() =~= Seq::<Seq<char>>::empty());
        r
    }

    /// The number of entries. The walking order names every entry once.
    pub fn len(&self) -> (r: usize)
        ensures
            r == self@.len(),
            r == self.order().len(),
            self@.dom().finite(),
            self.order().no_duplicates(),
            self.order().to_set() == self@.dom(),
            forall|i: int|
                0 <= i < self.order().len() ==> self@.contains_key(#[trigger] self.order()[i]),
    {
        proof {
            use_type_invariant(self);
            self.order_facts();
        }
        self.names.len()
    }

    proof fn order_facts(&self)
        requires
            self.well_formed(),
        ensures
            self.order().len() == self.names@.len(),
            self.order().len() == self@.len(),
            self@.dom().finite(),
            self.order().no_duplicates(),
            self.order().to_set() == self@.dom(),
            forall|i: int|
                0 <= i < self.order().len() ==> self@.contains_key(#[trigger] self.order()[i])
                    && self@[self.order()[i]] == self.values@[i],
    {
        let order = self.order();
        assert forall|i: int| 0 <= i < order.len() implies self@.contains_key(#[trigger] order[i])
            && self@[order[i]] == self.values@[i] by {
            assert(order[i] == self.names@[i]@);
        }
        assert forall|i: int, j: int| 0 <= i < order.len() && 0 <= j < order.len() && i != j implies order[i]
            != order[j] by {
            assert(order[i] == self.names@[i]@);
            assert(order[j] == self.names@[j]@);
        }
        assert forall|k: Seq<char>| self@.contains_key(k) implies order.to_set().contains(k) by {
            let i = self.positions@[k] as int;
            assert(order[i] == k);
        }
        assert(order.to_set() =~= self@.dom());
        order.unique_seq_to_set();
    }

    /// Whether there is no entry.
    pub fn is_empty(&self) -> (r: bool)
        ensures
            r == (self@.len() == 0),
            r == (self@ == Map::<Seq<char>, V>::empty()),
    {
        proof {
            use_type_invariant(self);
            self.order_facts();
            if self.names@.len() == 0 {
                assert(self@ =~= Map::<Seq<char>, V>::empty()) by {
                    assert forall|k: Seq<char>| !self@.contains_key(k) by {
                        if self@.contains_key(k) {
                            assert(self.order().to_set().contains(k));
                        }
                    }
                }
            }
        }
        self.names.len() == 0
    }

    /// Whether there is an entry under `name`.
    pub fn contains_key(&self, name: &str) -> (r: bool)
        ensures
            r == self@.contains_key(name@),
    {
        self.positions.contains_key(name)
    }

    /// The value under `name`.
    pub fn get(&self, name: &str) -> (r: Option<&V>)
        ensures
            match r {
                Some(v) => self@.contains_key(name@) && *v == self@[name@],
                None => !self@.contains_key(name@),
            },
    {
        proof {
            use_type_invariant(self);
        }
        match self.positions.get(name) {
            Some(i) => {
                let i: usize = *i;
                Some(&self.values[i])
            },
            None => None,
        }
    }

    /// The value under `name`, to be changed in place.
    pub fn get_mut(&mut self, name: &str) -> (r: Option<&mut V>)
        ensures
            match r {
                Some(v) => old(self)@.contains_key(name@) && *v == old(self)@[name@] && final(self)@
                    == old(self)@.insert(name@, *final(v)),
                None => !old(self)@.contains_key(name@) && final(self)@ == old(self)@,
            },
            final(self).order() == old(self).order(),
    {
        proof {
            use_type_invariant(&*self);
        }
        match self.positions.get(name) {
            Some(i) => {
                let i: usize = *i;
                Some(&mut self.values[i])
            },
            None => None,
        }
    }

    /// The name at position `i` of the walking order.
    pub fn name_at(&self, i: usize) -> (r: &String)
        requires
            i < self.order().len(),
        ensures
            r@ == self.order()[i as int],
            self@.contains_key(r@),
    {
        proof {
            use_type_invariant(self);
            self.order_facts();
        }
        &self.names[i]
    }

    /// The value at position `i` of the walking order.
    pub fn value_at(&self, i: usize) -> (r: &V)
        requires
            i < self.order().len(),
        ensures
            self@.contains_key(self.order()[i as int]),
            *r == self@[self.order()[i as int]],
    {
        proof {
            use_type_invariant(self);
            self.order_facts();
        }
        &self.values[i]
    }

    /// Puts `value` under `name`; a value that was there is replaced.
    pub fn insert(&mut self, name: String, value: V)
        ensures
            final(self)@ == old(self)@.insert(name@, value),
            final(self).order() == if old(self)@.contains_key(name@) {
                old(self).order()
            } else {
                old(self).order().push(name@)
            },
    {
        proof {
            use_type_invariant(&*self);
        }
        let ghost before = *self;
        if self.contains_key(name.as_str()) {
            match self.get_mut(name.as_str()) {
                Some(slot) => {
                    *slot = value;
                },
                None => {},
            }
            return ;
        }
        let mut taken: NameMap<V> = NameMap::new();
        core::mem::swap(self, &mut taken);
        let NameMap { mut positions, mut names, mut values } = taken;
        positions.insert(name.clone(), names.len());
        names.push(name);
        values.push(value);
        *self = NameMap { positions, names, values };
        assert(self@ =~= before@.insert(name@, value));
        assert(self.order() =~= before.order().push(name@));
    }

    /// Takes the entry under `name` out.
    pub fn remove(&mut self, name: &str) -> (r: Option<V>)
        ensures
            final(self)@ == old(self)@.remove(name@),
            match r {
                Some(v) => old(self)@.contains_key(name@) && v == old(self)@[name@],
                None => !old(self)@.contains_key(name@),
            },
    {
        proof {
            use_type_invariant(&*self);
        }
        let ghost before = *self;
        let i: usize = match self.positions.get(name) {
            Some(i) => *i,
            None => {
                assert(self@ =~= before@.remove(name@));
                return None;
            },
        };
        let mut taken: NameMap<V> = NameMap::new();
        core::mem::swap(self, &mut taken);
        let NameMap { mut positions, mut names, mut values } = taken;
        positions.remove(name);
        names.swap_remove(i);
        let value: V = values.swap_remove(i);
        if i < names.len() {
            positions.insert(names[i].clone(), i);
        }
        *self = NameMap { positions, names, values };
        assert(self@ =~= before@.remove(name@));
        Some(value)
    }
}

} // verus!
