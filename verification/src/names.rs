//! A map from names to values that remembers in which order its names came.

use crate::parsing::texts;
use vstd::prelude::*;

verus! {

/// A map from names to values. Its names are kept in the order in which
/// they were first inserted.
pub struct NameMap<V> {
    names: Vec<Vec<char>>,
    values: Vec<V>,
}

impl<V> View for NameMap<V> {
    type V = Map<Seq<char>, V>;

    closed spec fn view(&self) -> Map<Seq<char>, V> {
        Map::new(
            |name: Seq<char>| texts(self.names@).contains(name),
            |name: Seq<char>| self.values@[texts(self.names@).index_of(name)],
        )
    }
}

/// Whether two texts are the same.
pub fn same_text(a: &[char], b: &[char]) -> (same: bool)
    ensures
        same == (a@ == b@),
{
    if a.len() != b.len() {
        return false;
    }
    let mut index: usize = 0;
    while index < a.len()
        invariant
            index <= a@.len() == b@.len(),
            forall|i: int| 0 <= i < index ==> a@[i] == b@[i],
        decreases a@.len() - index,
    {
        if a[index] != b[index] {
            return false;
        }
        index = index + 1;
    }
    assert(a@ =~= b@);
    true
}

impl<V> NameMap<V> {
    /// The names of the map in the order in which they were first inserted.
    pub closed spec fn keys(&self) -> Seq<Seq<char>> {
        texts(self.names@)
    }

    /// Whether no name is listed twice and every name has a value.
    pub closed spec fn wf(&self) -> bool {
        &&& self.names@.len() == self.values@.len()
        &&& texts(self.names@).no_duplicates()
    }

    /// The list of names holds each name of the map once, and no other,
    /// and the map is finite.
    pub proof fn lemma_keys(&self)
        requires
            self.wf(),
        ensures
            self.keys().no_duplicates(),
            forall|name: Seq<char>| #[trigger] self.keys().contains(name) <==> self@.contains_key(name),
            self@.dom().finite(),
            self@.dom().len() == self.keys().len(),
    {
        self.keys().unique_seq_to_set();
    }

    /// A map without names.
    pub fn new() -> (map: Self)
        ensures
            map.wf(),
            map@ == Map::<Seq<char>, V>::empty(),
            map.keys() == Seq::<Seq<char>>::empty(),
    {
        let map = NameMap { names: Vec::new(), values: Vec::new() };
        map
    }

    /// Where a name is listed.
    fn find(&self, name: &[char]) -> (place: Option<usize>)
        requires
            self.wf(),
        ensures
            match place {
                Some(i) => i < self.names@.len() && self.names@[i as int]@ == name@ && texts(
                    self.names@,
                ).index_of(name@) == i && self@.contains_key(name@) && self@[name@]
                    == self.values@[i as int],
                None => !self@.contains_key(name@),
            },
    {
        let mut index: usize = 0;
        while index < self.names.len()
            invariant
                index <= self.names@.len(),
                self.wf(),
                forall|i: int| 0 <= i < index ==> texts(self.names@)[i] != name@,
            decreases self.names@.len() - index,
        {
            if same_text(self.names[index].as_slice(), name) {
                proof {
                    let listed = texts(self.names@);
                    assert(listed[index as int] == name@);
                }
                return Some(index);
            }
            index = index + 1;
        }
        None
    }

    /// The value of `name`, if it has one.
    pub fn get(&self, name: &[char]) -> (value: Option<&V>)
        requires
            self.wf(),
        ensures
            match value {
                Some(found) => self@.contains_key(name@) && *found == self@[name@],
                None => !self@.contains_key(name@),
            },
    {
        match self.find(name) {
            Some(place) => Some(&self.values[place]),
            None => None,
        }
    }

    /// Gives `name` the value `value`, whether or not it had one.
    pub fn insert(&mut self, name: Vec<char>, value: V)
        requires
            old(self).wf(),
        ensures
            final(self).wf(),
            final(self)@ == old(self)@.insert(name@, value),
            final(self).keys() == if old(self)@.contains_key(name@) {
                old(self).keys()
            } else {
                old(self).keys().push(name@)
            },
    {
        let ghost before = texts(self.names@);
        let ghost earlier = self@;
        match self.find(name.as_slice()) {
            Some(place) => {
                self.values.set(place, value);
            },
            None => {
                let place = self.names.len();
                self.names.push(name);
                self.values.push(value);
                proof {
                    let listed = texts(self.names@);
                    assert(listed =~= before.push(name@));
                    assert(self@ =~= earlier.insert(name@, value)) by {
                        assert forall|other: Seq<char>|
                            self@.contains_key(other) <==> earlier.insert(
                                name@,
                                value,
                            ).contains_key(other) by {
                            if before.contains(other) {
                                let i = choose|i: int| 0 <= i < before.len() && before[i] == other;
                                assert(listed[i] == other);
                            }
                            if other == name@ {
                                assert(listed[place as int] == other);
                            }
                        }
                    }
                }
            },
        }
    }

    /// The number of names.
    pub fn len(&self) -> (count: usize)
        requires
            self.wf(),
        ensures
            count == self.keys().len(),
    {
        self.names.len()
    }

    /// Takes every name out of the map.
    pub fn clear(&mut self)
        ensures
            final(self).wf(),
            final(self)@ == Map::<Seq<char>, V>::empty(),
            final(self).keys() == Seq::<Seq<char>>::empty(),
    {
        self.names.clear();
        self.values.clear();
    }
}

} // verus!
