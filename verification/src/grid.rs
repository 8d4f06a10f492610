//! A map from points of the plane to values that remembers in which order
//! its points came.

use std::collections::HashMap;
use vstd::prelude::*;

verus! {

broadcast use vstd::std_specs::hash::group_hash_axioms;

/// A point of the plane: two coordinates.
pub type Point = (isize, isize);

/// The number that stands for a point in the index: no two points share one.
pub open spec fn pack(point: Point) -> i128 {
    (point.0 * 0x1_0000_0000_0000_0000 + (point.1 + 0x8000_0000_0000_0000)) as i128
}

/// No two points have the same number.
pub proof fn lemma_pack_is_injective(a: Point, b: Point)
    ensures
        pack(a) == pack(b) <==> a == b,
{
}

/// A map from points to values. Its points are kept in the order in which
/// they were first inserted.
pub struct PointMap<V> {
    index: HashMap<i128, V>,
    points: Vec<Point>,
}

impl<V> View for PointMap<V> {
    type V = Map<Point, V>;

    closed spec fn view(&self) -> Map<Point, V> {
        Map::new(
            |point: Point| self.index@.contains_key(pack(point)),
            |point: Point| self.index@[pack(point)],
        )
    }
}

impl<V> PointMap<V> {
    /// The points of the map in the order in which they were first inserted.
    pub closed spec fn keys(&self) -> Seq<Point> {
        self.points@
    }

    /// Whether the list of points holds each point of the map once, and no
    /// other.
    pub closed spec fn wf(&self) -> bool {
        &&& self.points@.no_duplicates()
        &&& forall|point: Point| #[trigger]
            self.points@.contains(point) <==> self.index@.contains_key(pack(point))
        &&& forall|key: i128| #[trigger]
            self.index@.contains_key(key) ==> exists|point: Point|
                self.points@.contains(point) && pack(point) == key
        &&& self.index@.dom().finite()
    }

    /// The list of points holds each point of the map once, and no other.
    pub proof fn lemma_keys(&self)
        requires
            self.wf(),
        ensures
            self.keys().no_duplicates(),
            forall|point: Point| #[trigger] self.keys().contains(point) <==> self@.contains_key(point),
            self@.dom().finite(),
            self@.dom().len() == self.keys().len(),
    {
        self.keys().unique_seq_to_set();
        assert(self.keys().to_set() =~= self@.dom());
    }

    /// A map without points.
    pub fn new() -> (map: Self)
        ensures
            map.wf(),
            map@ == Map::<Point, V>::empty(),
            map.keys() == Seq::<Point>::empty(),
    {
        let map = PointMap { index: HashMap::new(), points: Vec::new() };
        map
    }

    /// The number that stands for a point in the index.
    fn key_of(point: Point) -> (key: i128)
        ensures
            key == pack(point),
    {
        point.0 as i128 * 0x1_0000_0000_0000_0000 + (point.1 as i128 + 0x8000_0000_0000_0000)
    }

    /// Gives `point` the value `value`, whether or not it had one.
    pub fn insert(&mut self, point: Point, value: V)
        requires
            old(self).wf(),
        ensures
            final(self).wf(),
            final(self)@ == old(self)@.insert(point, value),
            final(self).keys() == if old(self)@.contains_key(point) {
                old(self).keys()
            } else {
                old(self).keys().push(point)
            },
    {
        let key = Self::key_of(point);
        let known = self.index.contains_key(&key);
        self.index.insert(key, value);
        if !known {
            self.points.push(point);
        }
        proof {
            assert(self.points@.no_duplicates()) by {
                if !known {
                    assert(!old(self).points@.contains(point));
                    assert forall|i: int, j: int|
                        0 <= i < self.points@.len() && 0 <= j < self.points@.len() && i
                            != j implies self.points@[i] != self.points@[j] by {}
                }
            }
            assert forall|other: Point| #[trigger]
                self.points@.contains(other) <==> self.index@.contains_key(pack(other)) by {
                if old(self).points@.contains(other) {
                    let i = choose|i: int|
                        0 <= i < old(self).points@.len() && old(self).points@[i] == other;
                    assert(self.points@[i] == other);
                }
                if other == point && !known {
                    assert(self.points@[self.points@.len() - 1] == point);
                }
            }
            assert forall|other: i128| #[trigger] self.index@.contains_key(other) implies exists|
                witness: Point,
            |
                self.points@.contains(witness) && pack(witness) == other by {
                if other != key {
                    let witness = choose|witness: Point|
                        old(self).points@.contains(witness) && pack(witness) == other;
                }
            }
            assert(self@ =~= old(self)@.insert(point, value)) by {
                assert forall|other: Point| #[trigger]
                    self@.contains_key(other) <==> old(self)@.insert(point, value).contains_key(
                        other,
                    ) by {
                }
                assert forall|other: Point| #[trigger] self@.contains_key(other) implies self@[other]
                    == old(self)@.insert(point, value)[other] by {
                }
            }
        }
    }

    /// The value of `point`, if it has one.
    pub fn get(&self, point: Point) -> (value: Option<&V>)
        ensures
            match value {
                Some(found) => self@.contains_key(point) && *found == self@[point],
                None => !self@.contains_key(point),
            },
    {
        let key = Self::key_of(point);
        self.index.get(&key)
    }

    /// Whether `point` has a value.
    pub fn contains_key(&self, point: Point) -> (found: bool)
        ensures
            found == self@.contains_key(point),
    {
        let key = Self::key_of(point);
        self.index.contains_key(&key)
    }

    /// The number of points.
    pub fn len(&self) -> (count: usize)
        ensures
            count == self.keys().len(),
    {
        self.points.len()
    }

    /// The point at `position` in the order of insertion.
    pub fn key_at(&self, position: usize) -> (point: Point)
        requires
            position < self.keys().len(),
        ensures
            point == self.keys()[position as int],
    {
        self.points[position]
    }
}

/// A list without repetitions is no longer than a list that holds all
/// its values.
pub proof fn lemma_subset_len<T>(part: Seq<T>, whole: Seq<T>)
    requires
        part.no_duplicates(),
        forall|value: T| #[trigger] part.contains(value) ==> whole.contains(value),
    ensures
        part.len() <= whole.len(),
{
    part.unique_seq_to_set();
    whole.lemma_cardinality_of_set();
    vstd::set_lib::lemma_len_subset(part.to_set(), whole.to_set());
}

} // verus!
