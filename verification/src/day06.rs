//! Objects in orbit: each object but one circles one other object
//! directly, and thereby everything that that object circles.

use crate::names::same_text;
use crate::parsing::{chars_of, fields, fields_of, split, split_text, texts, trim, trimmed};
use vstd::prelude::*;

verus! {

/// The name of an object.
pub type Name = Seq<char>;

/// What a map of orbits says: the objects in the order in which they
/// were first named, and for each the object that it circles directly, if
/// it circles one.
pub struct OrbitMap {
    pub names: Seq<Name>,
    pub centres: Map<Name, Option<Name>>,
}

/// The orbit that a line such as `COM)B` states: the object that is
/// circled, and the object that circles it. There is none where the line
/// does not hold exactly one `)`.
pub open spec fn orbit_of(line: Seq<char>) -> Option<(Name, Name)> {
    let parts = split(line, seq![')']);
    if parts.len() == 2 {
        Some((trim(parts[0]), trim(parts[1])))
    } else {
        None
    }
}

/// The names with `name` behind them, unless it is among them.
pub open spec fn with_name(names: Seq<Name>, name: Name) -> Seq<Name> {
    if names.contains(name) {
        names
    } else {
        names.push(name)
    }
}

impl OrbitMap {
    /// The map with one more orbit: `outer` circles `inner` from now on,
    /// whatever it circled before.
    pub open spec fn with_orbit(self, inner: Name, outer: Name) -> OrbitMap {
        let centres = if self.centres.contains_key(inner) {
            self.centres
        } else {
            self.centres.insert(inner, None)
        };
        OrbitMap {
            names: with_name(with_name(self.names, inner), outer),
            centres: centres.insert(outer, Some(inner)),
        }
    }

    /// The number of orbits from `id` inwards: up to the object that
    /// circles nothing, or up to `target` where one is given. There is none
    /// where `id` is unknown or the orbits go in a circle.
    pub open spec fn count(self, id: Name, target: Option<Name>, fuel: nat) -> Option<nat>
        decreases fuel,
    {
        if !self.centres.contains_key(id) {
            None
        } else {
            match self.centres[id] {
                None => Some(0),
                Some(inner) => if target == Some(inner) {
                    Some(1)
                } else if fuel == 0 {
                    None
                } else {
                    match self.count(inner, target, (fuel - 1) as nat) {
                        Some(rest) => Some(rest + 1),
                        None => None,
                    }
                },
            }
        }
    }

    /// The objects that `id` circles, the nearest first. There is none
    /// where the orbits go in a circle.
    pub open spec fn centres_of(self, id: Name, fuel: nat) -> Option<Seq<Name>>
        decreases fuel,
    {
        if !self.centres.contains_key(id) {
            Some(Seq::empty())
        } else {
            match self.centres[id] {
                None => Some(Seq::empty()),
                Some(inner) => if fuel == 0 {
                    None
                } else {
                    match self.centres_of(inner, (fuel - 1) as nat) {
                        Some(rest) => Some(seq![inner] + rest),
                        None => None,
                    }
                },
            }
        }
    }

    /// The sum of the numbers of orbits of the first `upto` objects.
    pub open spec fn total(self, upto: int) -> Option<nat>
        decreases upto,
    {
        if upto <= 0 {
            Some(0)
        } else {
            match (
                self.total(upto - 1),
                self.count(self.names[upto - 1], None, self.names.len()),
            ) {
                (Some(before), Some(orbits)) => Some(before + orbits),
                _ => None,
            }
        }
    }
}

/// The map that the lines state, or none where a line states no orbit.
pub open spec fn known_orbits(lines: Seq<Seq<char>>) -> Option<OrbitMap>
    decreases lines.len(),
{
    if lines.len() == 0 {
        Some(OrbitMap { names: Seq::empty(), centres: Map::empty() })
    } else {
        match (known_orbits(lines.drop_last()), orbit_of(lines.last())) {
            (Some(before), Some((inner, outer))) => Some(before.with_orbit(inner, outer)),
            _ => None,
        }
    }
}

/// The map that a text states, one orbit to a line; empty lines are skipped.
pub open spec fn spec_parse(text: Seq<char>) -> Option<OrbitMap> {
    known_orbits(fields(text, seq!['\n']))
}

/// A map of orbits.
pub struct Orbits {
    names: Vec<Vec<char>>,
    centres: Vec<Option<usize>>,
}

impl View for Orbits {
    type V = OrbitMap;

    closed spec fn view(&self) -> OrbitMap {
        OrbitMap {
            names: texts(self.names@),
            centres: Map::new(
                |name: Name| texts(self.names@).contains(name),
                |name: Name|
                    match self.centres@[texts(self.names@).index_of(name)] {
                        Some(inner) => Some(self.names@[inner as int]@),
                        None => None,
                    },
            ),
        }
    }
}

impl Orbits {
    /// Whether no object is listed twice and every centre is listed.
    pub closed spec fn wf(&self) -> bool {
        &&& self.names@.len() == self.centres@.len()
        &&& texts(self.names@).no_duplicates()
        &&& forall|i: int|
            0 <= i < self.centres@.len() ==> (#[trigger] self.centres@[i] matches Some(inner)
                ==> inner < self.names@.len())
    }

    /// Where an object is listed.
    fn find(&self, name: &[char]) -> (place: Option<usize>)
        requires
            self.wf(),
        ensures
            match place {
                Some(i) => i < self.names@.len() && self.names@[i as int]@ == name@ && texts(
                    self.names@,
                ).index_of(name@) == i && self@.centres.contains_key(name@),
                None => !self@.centres.contains_key(name@),
            },
    {
        let mut index: usize = 0;
        while index < self.names.len()
            invariant
                index <= self.names@.len(),
                self.wf(),
                forall|i: int| 0 <= i < index ==> texts(self.names@)[i] != name@,
            decreases self.names@.len() - index,
        {
            if same_text(self.names[index].as_slice(), name) {
                proof {
                    let listed = texts(self.names@);
                    assert(listed[index as int] == name@);
                }
                return Some(index);
            }
            index = index + 1;
        }
        None
    }

    /// The object that `id` circles directly, as the view has it.
    proof fn lemma_centre(&self, place: int)
        requires
            self.wf(),
            0 <= place < self.names@.len(),
        ensures
            self@.centres.contains_key(self.names@[place]@),
            self@.centres[self.names@[place]@] == match self.centres@[place] {
                Some(inner) => Some(self.names@[inner as int]@),
                None => None::<Name>,
            },
            self.centres@[place] matches Some(inner) ==> self@.centres.contains_key(
                self.names@[inner as int]@,
            ),
    {
        let listed = texts(self.names@);
        assert(listed[place] == self.names@[place]@);
        match self.centres@[place] {
            Some(inner) => {
                assert(listed[inner as int] == self.names@[inner as int]@);
            },
            None => {},
        }
    }

    /// Lists an object, unless it is listed, and says where it stands.
    fn place_of(&mut self, name: Vec<char>) -> (place: usize)
        requires
            old(self).wf(),
        ensures
            final(self).wf(),
            place < final(self).names@.len(),
            final(self).names@[place as int]@ == name@,
            final(self)@.names == with_name(old(self)@.names, name@),
            final(self)@.centres == if old(self)@.centres.contains_key(name@) {
                old(self)@.centres
            } else {
                old(self)@.centres.insert(name@, None)
            },
            forall|i: int|
                0 <= i < old(self).names@.len() ==> final(self).names@[i] == old(self).names@[i]
                    && final(self).centres@[i] == old(self).centres@[i],
    {
        match self.find(name.as_slice()) {
            Some(place) => place,
            None => {
                let place = self.names.len();
                let ghost before = texts(self.names@);
                self.names.push(name);
                self.centres.push(None);
                proof {
                    let listed = texts(self.names@);
                    assert(listed =~= before.push(name@));
                    let earlier = old(self)@.centres;
                    assert(self@.centres =~= earlier.insert(name@, None)) by {
                        assert forall|other: Name|
                            self@.centres.contains_key(other) <==> earlier.insert(
                                name@,
                                None,
                            ).contains_key(other) by {
                            if before.contains(other) {
                                let i = choose|i: int| 0 <= i < before.len() && before[i] == other;
                                assert(listed[i] == other);
                            }
                            if other == name@ {
                                assert(listed[place as int] == other);
                            }
                        }
                    }
                }
                place
            },
        }
    }

    /// Notes that `outer` circles `inner`.
    fn note(&mut self, inner: Vec<char>, outer: Vec<char>)
        requires
            old(self).wf(),
        ensures
            final(self).wf(),
            final(self)@ == old(self)@.with_orbit(inner@, outer@),
    {
        let ghost inner_name = inner@;
        let ghost outer_name = outer@;
        let inner_place = self.place_of(inner);
        let ghost middle = self@;
        let outer_place = self.place_of(outer);
        let ghost late = self@;
        self.centres.set(outer_place, Some(inner_place));
        proof {
            let listed = texts(self.names@);
            assert(self@.centres =~= late.centres.insert(outer_name, Some(inner_name))) by {
                assert forall|other: Name| self@.centres.contains_key(other) implies self@.centres[other]
                    == late.centres.insert(outer_name, Some(inner_name))[other] by {
                    assert(listed[outer_place as int] == outer_name);
                }
            }
            assert(late.centres.insert(outer_name, Some(inner_name)) =~= middle.centres.insert(
                outer_name,
                Some(inner_name),
            ));
        }
    }
}

proof fn lemma_known_orbits_fail(lines: Seq<Seq<char>>, index: int)
    requires
        0 <= index < lines.len(),
        orbit_of(lines[index]) is None,
    ensures
        known_orbits(lines) is None,
    decreases lines.len(),
{
    if index < lines.len() - 1 {
        lemma_known_orbits_fail(lines.drop_last(), index);
    }
}

/// Reads a map of orbits, one orbit to a line.
pub fn parse(input: &str) -> (orbits: Option<Orbits>)
    ensures
        match orbits {
            Some(read) => read.wf() && spec_parse(input@) == Some(read@),
            None => spec_parse(input@) is None,
        },
{
    let text = chars_of(input);
    let mut feed: Vec<char> = Vec::new();
    feed.push('\n');
    let mut bracket: Vec<char> = Vec::new();
    bracket.push(')');
    let lines = fields_of(text.as_slice(), feed.as_slice());
    let mut known = Orbits { names: Vec::new(), centres: Vec::new() };
    assert(texts(known.names@) =~= Seq::<Name>::empty());
    assert(known@.centres =~= Map::<Name, Option<Name>>::empty());
    let mut index: usize = 0;
    while index < lines.len()
        invariant
            index <= lines@.len(),
            known.wf(),
            bracket@ == seq![')'],
            texts(lines@) == fields(input@, seq!['\n']),
            known_orbits(texts(lines@).take(index as int)) == Some(known@),
        decreases lines@.len() - index,
    {
        let mut parts = split_text(lines[index].as_slice(), bracket.as_slice());
        proof {
            let done = texts(lines@).take(index + 1);
            assert(done.drop_last() =~= texts(lines@).take(index as int));
        }
        if parts.len() != 2 {
            proof {
                lemma_known_orbits_fail(texts(lines@), index as int);
            }
            return None;
        }
        let inner_id = trimmed(parts[0].as_slice());
        let outer_id = trimmed(parts[1].as_slice());
        known.note(inner_id, outer_id);
        index = index + 1;
    }
    assert(texts(lines@).take(lines@.len() as int) =~= texts(lines@));
    Some(known)
}

/// A count with `more` added to it, where there is one.
pub open spec fn plus(more: nat, count: Option<nat>) -> Option<nat> {
    match count {
        Some(value) => Some(value + more),
        None => None,
    }
}

/// A count as a machine word, where there is one.
pub open spec fn as_word(count: Option<nat>) -> Option<usize> {
    match count {
        Some(value) => if value <= usize::MAX {
            Some(value as usize)
        } else {
            None
        },
        None => None,
    }
}

/// The number of objects, which bounds the length of every chain of
/// orbits that does not go in a circle.
pub open spec fn fuel_of(known: OrbitMap) -> nat {
    known.names.len()
}

/// The view of a name that may be missing.
pub open spec fn name_of(name: Option<&[char]>) -> Option<Name> {
    match name {
        Some(text) => Some(text@),
        None => None,
    }
}

/// The number of orbits from `id` inwards: up to the object that circles
/// nothing, or up to `to_target` where one is given.
pub fn orbit_count(id: &[char], orbits: &Orbits, to_target: Option<&[char]>) -> (count: Option<
    usize,
>)
    requires
        orbits.wf(),
    ensures
        count == as_word(orbits@.count(id@, name_of(to_target), fuel_of(orbits@))),
{
    let mut current = match orbits.find(id) {
        Some(place) => place,
        None => { return None; },
    };
    let total = orbits.names.len();
    let mut fuel: usize = total;
    let mut count: usize = 0;
    let ghost target = name_of(to_target);
    loop
        invariant
            orbits.wf(),
            current < orbits.names@.len(),
            total == orbits.names@.len() == fuel_of(orbits@),
            count + fuel == total,
            target == name_of(to_target),
            orbits@.count(id@, target, total as nat) == plus(
                count as nat,
                orbits@.count(orbits.names@[current as int]@, target, fuel as nat),
            ),
        decreases fuel,
    {
        proof {
            orbits.lemma_centre(current as int);
        }
        match orbits.centres[current] {
            None => {
                return Some(count);
            },
            Some(inner) => {
                let is_target = match to_target {
                    Some(wanted) => same_text(orbits.names[inner].as_slice(), wanted),
                    None => false,
                };
                if is_target {
                    return count.checked_add(1);
                }
                if fuel == 0 {
                    return None;
                }
                fuel = fuel - 1;
                count = count + 1;
                current = inner;
            },
        }
    }
}

/// The objects that `id` circles, the outermost centre first.
pub fn all_orbits(id: &[char], orbits: &Orbits) -> (centres: Option<Vec<Vec<char>>>)
    requires
        orbits.wf(),
    ensures
        match orbits@.centres_of(id@, fuel_of(orbits@)) {
            Some(nearest_first) => centres matches Some(list) && texts(list@)
                == nearest_first.reverse(),
            None => centres is None,
        },
{
    let mut nearest_first: Vec<Vec<char>> = Vec::new();
    let total = orbits.names.len();
    match orbits.find(id) {
        Some(place) => {
            let mut current = place;
            let mut fuel: usize = total;
            loop
                invariant
                    orbits.wf(),
                    current < orbits.names@.len(),
                    total == fuel_of(orbits@),
                    fuel <= total,
                    orbits@.centres_of(id@, total as nat) == match orbits@.centres_of(
                        orbits.names@[current as int]@,
                        fuel as nat,
                    ) {
                        Some(rest) => Some(texts(nearest_first@) + rest),
                        None => None::<Seq<Name>>,
                    },
                ensures
                    orbits@.centres_of(id@, total as nat) == Some(texts(nearest_first@)),
                decreases fuel,
            {
                proof {
                    orbits.lemma_centre(current as int);
                }
                match orbits.centres[current] {
                    None => {
                        assert(texts(nearest_first@) + Seq::<Name>::empty() =~= texts(
                            nearest_first@,
                        ));
                        break ;
                    },
                    Some(inner) => {
                        if fuel == 0 {
                            return None;
                        }
                        let ghost before = texts(nearest_first@);
                        let ghost rest = orbits@.centres_of(
                            orbits.names@[inner as int]@,
                            (fuel - 1) as nat,
                        );
                        nearest_first.push(orbits.names[inner].clone());
                        proof {
                            assert(texts(nearest_first@) =~= before.push(
                                orbits.names@[inner as int]@,
                            ));
                            if rest is Some {
                                assert(before + (seq![orbits.names@[inner as int]@] + rest->0)
                                    =~= texts(nearest_first@) + rest->0);
                            }
                        }
                        fuel = fuel - 1;
                        current = inner;
                    },
                }
            }
        },
        None => {},
    }
    let ghost chain = texts(nearest_first@);
    let mut centres: Vec<Vec<char>> = Vec::new();
    let mut index: usize = nearest_first.len();
    while index > 0
        invariant
            index <= nearest_first@.len(),
            chain == texts(nearest_first@),
            centres@.len() == nearest_first@.len() - index,
            forall|i: int|
                0 <= i < centres@.len() ==> (#[trigger] centres@[i])@ == chain[chain.len() - 1 - i],
        decreases index,
    {
        index = index - 1;
        centres.push(nearest_first[index].clone());
    }
    Some(centres)
}

/// The number of orbits in the map in `text`, the direct ones and the
/// indirect ones.
pub open spec fn spec_star_one(text: Seq<char>) -> Option<usize> {
    match spec_parse(text) {
        Some(known) => as_word(known.total(known.names.len() as int)),
        None => None,
    }
}

proof fn lemma_total_fails(known: OrbitMap, shorter: int, upto: int)
    requires
        0 <= shorter <= upto,
        as_word(known.total(shorter)) is None,
    ensures
        as_word(known.total(upto)) is None,
    decreases upto - shorter,
{
    if shorter < upto {
        lemma_total_fails(known, shorter, upto - 1);
    }
}

/// The number of orbits in the map in `input`, the direct ones and the
/// indirect ones.
pub fn star_one(input: &str) -> (total: Option<usize>)
    ensures
        total == spec_star_one(input@),
{
    let orbits = match parse(input) {
        Some(orbits) => orbits,
        None => { return None; },
    };
    let count = orbits.names.len();
    let mut total: usize = 0;
    let mut index: usize = 0;
    while index < count
        invariant
            index <= count == orbits@.names.len(),
            count == orbits.names@.len(),
            orbits.wf(),
            spec_parse(input@) == Some(orbits@),
            orbits@.total(index as int) == Some(total as nat),
        decreases count - index,
    {
        let orbiting = orbit_count(orbits.names[index].as_slice(), &orbits, None);
        let sum = match orbiting {
            Some(value) => total.checked_add(value),
            None => None,
        };
        match sum {
            Some(value) => {
                total = value;
            },
            None => {
                proof {
                    lemma_total_fails(orbits@, index + 1, count as int);
                }
                return None;
            },
        }
        index = index + 1;
    }
    Some(total)
}

/// How many names two lists share from their starts on.
pub open spec fn common_prefix_len(a: Seq<Name>, b: Seq<Name>) -> nat
    decreases a.len(),
{
    if a.len() == 0 || b.len() == 0 || a[0] != b[0] {
        0
    } else {
        1 + common_prefix_len(a.drop_first(), b.drop_first())
    }
}

/// The name of the one who travels.
pub open spec fn you() -> Name {
    seq!['Y', 'O', 'U']
}

/// The name of the one who is sought.
pub open spec fn santa() -> Name {
    seq!['S', 'A', 'N']
}

/// The number of transfers between orbits that bring `YOU` to the object
/// that `SAN` circles: the orbits between either and the nearest object
/// that both circle, without the orbits of the two themselves. There is
/// none where the orbits go in a circle or the two circle no common object.
pub open spec fn transfers(known: OrbitMap) -> Option<usize> {
    let fuel = fuel_of(known);
    match (known.centres_of(you(), fuel), known.centres_of(santa(), fuel)) {
        (Some(mine), Some(theirs)) => {
            let shared = common_prefix_len(mine.reverse(), theirs.reverse());
            if shared == 0 {
                None
            } else {
                let common = mine.reverse()[shared - 1];
                match (
                    as_word(known.count(you(), Some(common), fuel)),
                    as_word(known.count(santa(), Some(common), fuel)),
                ) {
                    (Some(a), Some(b)) => if a >= 1 && b >= 1 && (a - 1) + (b - 1) <= usize::MAX {
                        Some(((a - 1) + (b - 1)) as usize)
                    } else {
                        None
                    },
                    _ => None,
                }
            }
        },
        _ => None,
    }
}

/// The number of transfers for the map in `text`.
pub open spec fn spec_star_two(text: Seq<char>) -> Option<usize> {
    match spec_parse(text) {
        Some(known) => transfers(known),
        None => None,
    }
}

/// The number of transfers between orbits that bring `YOU` to the object
/// that `SAN` circles.
pub fn star_two(input: &str) -> (count: Option<usize>)
    ensures
        count == spec_star_two(input@),
{
    let orbits = match parse(input) {
        Some(orbits) => orbits,
        None => { return None; },
    };
    let mut traveller: Vec<char> = Vec::new();
    traveller.push('Y');
    traveller.push('O');
    traveller.push('U');
    assert(traveller@ =~= you());
    let mut sought: Vec<char> = Vec::new();
    sought.push('S');
    sought.push('A');
    sought.push('N');
    assert(sought@ =~= santa());
    let you_orbits = match all_orbits(traveller.as_slice(), &orbits) {
        Some(list) => list,
        None => { return None; },
    };
    let san_orbits = match all_orbits(sought.as_slice(), &orbits) {
        Some(list) => list,
        None => { return None; },
    };
    let ghost mine = texts(you_orbits@);
    let ghost theirs = texts(san_orbits@);
    let mut shared: usize = 0;
    assert(mine.skip(0) =~= mine);
    assert(theirs.skip(0) =~= theirs);
    while shared < you_orbits.len() && shared < san_orbits.len() && same_text(
        you_orbits[shared].as_slice(),
        san_orbits[shared].as_slice(),
    )
        invariant
            shared <= you_orbits@.len(),
            shared <= san_orbits@.len(),
            mine == texts(you_orbits@),
            theirs == texts(san_orbits@),
            common_prefix_len(mine, theirs) == shared + common_prefix_len(
                mine.skip(shared as int),
                theirs.skip(shared as int),
            ),
        decreases you_orbits@.len() - shared,
    {
        proof {
            assert(mine.skip(shared as int).drop_first() =~= mine.skip(shared + 1));
            assert(theirs.skip(shared as int).drop_first() =~= theirs.skip(shared + 1));
        }
        shared = shared + 1;
    }
    if shared == 0 {
        return None;
    }
    let last_common = &you_orbits[shared - 1];
    let from_you = orbit_count(traveller.as_slice(), &orbits, Some(last_common.as_slice()));
    let from_san = orbit_count(sought.as_slice(), &orbits, Some(last_common.as_slice()));
    match (from_you, from_san) {
        (Some(a), Some(b)) => if a >= 1 && b >= 1 {
            (a - 1).checked_add(b - 1)
        } else {
            None
        },
        _ => None,
    }
}

} // verus!
