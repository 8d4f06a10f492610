//! Moons that pull each other: positions and velocities in three
//! dimensions, advanced in time steps.

use crate::parsing::{
    chars_of,
    copy_range,
    fields,
    fields_of,
    parse_isize,
    spec_parse_isize,
    split,
    split_text,
    texts,
    trim,
    trimmed,
};
use vstd::prelude::*;
use vstd::std_specs::ops::AddSpecImpl;

verus! {

/// A point or a velocity in space.
#[derive(Debug, Copy, Clone, PartialEq, Eq, Hash, Structural)]
pub struct Vector {
    pub x: isize,
    pub y: isize,
    pub z: isize,
}

impl Vector {
    /// The vector with these coordinates.
    pub fn new(x: isize, y: isize, z: isize) -> (vector: Self)
        ensures
            vector == (Vector { x, y, z }),
    {
        Vector { x, y, z }
    }

    /// The coordinate along axis 0, 1 or 2.
    pub open spec fn spec_axis(&self, axis: int) -> isize {
        if axis == 0 {
            self.x
        } else if axis == 1 {
            self.y
        } else {
            self.z
        }
    }

    /// The coordinate along axis 0, 1 or 2.
    pub fn axis(&self, axis: usize) -> (coordinate: isize)
        requires
            axis < 3,
        ensures
            coordinate == self.spec_axis(axis as int),
    {
        if axis == 0 {
            self.x
        } else if axis == 1 {
            self.y
        } else {
            self.z
        }
    }
}

impl core::ops::Add<Vector> for Vector {
    type Output = Vector;

    fn add(self, other: Vector) -> (sum: Vector) {
        Vector::new(self.x + other.x, self.y + other.y, self.z + other.z)
    }
}

impl AddSpecImpl<Vector> for Vector {
    open spec fn obeys_add_spec() -> bool {
        true
    }

    open spec fn add_req(self, other: Vector) -> bool {
        &&& isize::MIN <= self.x + other.x <= isize::MAX
        &&& isize::MIN <= self.y + other.y <= isize::MAX
        &&& isize::MIN <= self.z + other.z <= isize::MAX
    }

    open spec fn add_spec(self, other: Vector) -> Vector {
        Vector {
            x: (self.x + other.x) as isize,
            y: (self.y + other.y) as isize,
            z: (self.z + other.z) as isize,
        }
    }
}

impl Default for Vector {
    /// The origin.
    fn default() -> (vector: Self)
        ensures
            vector == (Vector { x: 0, y: 0, z: 0 }),
    {
        Vector { x: 0, y: 0, z: 0 }
    }
}

/// The text without the characters `c` at its start.
pub open spec fn strip_start(text: Seq<char>, c: char) -> Seq<char>
    decreases text.len(),
{
    if text.len() > 0 && text[0] == c {
        strip_start(text.drop_first(), c)
    } else {
        text
    }
}

/// The text without the characters `c` at its end.
pub open spec fn strip_end(text: Seq<char>, c: char) -> Seq<char>
    decreases text.len(),
{
    if text.len() > 0 && text.last() == c {
        strip_end(text.drop_last(), c)
    } else {
        text
    }
}

/// What one part between commas says: nothing where it has at most one
/// character after trimming; else the name before its first `=` and the
/// integer between that and the next `=`. There is none where it has no
/// `=`, or no integer there.
pub open spec fn assignment(part: Seq<char>) -> Option<Option<(Seq<char>, isize)>> {
    let clean = trim(part);
    if clean.len() <= 1 {
        Some(None)
    } else {
        let pieces = split(clean, seq!['=']);
        if pieces.len() < 2 {
            None
        } else {
            match spec_parse_isize(pieces[1]) {
                Some(value) => Some(Some((pieces[0], value))),
                None => None,
            }
        }
    }
}

/// The value that the parts give to `name`: that of the last part that
/// names it, or none where no part does.
pub open spec fn assigned(parts: Seq<Seq<char>>, name: Seq<char>) -> Option<isize>
    decreases parts.len(),
{
    if parts.len() == 0 {
        None
    } else {
        match assignment(parts.last()) {
            Some(Some((key, value))) => if key == name {
                Some(value)
            } else {
                assigned(parts.drop_last(), name)
            },
            _ => assigned(parts.drop_last(), name),
        }
    }
}

/// Whether every part says nothing or assigns an integer to a name.
pub open spec fn all_assign(parts: Seq<Seq<char>>) -> bool {
    forall|i: int| 0 <= i < parts.len() ==> (#[trigger] assignment(parts[i])) is Some
}

/// The parts of a vector's text: the text trimmed, without `<` at its
/// start and `>` at its end, cut at commas.
pub open spec fn vector_parts(text: Seq<char>) -> Seq<Seq<char>> {
    split(strip_end(strip_start(trim(text), '<'), '>'), seq![','])
}

/// The vector that a text such as `<x=-1, y=0, z=2>` stands for. There is
/// none where a part is malformed or one of `x`, `y`, `z` is missing.
pub open spec fn spec_vector(text: Seq<char>) -> Option<Vector> {
    let parts = vector_parts(text);
    match (assigned(parts, seq!['x']), assigned(parts, seq!['y']), assigned(parts, seq!['z'])) {
        (Some(x), Some(y), Some(z)) => if all_assign(parts) {
            Some(Vector { x, y, z })
        } else {
            None
        },
        _ => None,
    }
}

proof fn lemma_strip_start(text: Seq<char>, c: char, first: int)
    requires
        0 <= first <= text.len(),
        forall|i: int| 0 <= i < first ==> text[i] == c,
        first < text.len() ==> text[first] != c,
    ensures
        strip_start(text, c) == text.subrange(first, text.len() as int),
    decreases first,
{
    if first > 0 {
        let rest = text.drop_first();
        lemma_strip_start(rest, c, first - 1);
        assert(rest.subrange(first - 1, rest.len() as int) =~= text.subrange(
            first,
            text.len() as int,
        ));
    }
}

proof fn lemma_strip_end(text: Seq<char>, c: char, last: int)
    requires
        0 <= last <= text.len(),
        forall|i: int| last <= i < text.len() ==> text[i] == c,
        last > 0 ==> text[last - 1] != c,
    ensures
        strip_end(text, c) == text.subrange(0, last),
    decreases text.len() - last,
{
    if last < text.len() {
        let rest = text.drop_last();
        lemma_strip_end(rest, c, last);
    }
}

/// The text without `open` at its start and `close` at its end.
fn strip_brackets(text: &[char], open: char, close: char) -> (inner: Vec<char>)
    ensures
        inner@ == strip_end(strip_start(text@, open), close),
{
    let mut first: usize = 0;
    while first < text.len() && text[first] == open
        invariant
            first <= text@.len(),
            forall|i: int| 0 <= i < first ==> text@[i] == open,
        decreases text@.len() - first,
    {
        first = first + 1;
    }
    let mut last: usize = text.len();
    while last > first && text[last - 1] == close
        invariant
            first <= last <= text@.len(),
            forall|i: int| last <= i < text@.len() ==> text@[i] == close,
        decreases last,
    {
        last = last - 1;
    }
    proof {
        lemma_strip_start(text@, open, first as int);
        let tail = text@.subrange(first as int, text@.len() as int);
        lemma_strip_end(tail, close, last - first);
    }
    copy_range(text, first, last)
}

/// Whether a text is the one character `c`.
fn is_name(text: &Vec<char>, c: char) -> (same: bool)
    ensures
        same == (text@ == seq![c]),
{
    if text.len() == 1 && text[0] == c {
        assert(text@ =~= seq![c]);
        true
    } else {
        false
    }
}

impl Vector {
    /// Reads a vector from a text such as `<x=-1, y=0, z=2>`.
    pub fn from_chars(input: &[char]) -> (vector: Option<Self>)
        ensures
            vector == spec_vector(input@),
    {
        let clean = trimmed(input);
        let inner = strip_brackets(clean.as_slice(), '<', '>');
        let mut comma: Vec<char> = Vec::new();
        comma.push(',');
        let mut equals: Vec<char> = Vec::new();
        equals.push('=');
        let parts = split_text(inner.as_slice(), comma.as_slice());
        let ghost all = vector_parts(input@);
        let mut x: Option<isize> = None;
        let mut y: Option<isize> = None;
        let mut z: Option<isize> = None;
        let mut index: usize = 0;
        while index < parts.len()
            invariant
                index <= parts@.len(),
                all == texts(parts@),
                all == vector_parts(input@),
                equals@ == seq!['='],
                x == assigned(all.take(index as int), seq!['x']),
                y == assigned(all.take(index as int), seq!['y']),
                z == assigned(all.take(index as int), seq!['z']),
                all_assign(all.take(index as int)),
            decreases parts@.len() - index,
        {
            let ghost done = all.take(index + 1);
            proof {
                assert(done.drop_last() =~= all.take(index as int));
                assert(seq!['x'] != seq!['y']) by {
                    assert(seq!['x'][0] != seq!['y'][0]);
                }
                assert(seq!['x'] != seq!['z']) by {
                    assert(seq!['x'][0] != seq!['z'][0]);
                }
                assert(seq!['y'] != seq!['z']) by {
                    assert(seq!['y'][0] != seq!['z'][0]);
                }
            }
            let part = trimmed(parts[index].as_slice());
            if part.len() > 1 {
                let pieces = split_text(part.as_slice(), equals.as_slice());
                if pieces.len() < 2 {
                    assert(assignment(all[index as int]) is None);
                    return None;
                }
                match parse_isize(pieces[1].as_slice()) {
                    Some(value) => {
                        if is_name(&pieces[0], 'x') {
                            x = Some(value);
                        } else if is_name(&pieces[0], 'y') {
                            y = Some(value);
                        } else if is_name(&pieces[0], 'z') {
                            z = Some(value);
                        }
                    },
                    None => {
                        return None;
                    },
                }
            }
            index = index + 1;
        }
        assert(all.take(parts@.len() as int) =~= all);
        match (x, y, z) {
            (Some(x), Some(y), Some(z)) => Some(Vector { x, y, z }),
            _ => None,
        }
    }
}

/// The pull of one coordinate on another: one step towards it.
pub open spec fn pull(from: isize, to: isize) -> int {
    if to > from {
        1
    } else if to < from {
        -1
    } else {
        0
    }
}

/// The sum of the pulls of the first `upto` positions on position `index`
/// along one axis.
pub open spec fn gravity(positions: Seq<Vector>, index: int, axis: int, upto: int) -> int
    decreases upto,
{
    if upto <= 0 {
        0
    } else {
        gravity(positions, index, axis, upto - 1) + pull(
            positions[index].spec_axis(axis),
            positions[upto - 1].spec_axis(axis),
        )
    }
}

/// The velocity of moon `index` along one axis after a time step: its
/// velocity before, changed by the pull of every moon.
pub open spec fn next_velocity(
    positions: Seq<Vector>,
    velocities: Seq<Vector>,
    index: int,
    axis: int,
) -> int {
    velocities[index].spec_axis(axis) + gravity(positions, index, axis, positions.len() as int)
}

/// The position of moon `index` along one axis after a time step: its
/// position before, moved by its new velocity.
pub open spec fn next_position(
    positions: Seq<Vector>,
    velocities: Seq<Vector>,
    index: int,
    axis: int,
) -> int {
    positions[index].spec_axis(axis) + next_velocity(positions, velocities, index, axis)
}

/// Whether a number fits a machine word.
pub open spec fn fits(value: int) -> bool {
    isize::MIN <= value <= isize::MAX
}

/// The number of moons that have both a position and a velocity.
pub open spec fn moon_count(positions: Seq<Vector>, velocities: Seq<Vector>) -> int {
    if positions.len() <= velocities.len() {
        positions.len() as int
    } else {
        velocities.len() as int
    }
}

/// Whether the new velocity and position of each of the first `upto`
/// moons fit machine words.
pub open spec fn step_fits(positions: Seq<Vector>, velocities: Seq<Vector>, upto: int) -> bool {
    forall|index: int, axis: int|
        0 <= index < upto && 0 <= axis < 3 ==> fits(
            #[trigger] next_velocity(positions, velocities, index, axis),
        ) && fits(next_position(positions, velocities, index, axis))
}

/// The positions after a time step.
pub open spec fn next_positions(positions: Seq<Vector>, velocities: Seq<Vector>) -> Seq<Vector> {
    Seq::new(
        moon_count(positions, velocities) as nat,
        |index: int|
            Vector {
                x: next_position(positions, velocities, index, 0) as isize,
                y: next_position(positions, velocities, index, 1) as isize,
                z: next_position(positions, velocities, index, 2) as isize,
            },
    )
}

/// The velocities after a time step.
pub open spec fn next_velocities(positions: Seq<Vector>, velocities: Seq<Vector>) -> Seq<Vector> {
    Seq::new(
        moon_count(positions, velocities) as nat,
        |index: int|
            Vector {
                x: next_velocity(positions, velocities, index, 0) as isize,
                y: next_velocity(positions, velocities, index, 1) as isize,
                z: next_velocity(positions, velocities, index, 2) as isize,
            },
    )
}

proof fn lemma_gravity_bound(positions: Seq<Vector>, index: int, axis: int, upto: int)
    requires
        0 <= upto,
    ensures
        -upto <= gravity(positions, index, axis, upto) <= upto,
    decreases upto,
{
    if upto > 0 {
        lemma_gravity_bound(positions, index, axis, upto - 1);
    }
}

/// One step towards `to`, seen from `from`.
fn pull_of(from: isize, to: isize) -> (step: i128)
    ensures
        step == pull(from, to),
{
    if to > from {
        1
    } else if to < from {
        -1
    } else {
        0
    }
}

/// The sum of two numbers where it fits a machine word.
fn checked_sum(a: isize, b: i128) -> (sum: Option<isize>)
    requires
        -0x1_0000_0000_0000_0000_0000 <= b <= 0x1_0000_0000_0000_0000_0000,
    ensures
        sum == if fits(a + b) {
            Some((a + b) as isize)
        } else {
            None
        },
{
    let exact: i128 = a as i128 + b;
    if exact < isize::MIN as i128 || exact > isize::MAX as i128 {
        None
    } else {
        Some(exact as isize)
    }
}

/// One time step: every moon's velocity changes by one towards every
/// other moon along each axis, then every moon moves by its new velocity.
/// The result holds the new positions and the new velocities. There is
/// none where a new coordinate does not fit a machine word.
pub fn timestemp(positions: &[Vector], velocities: &[Vector]) -> (update: Option<
    (Vec<Vector>, Vec<Vector>),
>)
    ensures
        match update {
            Some((new_positions, new_velocities)) => {
                &&& step_fits(positions@, velocities@, moon_count(positions@, velocities@))
                &&& new_positions@ == next_positions(positions@, velocities@)
                &&& new_velocities@ == next_velocities(positions@, velocities@)
            },
            None => !step_fits(positions@, velocities@, moon_count(positions@, velocities@)),
        },
{
    let total = positions.len();
    let count = if total <= velocities.len() {
        total
    } else {
        velocities.len()
    };
    let mut new_positions: Vec<Vector> = Vec::new();
    let mut new_velocities: Vec<Vector> = Vec::new();
    let mut idx: usize = 0;
    while idx < count
        invariant
            idx <= count == moon_count(positions@, velocities@),
            total == positions@.len(),
            new_positions@.len() == idx,
            new_velocities@.len() == idx,
            step_fits(positions@, velocities@, idx as int),
            forall|i: int|
                0 <= i < idx ==> new_positions@[i] == next_positions(positions@, velocities@)[i],
            forall|i: int|
                0 <= i < idx ==> new_velocities@[i] == next_velocities(positions@, velocities@)[i],
        decreases count - idx,
    {
        let position = positions[idx];
        let velocity = velocities[idx];
        let mut acc_x: i128 = 0;
        let mut acc_y: i128 = 0;
        let mut acc_z: i128 = 0;
        let mut other_idx: usize = 0;
        while other_idx < total
            invariant
                other_idx <= total == positions@.len(),
                idx < total,
                position == positions@[idx as int],
                acc_x == gravity(positions@, idx as int, 0, other_idx as int),
                acc_y == gravity(positions@, idx as int, 1, other_idx as int),
                acc_z == gravity(positions@, idx as int, 2, other_idx as int),
            decreases total - other_idx,
        {
            proof {
                lemma_gravity_bound(positions@, idx as int, 0, other_idx as int);
                lemma_gravity_bound(positions@, idx as int, 1, other_idx as int);
                lemma_gravity_bound(positions@, idx as int, 2, other_idx as int);
            }
            let other_position = positions[other_idx];
            acc_x = acc_x + pull_of(position.x, other_position.x);
            acc_y = acc_y + pull_of(position.y, other_position.y);
            acc_z = acc_z + pull_of(position.z, other_position.z);
            other_idx = other_idx + 1;
        }
        proof {
            lemma_gravity_bound(positions@, idx as int, 0, total as int);
            lemma_gravity_bound(positions@, idx as int, 1, total as int);
            lemma_gravity_bound(positions@, idx as int, 2, total as int);
        }
        let moved = match (
            checked_sum(velocity.x, acc_x),
            checked_sum(velocity.y, acc_y),
            checked_sum(velocity.z, acc_z),
        ) {
            (Some(vx), Some(vy), Some(vz)) => match (
                checked_sum(position.x, vx as i128),
                checked_sum(position.y, vy as i128),
                checked_sum(position.z, vz as i128),
            ) {
                (Some(px), Some(py), Some(pz)) => Some(
                    (Vector::new(px, py, pz), Vector::new(vx, vy, vz)),
                ),
                _ => None,
            },
            _ => None,
        };
        match moved {
            Some((new_position, new_velocity)) => {
                new_positions.push(new_position);
                new_velocities.push(new_velocity);
            },
            None => {
                assert(!(fits(next_velocity(positions@, velocities@, idx as int, 0)) && fits(
                    next_position(positions@, velocities@, idx as int, 0),
                )) || !(fits(next_velocity(positions@, velocities@, idx as int, 1)) && fits(
                    next_position(positions@, velocities@, idx as int, 1),
                )) || !(fits(next_velocity(positions@, velocities@, idx as int, 2)) && fits(
                    next_position(positions@, velocities@, idx as int, 2),
                )));
                return None;
            },
        }
        idx = idx + 1;
    }
    Some((new_positions, new_velocities))
}

/// The distance of a number from zero.
pub open spec fn magnitude(value: int) -> int {
    if value < 0 {
        -value
    } else {
        value
    }
}

/// The sum of the magnitudes of a vector's coordinates.
pub open spec fn magnitude_sum(vector: Vector) -> int {
    magnitude(vector.x as int) + magnitude(vector.y as int) + magnitude(vector.z as int)
}

/// The energy of the first `upto` moons: for each moon its potential
/// energy, which is the magnitude sum of its position, times its kinetic
/// energy, which is that of its velocity.
pub open spec fn total_energy(positions: Seq<Vector>, velocities: Seq<Vector>, upto: int) -> int
    decreases upto,
{
    if upto <= 0 {
        0
    } else {
        total_energy(positions, velocities, upto - 1) + magnitude_sum(velocities[upto - 1])
            * magnitude_sum(positions[upto - 1])
    }
}

/// Whether the potential and the kinetic energy of each of the first
/// `upto` moons fit machine words, and the energy of those moons too.
pub open spec fn energy_fits(positions: Seq<Vector>, velocities: Seq<Vector>, upto: int) -> bool {
    &&& fits(total_energy(positions, velocities, upto))
    &&& forall|index: int|
        0 <= index < upto ==> fits(#[trigger] magnitude_sum(positions[index])) && fits(
            magnitude_sum(velocities[index]),
        )
}

/// The energy of the moons, where it can be computed in machine words.
pub open spec fn spec_energy(positions: Seq<Vector>, velocities: Seq<Vector>) -> Option<isize> {
    let count = moon_count(positions, velocities);
    if energy_fits(positions, velocities, count) {
        Some(total_energy(positions, velocities, count) as isize)
    } else {
        None
    }
}

proof fn lemma_total_energy_grows(
    positions: Seq<Vector>,
    velocities: Seq<Vector>,
    shorter: int,
    upto: int,
)
    requires
        0 <= shorter <= upto,
    ensures
        0 <= total_energy(positions, velocities, shorter) <= total_energy(
            positions,
            velocities,
            upto,
        ),
    decreases upto,
{
    if upto > 0 {
        let kinetic = magnitude_sum(velocities[upto - 1]);
        let potential = magnitude_sum(positions[upto - 1]);
        assert(kinetic * potential >= 0) by (nonlinear_arith)
            requires
                kinetic >= 0,
                potential >= 0,
        ;
        if shorter < upto {
            lemma_total_energy_grows(positions, velocities, shorter, upto - 1);
        } else {
            lemma_total_energy_grows(positions, velocities, upto - 1, upto - 1);
        }
    }
}

/// The sum of the magnitudes of a vector's coordinates.
fn magnitude_sum_of(vector: Vector) -> (sum: i128)
    ensures
        sum == magnitude_sum(vector),
        0 <= sum <= 3 * 0x8000_0000_0000_0000,
{
    let x: i128 = if vector.x < 0 {
        -(vector.x as i128)
    } else {
        vector.x as i128
    };
    let y: i128 = if vector.y < 0 {
        -(vector.y as i128)
    } else {
        vector.y as i128
    };
    let z: i128 = if vector.z < 0 {
        -(vector.z as i128)
    } else {
        vector.z as i128
    };
    x + y + z
}

/// The energy of the moons: the sum over the moons of potential times
/// kinetic energy. There is none where it does not fit a machine word.
pub fn energy(positions: &[Vector], velocities: &[Vector]) -> (total: Option<isize>)
    ensures
        total == spec_energy(positions@, velocities@),
{
    let count = if positions.len() <= velocities.len() {
        positions.len()
    } else {
        velocities.len()
    };
    let mut total: isize = 0;
    let mut idx: usize = 0;
    while idx < count
        invariant
            idx <= count == moon_count(positions@, velocities@),
            total == total_energy(positions@, velocities@, idx as int),
            energy_fits(positions@, velocities@, idx as int),
        decreases count - idx,
    {
        let potential = magnitude_sum_of(positions[idx]);
        let kinetic = magnitude_sum_of(velocities[idx]);
        proof {
            lemma_total_energy_grows(positions@, velocities@, idx + 1, count as int);
        }
        if potential > isize::MAX as i128 || kinetic > isize::MAX as i128 {
            assert(!fits(magnitude_sum(positions@[idx as int])) || !fits(
                magnitude_sum(velocities@[idx as int]),
            ));
            return None;
        }
        assert(0 <= kinetic * potential <= 0x8000_0000_0000_0000 * 0x8000_0000_0000_0000)
            by (nonlinear_arith)
            requires
                0 <= kinetic <= 0x8000_0000_0000_0000,
                0 <= potential <= 0x8000_0000_0000_0000,
        ;
        let sum: i128 = total as i128 + kinetic * potential;
        if sum > isize::MAX as i128 {
            return None;
        }
        total = sum as isize;
        idx = idx + 1;
    }
    Some(total)
}

/// The vectors that the lines stand for, or none where a line stands for none.
pub open spec fn vectors(lines: Seq<Seq<char>>) -> Option<Seq<Vector>>
    decreases lines.len(),
{
    if lines.len() == 0 {
        Some(Seq::empty())
    } else {
        match (vectors(lines.drop_last()), spec_vector(lines.last())) {
            (Some(before), Some(vector)) => Some(before.push(vector)),
            _ => None,
        }
    }
}

proof fn lemma_vectors_fail(lines: Seq<Seq<char>>, index: int)
    requires
        0 <= index < lines.len(),
        spec_vector(lines[index]) is None,
    ensures
        vectors(lines) is None,
    decreases lines.len(),
{
    if index < lines.len() - 1 {
        lemma_vectors_fail(lines.drop_last(), index);
    }
}

/// The moons in a text: one position to a line, empty lines skipped.
pub open spec fn moons(text: Seq<char>) -> Option<Seq<Vector>> {
    vectors(fields(text, seq!['\n']))
}

/// Reads the positions of the moons, one to a line.
fn read_moons(input: &str) -> (positions: Option<Vec<Vector>>)
    ensures
        match positions {
            Some(list) => moons(input@) == Some(list@),
            None => moons(input@) is None,
        },
{
    let text = chars_of(input);
    let mut separator: Vec<char> = Vec::new();
    separator.push('\n');
    let lines = fields_of(text.as_slice(), separator.as_slice());
    let mut positions: Vec<Vector> = Vec::new();
    let mut index: usize = 0;
    while index < lines.len()
        invariant
            index <= lines@.len(),
            texts(lines@) == fields(input@, seq!['\n']),
            vectors(texts(lines@).take(index as int)) == Some(positions@),
        decreases lines@.len() - index,
    {
        match Vector::from_chars(lines[index].as_slice()) {
            Some(vector) => {
                proof {
                    let done = texts(lines@).take(index + 1);
                    assert(done.drop_last() =~= texts(lines@).take(index as int));
                }
                positions.push(vector);
            },
            None => {
                proof {
                    lemma_vectors_fail(texts(lines@), index as int);
                }
                return None;
            },
        }
        index = index + 1;
    }
    assert(texts(lines@).take(lines@.len() as int) =~= texts(lines@));
    Some(positions)
}

/// As many moons at rest as there are positions.
fn at_rest(positions: &Vec<Vector>) -> (velocities: Vec<Vector>)
    ensures
        velocities@ == still(positions@.len()),
{
    let mut velocities: Vec<Vector> = Vec::new();
    let mut index: usize = 0;
    while index < positions.len()
        invariant
            index <= positions@.len(),
            velocities@ == still(index as nat),
        decreases positions@.len() - index,
    {
        velocities.push(Vector::default());
        index = index + 1;
    }
    velocities
}

/// The velocities of `count` moons at rest.
pub open spec fn still(count: nat) -> Seq<Vector> {
    Seq::new(count, |index: int| Vector { x: 0, y: 0, z: 0 })
}

/// Positions and velocities after `steps` time steps, or none where a
/// coordinate leaves the range of a machine word on the way.
pub open spec fn simulate(positions: Seq<Vector>, velocities: Seq<Vector>, steps: nat) -> Option<
    (Seq<Vector>, Seq<Vector>),
>
    decreases steps,
{
    if steps == 0 {
        Some((positions, velocities))
    } else if step_fits(positions, velocities, moon_count(positions, velocities)) {
        simulate(
            next_positions(positions, velocities),
            next_velocities(positions, velocities),
            (steps - 1) as nat,
        )
    } else {
        None
    }
}

/// The energy of the moons in `text` after `num_steps` time steps from rest.
pub open spec fn spec_star_one(text: Seq<char>, num_steps: nat) -> Option<isize> {
    match moons(text) {
        Some(positions) => match simulate(positions, still(positions.len()), num_steps) {
            Some((moved, velocities)) => spec_energy(moved, velocities),
            None => None,
        },
        None => None,
    }
}

/// The energy of the moons in `input` after `num_steps` time steps from rest.
pub fn star_one(input: &str, num_steps: usize) -> (total: Option<isize>)
    ensures
        total == spec_star_one(input@, num_steps as nat),
{
    let mut positions = match read_moons(input) {
        Some(positions) => positions,
        None => { return None; },
    };
    let mut velocities = at_rest(&positions);
    let ghost start = positions@;
    let mut step: usize = 0;
    while step < num_steps
        invariant
            step <= num_steps,
            moons(input@) == Some(start),
            simulate(start, still(start.len()), num_steps as nat) == simulate(
                positions@,
                velocities@,
                (num_steps - step) as nat,
            ),
        decreases num_steps - step,
    {
        match timestemp(positions.as_slice(), velocities.as_slice()) {
            Some((new_positions, new_velocities)) => {
                positions = new_positions;
                velocities = new_velocities;
            },
            None => {
                return None;
            },
        }
        step = step + 1;
    }
    energy(positions.as_slice(), velocities.as_slice())
}

/// Whether along one axis every velocity is zero and every position is
/// what it was at the start.
pub open spec fn axis_repeats(
    positions: Seq<Vector>,
    velocities: Seq<Vector>,
    original: Seq<Vector>,
    axis: int,
) -> bool {
    &&& forall|i: int| 0 <= i < velocities.len() ==> (#[trigger] velocities[i]).spec_axis(axis) == 0
    &&& forall|i: int|
        0 <= i < positions.len() && i < original.len() ==> (#[trigger] positions[i]).spec_axis(
            axis,
        ) == original[i].spec_axis(axis)
}

/// The period of an axis as known after a step: what was known before,
/// or the number of this step where the axis repeats now for the first time.
pub open spec fn period_after(
    known: Option<usize>,
    positions: Seq<Vector>,
    velocities: Seq<Vector>,
    original: Seq<Vector>,
    axis: int,
    steps: usize,
) -> Option<usize> {
    if known is None && axis_repeats(positions, velocities, original, axis) {
        Some(steps)
    } else {
        known
    }
}

/// The periods of the three axes, found by stepping on from `steps` steps
/// until each axis has repeated once. There is none where a coordinate or
/// the number of steps leaves the range of a machine word before that.
pub open spec fn find_periods(
    positions: Seq<Vector>,
    velocities: Seq<Vector>,
    original: Seq<Vector>,
    known: (Option<usize>, Option<usize>, Option<usize>),
    steps: usize,
) -> Option<Seq<usize>>
    decreases usize::MAX - steps,
{
    match known {
        (Some(x), Some(y), Some(z)) => Some(seq![x, y, z]),
        _ => if steps >= usize::MAX || !step_fits(
            positions,
            velocities,
            moon_count(positions, velocities),
        ) {
            None
        } else {
            let moved = next_positions(positions, velocities);
            let changed = next_velocities(positions, velocities);
            let count = (steps + 1) as usize;
            find_periods(
                moved,
                changed,
                original,
                (
                    period_after(known.0, moved, changed, original, 0, count),
                    period_after(known.1, moved, changed, original, 1, count),
                    period_after(known.2, moved, changed, original, 2, count),
                ),
                count,
            )
        },
    }
}

/// The periods of the three axes for the moons in `text`, from rest.
pub open spec fn spec_star_two(text: Seq<char>) -> Option<Seq<usize>> {
    match moons(text) {
        Some(positions) => find_periods(
            positions,
            still(positions.len()),
            positions,
            (None, None, None),
            0,
        ),
        None => None,
    }
}

/// Whether along one axis every velocity is zero and every position is
/// what it was at the start.
fn check_axis_repeats(
    positions: &Vec<Vector>,
    velocities: &Vec<Vector>,
    original: &Vec<Vector>,
    axis: usize,
) -> (repeats: bool)
    requires
        axis < 3,
    ensures
        repeats == axis_repeats(positions@, velocities@, original@, axis as int),
{
    let mut index: usize = 0;
    while index < velocities.len()
        invariant
            index <= velocities@.len(),
            axis < 3,
            forall|i: int| 0 <= i < index ==> (#[trigger] velocities@[i]).spec_axis(axis as int) == 0,
        decreases velocities@.len() - index,
    {
        if velocities[index].axis(axis) != 0 {
            return false;
        }
        index = index + 1;
    }
    let mut index: usize = 0;
    while index < positions.len() && index < original.len()
        invariant
            index <= positions@.len(),
            index <= original@.len(),
            axis < 3,
            forall|i: int|
                0 <= i < index ==> (#[trigger] positions@[i]).spec_axis(axis as int)
                    == original@[i].spec_axis(axis as int),
        decreases positions@.len() - index,
    {
        if positions[index].axis(axis) != original[index].axis(axis) {
            return false;
        }
        index = index + 1;
    }
    true
}

/// The view of a list that may be missing.
pub open spec fn periods_of(list: Option<Vec<usize>>) -> Option<Seq<usize>> {
    match list {
        Some(values) => Some(values@),
        None => None,
    }
}

/// For each axis the number of time steps after which the moons in
/// `input`, started from rest, are along that axis first back where they
/// started, at rest.
pub fn star_two(input: &str) -> (periods: Option<Vec<usize>>)
    ensures
        periods_of(periods) == spec_star_two(input@),
{
    let original_positions = match read_moons(input) {
        Some(positions) => positions,
        None => { return None; },
    };
    let mut positions = original_positions.clone();
    let mut velocities = at_rest(&original_positions);
    let mut period_x: Option<usize> = None;
    let mut period_y: Option<usize> = None;
    let mut period_z: Option<usize> = None;
    let mut steps: usize = 0;
    while period_x.is_none() || period_y.is_none() || period_z.is_none()
        invariant
            spec_star_two(input@) == find_periods(
                positions@,
                velocities@,
                original_positions@,
                (period_x, period_y, period_z),
                steps,
            ),
        decreases usize::MAX - steps,
    {
        if steps == usize::MAX {
            return None;
        }
        match timestemp(positions.as_slice(), velocities.as_slice()) {
            Some((new_positions, new_velocities)) => {
                positions = new_positions;
                velocities = new_velocities;
            },
            None => {
                return None;
            },
        }
        steps = steps + 1;
        if period_x.is_none() && check_axis_repeats(
            &positions,
            &velocities,
            &original_positions,
            0,
        ) {
            period_x = Some(steps);
        }
        if period_y.is_none() && check_axis_repeats(
            &positions,
            &velocities,
            &original_positions,
            1,
        ) {
            period_y = Some(steps);
        }
        if period_z.is_none() && check_axis_repeats(
            &positions,
            &velocities,
            &original_positions,
            2,
        ) {
            period_z = Some(steps);
        }
    }
    match (period_x, period_y, period_z) {
        (Some(x), Some(y), Some(z)) => {
            let mut periods: Vec<usize> = Vec::new();
            periods.push(x);
            periods.push(y);
            periods.push(z);
            Some(periods)
        },
        _ => None,
    }
}

} // verus!
