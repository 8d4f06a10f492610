//! Asteroids on a map, and how many of them can be seen from each: an
//! asteroid hides all that lie behind it in the same direction.
//!
//! The directions themselves are angles and are computed outside this
//! library; here each direction is a whole number, and two asteroids lie
//! in the same direction when their numbers are the same.

use crate::parsing::{chars_of, split, split_text, texts, trim, trimmed};
use itertools::Itertools;
use vstd::prelude::*;

verus! {

/// A position on the map: column and row.
#[derive(Debug, Eq, PartialEq, Copy, Clone, Structural)]
pub struct Point {
    pub x: isize,
    pub y: isize,
}

impl Point {
    /// The position in column `x` of row `y`.
    pub fn new(x: isize, y: isize) -> (point: Self)
        ensures
            point == (Point { x, y }),
    {
        Self { x, y }
    }
}

/// A direction as a whole number: an angle in thousandths, rounded down.
#[derive(Debug, Eq, PartialEq, Copy, Clone, Hash, Structural)]
pub struct Degree {
    pub radian: isize,
}

/// The asteroids among the first `upto` characters of row `y`, left to right.
pub open spec fn row_asteroids(line: Seq<char>, y: int, upto: int) -> Seq<Point>
    decreases upto,
{
    if upto <= 0 {
        Seq::empty()
    } else {
        let before = row_asteroids(line, y, upto - 1);
        if line[upto - 1] == '#' {
            before.push(Point { x: (upto - 1) as isize, y: y as isize })
        } else {
            before
        }
    }
}

/// The asteroids of the first `upto` rows, row by row.
pub open spec fn rows_asteroids(lines: Seq<Seq<char>>, upto: int) -> Seq<Point>
    decreases upto,
{
    if upto <= 0 {
        Seq::empty()
    } else {
        rows_asteroids(lines, upto - 1) + row_asteroids(
            lines[upto - 1],
            upto - 1,
            lines[upto - 1].len() as int,
        )
    }
}

/// The asteroids of a map: the positions of the character `#` in the
/// text without the white space around it, one row to a line.
pub open spec fn spec_asteroids(text: Seq<char>) -> Seq<Point> {
    let lines = split(trim(text), seq!['\n']);
    rows_asteroids(lines, lines.len() as int)
}

/// The asteroids of a map, row by row and left to right.
pub fn asteroids(input: &str) -> (found: Vec<Point>)
    ensures
        found@ == spec_asteroids(input@),
{
    let text = chars_of(input);
    let clean = trimmed(text.as_slice());
    let mut feed: Vec<char> = Vec::new();
    feed.push('\n');
    let lines = split_text(clean.as_slice(), feed.as_slice());
    let mut found: Vec<Point> = Vec::new();
    let mut y: usize = 0;
    let rows = lines.len();
    while y < rows
        invariant
            y <= rows == lines@.len(),
            texts(lines@) == split(trim(input@), seq!['\n']),
            found@ == rows_asteroids(texts(lines@), y as int),
        decreases rows - y,
    {
        let line = &lines[y];
        let width = line.len();
        let ghost before = found@;
        let mut x: usize = 0;
        while x < width
            invariant
                x <= width == line@.len(),
                y < rows == lines@.len(),
                found@ == before + row_asteroids(line@, y as int, x as int),
            decreases width - x,
        {
            if line[x] == '#' {
                found.push(Point::new(x as isize, y as isize));
            }
            x = x + 1;
        }
        y = y + 1;
    }
    found
}

/// Whether the numbers stand in rising order.
pub open spec fn is_sorted(keys: Seq<isize>) -> bool {
    forall|i: int, j: int| 0 <= i <= j < keys.len() ==> keys[i] <= keys[j]
}

/// The number of runs in a list: stretches of equal numbers next to
/// each other that are as long as they can be.
pub open spec fn run_count(keys: Seq<isize>) -> nat
    decreases keys.len(),
{
    if keys.len() == 0 {
        0
    } else if keys.len() == 1 {
        1
    } else {
        run_count(keys.drop_last()) + if keys[keys.len() - 1] != keys[keys.len() - 2] {
            1nat
        } else {
            0nat
        }
    }
}

/// The numbers in rising order.
///
/// This is the sort of slices in the standard library. Its contract
/// restates what the library documents, that the result is in order and
/// holds what was given, and is not proved here.
#[verifier::external_body]
fn sorted(keys: Vec<isize>) -> (ordered: Vec<isize>)
    ensures
        is_sorted(ordered@),
        ordered@.to_multiset() == keys@.to_multiset(),
{
    let mut ordered = keys;
    ordered.sort();
    ordered
}

/// The number of runs of equal numbers in a list.
///
/// This is `Itertools::group_by` with the number itself as the key, and
/// the count of its groups: the crate documents that consecutive elements
/// with the same key form one group. The contract restates that and is not
/// proved here.
#[verifier::external_body]
fn count_groups(keys: &Vec<isize>) -> (groups: usize)
    ensures
        groups == run_count(keys@),
{
    keys.iter().group_by(|key| **key).into_iter().count()
}

proof fn lemma_runs_of_sorted(keys: Seq<isize>)
    requires
        is_sorted(keys),
    ensures
        keys.to_set().finite(),
        run_count(keys) == keys.to_set().len(),
    decreases keys.len(),
{
    if keys.len() == 0 {
        assert(keys.to_set() =~= Set::<isize>::empty());
    } else {
        let before = keys.drop_last();
        let last = keys.last();
        lemma_runs_of_sorted(before);
        assert(keys.to_set() =~= before.to_set().insert(last)) by {
            assert forall|key: isize|
                keys.to_set().contains(key) <==> before.to_set().insert(last).contains(key) by {
                if keys.contains(key) {
                    let i = choose|i: int| 0 <= i < keys.len() && keys[i] == key;
                    if i < before.len() {
                        assert(before[i] == key);
                    }
                }
            }
        }
    }
}

/// The number of asteroids that can be seen, given the direction of each
/// asteroid: the number of different directions.
pub fn visible_count(angles_to_others: Vec<isize>) -> (count: usize)
    ensures
        angles_to_others@.to_set().finite(),
        count == angles_to_others@.to_set().len(),
{
    let ordered = sorted(angles_to_others);
    let count = count_groups(&ordered);
    proof {
        lemma_runs_of_sorted(ordered@);
        assert(ordered@.to_set() =~= angles_to_others@.to_set()) by {
            assert forall|key: isize|
                ordered@.to_set().contains(key) <==> angles_to_others@.to_set().contains(
                    key,
                ) by {
                vstd::seq_lib::to_multiset_contains(ordered@, key);
                vstd::seq_lib::to_multiset_contains(angles_to_others@, key);
            }
        }
    }
    count
}

/// Whether `best` is the station from which the most asteroids can be
/// seen; of several with as many, the last. There is none without stations.
pub open spec fn is_best_station(
    stations: Seq<(Point, usize)>,
    best: Option<(Point, usize)>,
) -> bool {
    match best {
        Some(station) => exists|i: int|
            {
                &&& 0 <= i < stations.len()
                &&& #[trigger] stations[i] == station
                &&& forall|j: int| 0 <= j < stations.len() ==> (#[trigger] stations[j]).1 <= station.1
                &&& forall|j: int| i < j < stations.len() ==> (#[trigger] stations[j]).1 < station.1
            },
        None => stations.len() == 0,
    }
}

/// The station from which the most asteroids can be seen, with their
/// number; of several with as many, the last.
pub fn best_station(stations: &Vec<(Point, usize)>) -> (best: Option<(Point, usize)>)
    ensures
        is_best_station(stations@, best),
{
    if stations.len() == 0 {
        return None;
    }
    let mut best: usize = 0;
    let mut index: usize = 1;
    while index < stations.len()
        invariant
            1 <= index <= stations@.len(),
            best < index,
            forall|j: int| 0 <= j < index ==> (#[trigger] stations@[j]).1 <= stations@[best as int].1,
            forall|j: int| best < j < index ==> (#[trigger] stations@[j]).1 < stations@[best as int].1,
        decreases stations@.len() - index,
    {
        if stations[index].1 >= stations[best].1 {
            best = index;
        }
        index = index + 1;
    }
    Some(stations[best])
}

} // verus!
