//! Two wires on a grid, each laid from a common start along a path of
//! straight steps, and the points where they cross.

use crate::grid::{Point, PointMap};
use crate::parsing::{
    chars_of,
    copy_range,
    fields,
    fields_of,
    parse_usize,
    spec_parse_usize,
    split,
    split_text,
    texts,
};
use vstd::prelude::*;

verus! {

/// The point from which both wires start.
pub const CENTER: Point = (0, 0);

/// The four ways in which a wire can run.
#[derive(Debug, Copy, Clone, PartialEq, Eq, Structural)]
pub enum Direction {
    R,
    U,
    L,
    D,
}

/// The direction that a text stands for: its letter, in either case.
pub open spec fn spec_direction(text: Seq<char>) -> Option<Direction> {
    if text.len() != 1 {
        None
    } else if text[0] == 'r' || text[0] == 'R' {
        Some(Direction::R)
    } else if text[0] == 'u' || text[0] == 'U' {
        Some(Direction::U)
    } else if text[0] == 'l' || text[0] == 'L' {
        Some(Direction::L)
    } else if text[0] == 'd' || text[0] == 'D' {
        Some(Direction::D)
    } else {
        None
    }
}

impl Direction {
    /// Reads a direction from its letter.
    pub fn from_chars(text: &[char]) -> (direction: Option<Self>)
        ensures
            direction == spec_direction(text@),
    {
        if text.len() != 1 {
            None
        } else if text[0] == 'r' || text[0] == 'R' {
            Some(Direction::R)
        } else if text[0] == 'u' || text[0] == 'U' {
            Some(Direction::U)
        } else if text[0] == 'l' || text[0] == 'L' {
            Some(Direction::L)
        } else if text[0] == 'd' || text[0] == 'D' {
            Some(Direction::D)
        } else {
            None
        }
    }
}

/// A straight piece of a path.
#[derive(Debug, Copy, Clone, PartialEq, Eq, Structural)]
pub struct Step {
    pub direction: Direction,
    pub steps: usize,
}

/// The step that a text stands for: the letter of a direction and then
/// an unsigned number.
pub open spec fn spec_step(text: Seq<char>) -> Option<Step> {
    if text.len() == 0 {
        None
    } else {
        match (spec_direction(text.take(1)), spec_parse_usize(text.skip(1))) {
            (Some(direction), Some(steps)) => Some(Step { direction, steps }),
            _ => None,
        }
    }
}

impl Step {
    /// One step in the direction of this piece; up is towards smaller `y`.
    pub open spec fn spec_dir(&self) -> Point {
        match self.direction {
            Direction::R => (1isize, 0isize),
            Direction::U => (0isize, -1isize),
            Direction::L => (-1isize, 0isize),
            Direction::D => (0isize, 1isize),
        }
    }

    /// One step in the direction of this piece.
    #[verifier::when_used_as_spec(spec_dir)]
    pub fn dir(&self) -> (unit: Point)
        ensures
            unit == self.spec_dir(),
    {
        match self.direction {
            Direction::R => (1, 0),
            Direction::U => (0, -1),
            Direction::L => (-1, 0),
            Direction::D => (0, 1),
        }
    }

    /// Reads a step from a text such as `R75`.
    pub fn from_chars(text: &[char]) -> (step: Option<Self>)
        ensures
            step == spec_step(text@),
    {
        if text.len() == 0 {
            return None;
        }
        let letter = copy_range(text, 0, 1);
        let number = copy_range(text, 1, text.len());
        match (Direction::from_chars(letter.as_slice()), parse_usize(number.as_slice())) {
            (Some(direction), Some(steps)) => Some(Step { direction, steps }),
            _ => None,
        }
    }
}

/// The distance of a number from zero.
pub open spec fn magnitude(value: int) -> int {
    if value < 0 {
        -value
    } else {
        value
    }
}

/// The number of steps along the axes between two points.
pub open spec fn spec_manhattan_distance(origin: Point, point: Point) -> int {
    magnitude(origin.0 - point.0) + magnitude(origin.1 - point.1)
}

/// The number of steps along the axes between two points.
pub fn manhattan_distance(origin: &Point, point: &Point) -> (distance: usize)
    requires
        spec_manhattan_distance(*origin, *point) <= usize::MAX,
    ensures
        distance == spec_manhattan_distance(*origin, *point),
{
    let dx: i128 = origin.0 as i128 - point.0 as i128;
    let dy: i128 = origin.1 as i128 - point.1 as i128;
    let ax: i128 = if dx < 0 {
        -dx
    } else {
        dx
    };
    let ay: i128 = if dy < 0 {
        -dy
    } else {
        dy
    };
    (ax + ay) as usize
}

/// `n` steps along an axis in the sense of `unit`, which is 1, 0 or -1.
pub open spec fn offset(unit: isize, n: int) -> int {
    if unit == 1 {
        n
    } else if unit == -1 {
        -n
    } else {
        0
    }
}

/// The points of one piece of a wire that starts at `start`: the start
/// and the points that follow, but not the point at which the piece ends.
pub open spec fn segment(start: (int, int), step: Step) -> Seq<(int, int)> {
    Seq::new(
        step.steps as nat,
        |n: int| (start.0 + offset(step.dir().0, n), start.1 + offset(step.dir().1, n)),
    )
}

/// Where a wire stands after the given steps, as far as numbers go.
pub open spec fn end_of(path: Seq<Step>) -> (int, int)
    decreases path.len(),
{
    if path.len() == 0 {
        (0, 0)
    } else {
        let before = end_of(path.drop_last());
        let last = path.last();
        (
            before.0 + offset(last.dir().0, last.steps as int),
            before.1 + offset(last.dir().1, last.steps as int),
        )
    }
}

/// The points that a wire occupies, in the order in which it reaches
/// them: for each piece of the path the point at which the piece starts and
/// those that follow, but not the point at which it ends. So the wire's
/// very last point is left out.
pub open spec fn trace(path: Seq<Step>) -> Seq<(int, int)>
    decreases path.len(),
{
    if path.len() == 0 {
        Seq::empty()
    } else {
        trace(path.drop_last()) + segment(end_of(path.drop_last()), path.last())
    }
}

/// After how many steps of wire a trace first reaches a point, if it does.
pub open spec fn first_reached(points: Seq<(int, int)>, point: (int, int)) -> Option<nat>
    decreases points.len(),
{
    if points.len() == 0 {
        None
    } else {
        match first_reached(points.drop_last(), point) {
            Some(distance) => Some(distance),
            None => if points.last() == point {
                Some((points.len() - 1) as nat)
            } else {
                None
            },
        }
    }
}

/// Whether a number fits a signed machine word.
pub open spec fn fits(value: int) -> bool {
    isize::MIN <= value <= isize::MAX
}

/// Whether both coordinates of a point fit signed machine words.
pub open spec fn point_fits(point: (int, int)) -> bool {
    fits(point.0) && fits(point.1)
}

/// Whether all the points have coordinates that fit machine words.
pub open spec fn all_fit(points: Seq<(int, int)>) -> bool {
    forall|i: int| 0 <= i < points.len() ==> point_fits(#[trigger] points[i])
}

/// Whether a wire can be laid in machine words: every point that it
/// occupies and the points at which its pieces end have coordinates that
/// fit, and so does its length.
pub open spec fn wire_fits(path: Seq<Step>) -> bool {
    &&& trace(path).len() <= usize::MAX
    &&& all_fit(trace(path))
    &&& forall|k: int| 0 <= k <= path.len() ==> point_fits(#[trigger] end_of(path.take(k)))
}

/// Whether `wire` maps each of the points to the length of wire at which
/// the trace first reaches it, and holds no other point.
pub open spec fn records(wire: Map<Point, usize>, points: Seq<(int, int)>) -> bool {
    forall|point: Point|
        match first_reached(points, (point.0 as int, point.1 as int)) {
            Some(distance) => #[trigger] wire.contains_key(point) && wire[point] == distance,
            None => !wire.contains_key(point),
        }
}

/// Whether `wire` maps each point that the path occupies to the length of
/// wire at which the path first reaches it.
pub open spec fn is_wire(wire: Map<Point, usize>, path: Seq<Step>) -> bool {
    records(wire, trace(path))
}

/// Lays one piece of a wire from `location` on, after `distance` steps of
/// wire. The result is false where a point of the piece does not fit
/// machine words or the length of the wire does not.
fn lay_segment(
    occupied: &mut PointMap<usize>,
    location: Point,
    distance: usize,
    step: Step,
    Ghost(seen): Ghost<Seq<(int, int)>>,
) -> (laid: bool)
    requires
        old(occupied).wf(),
        records(old(occupied)@, seen),
        seen.len() == distance,
    ensures
        final(occupied).wf(),
        laid ==> records(
            final(occupied)@,
            seen + segment((location.0 as int, location.1 as int), step),
        ) && all_fit(segment((location.0 as int, location.1 as int), step)) && distance
            + step.steps <= usize::MAX,
        !laid ==> !all_fit(segment((location.0 as int, location.1 as int), step)) || distance
            + step.steps > usize::MAX,
{
    let dir = step.dir();
    let ghost start = (location.0 as int, location.1 as int);
    let ghost piece = segment(start, step);
    if step.steps > usize::MAX - distance {
        return false;
    }
    let mut n: usize = 0;
    while n < step.steps
        invariant
            n <= step.steps,
            distance + step.steps <= usize::MAX,
            occupied.wf(),
            start == (location.0 as int, location.1 as int),
            dir == step.dir(),
            piece == segment(start, step),
            seen.len() == distance,
            all_fit(piece.take(n as int)),
            records(occupied@, seen + piece.take(n as int)),
        decreases step.steps - n,
    {
        let x: i128 = location.0 as i128 + (if dir.0 == 1 {
            n as i128
        } else if dir.0 == -1 {
            -(n as i128)
        } else {
            0
        });
        let y: i128 = location.1 as i128 + (if dir.1 == 1 {
            n as i128
        } else if dir.1 == -1 {
            -(n as i128)
        } else {
            0
        });
        assert(piece[n as int] == (x as int, y as int));
        if x < isize::MIN as i128 || x > isize::MAX as i128 || y < isize::MIN as i128 || y
            > isize::MAX as i128 {
            return false;
        }
        let point: Point = (x as isize, y as isize);
        let ghost before = seen + piece.take(n as int);
        let ghost longer = seen + piece.take(n + 1);
        proof {
            assert(longer.drop_last() =~= before);
        }
        let ghost earlier = occupied@;
        if !occupied.contains_key(point) {
            occupied.insert(point, distance + n);
        }
        assert(records(occupied@, longer)) by {
            assert forall|other: Point|
                match first_reached(longer, (other.0 as int, other.1 as int)) {
                    Some(length) => #[trigger] occupied@.contains_key(other) && occupied@[other]
                        == length,
                    None => !occupied@.contains_key(other),
                } by {
                let wanted = (other.0 as int, other.1 as int);
                assert(first_reached(before, wanted) is Some <==> earlier.contains_key(other));
            }
        }
        n = n + 1;
    }
    assert(piece.take(step.steps as int) =~= piece);
    true
}

/// Lays one wire along `path`. There is none where the wire does not fit
/// machine words.
fn lay(path: &Vec<Step>) -> (wire: Option<PointMap<usize>>)
    ensures
        match wire {
            Some(occupied) => occupied.wf() && wire_fits(path@) && is_wire(occupied@, path@),
            None => !wire_fits(path@),
        },
{
    let mut locations_occupied: PointMap<usize> = PointMap::new();
    let mut location: Point = CENTER;
    let mut distance: usize = 0;
    let mut index: usize = 0;
    while index < path.len()
        invariant
            index <= path@.len(),
            locations_occupied.wf(),
            (location.0 as int, location.1 as int) == end_of(path@.take(index as int)),
            distance == trace(path@.take(index as int)).len(),
            is_wire(locations_occupied@, path@.take(index as int)),
            all_fit(trace(path@.take(index as int))),
            forall|k: int| 0 <= k <= index ==> point_fits(#[trigger] end_of(path@.take(k))),
        decreases path@.len() - index,
    {
        let step = path[index];
        let dir = step.dir();
        let ghost done = path@.take(index as int);
        let ghost now = path@.take(index + 1);
        let ghost start = end_of(done);
        let ghost piece = segment(start, step);
        proof {
            assert(now.drop_last() =~= done);
            lemma_trace_grows(path@, index + 1);
        }
        if !lay_segment(&mut locations_occupied, location, distance, step, Ghost(trace(done))) {
            proof {
                if distance + step.steps <= usize::MAX {
                    let i = choose|i: int| 0 <= i < piece.len() && !point_fits(#[trigger] piece[i]);
                    assert(trace(path@)[distance + i] == trace(now)[distance + i]);
                }
            }
            return None;
        }
        let end_x: i128 = location.0 as i128 + (if dir.0 == 1 {
            step.steps as i128
        } else if dir.0 == -1 {
            -(step.steps as i128)
        } else {
            0
        });
        let end_y: i128 = location.1 as i128 + (if dir.1 == 1 {
            step.steps as i128
        } else if dir.1 == -1 {
            -(step.steps as i128)
        } else {
            0
        });
        assert(end_of(now) == (end_x as int, end_y as int));
        if end_x < isize::MIN as i128 || end_x > isize::MAX as i128 || end_y < isize::MIN as i128
            || end_y > isize::MAX as i128 {
            return None;
        }
        location = (end_x as isize, end_y as isize);
        distance = distance + step.steps;
        index = index + 1;
    }
    assert(path@.take(path@.len() as int) =~= path@);
    Some(locations_occupied)
}

/// The trace of the first pieces of a path is the start of the trace of
/// the whole path.
proof fn lemma_trace_grows(path: Seq<Step>, shorter: int)
    requires
        0 <= shorter <= path.len(),
    ensures
        trace(path.take(shorter)).len() <= trace(path).len(),
        forall|i: int|
            0 <= i < trace(path.take(shorter)).len() ==> trace(path)[i] == trace(
                path.take(shorter),
            )[i],
    decreases path.len(),
{
    if shorter == path.len() {
        assert(path.take(shorter) =~= path);
    } else {
        lemma_trace_grows(path.drop_last(), shorter);
        assert(path.drop_last().take(shorter) =~= path.take(shorter));
    }
}

/// The wires along the paths: for each path the points that it occupies,
/// each with the length of wire at which the path first reaches it.
/// There is none where a wire does not fit machine words.
pub fn wire(paths: &Vec<Vec<Step>>) -> (wires: Option<Vec<PointMap<usize>>>)
    ensures
        match wires {
            Some(laid) => {
                &&& laid@.len() == paths@.len()
                &&& forall|i: int|
                    0 <= i < laid@.len() ==> (#[trigger] laid@[i]).wf() && wire_fits(paths@[i]@)
                        && is_wire(laid@[i]@, paths@[i]@)
            },
            None => exists|i: int| 0 <= i < paths@.len() && !wire_fits(#[trigger] paths@[i]@),
        },
{
    let mut wires: Vec<PointMap<usize>> = Vec::new();
    let mut index: usize = 0;
    while index < paths.len()
        invariant
            index <= paths@.len(),
            wires@.len() == index,
            forall|i: int|
                0 <= i < index ==> (#[trigger] wires@[i]).wf() && wire_fits(paths@[i]@) && is_wire(
                    wires@[i]@,
                    paths@[i]@,
                ),
        decreases paths@.len() - index,
    {
        match lay(&paths[index]) {
            Some(occupied) => {
                wires.push(occupied);
            },
            None => {
                return None;
            },
        }
        index = index + 1;
    }
    Some(wires)
}

/// The lines of a text: its pieces between line feeds; where the text
/// ends with a line feed, nothing follows the last line.
pub open spec fn lines(text: Seq<char>) -> Seq<Seq<char>> {
    let pieces = split(text, seq!['\n']);
    if pieces.len() > 0 && pieces.last().len() == 0 {
        pieces.drop_last()
    } else {
        pieces
    }
}

/// The steps that the fields stand for, or none where one of them
/// stands for no step.
pub open spec fn steps_of(fields: Seq<Seq<char>>) -> Option<Seq<Step>>
    decreases fields.len(),
{
    if fields.len() == 0 {
        Some(Seq::empty())
    } else {
        match (steps_of(fields.drop_last()), spec_step(fields.last())) {
            (Some(before), Some(step)) => Some(before.push(step)),
            _ => None,
        }
    }
}

/// The paths that the lines stand for, each a list of steps that commas
/// separate, or none where a line is no such list.
pub open spec fn paths_of(lines: Seq<Seq<char>>) -> Option<Seq<Seq<Step>>>
    decreases lines.len(),
{
    if lines.len() == 0 {
        Some(Seq::empty())
    } else {
        match (paths_of(lines.drop_last()), steps_of(fields(lines.last(), seq![',']))) {
            (Some(before), Some(path)) => Some(before.push(path)),
            _ => None,
        }
    }
}

proof fn lemma_steps_fail(fields: Seq<Seq<char>>, index: int)
    requires
        0 <= index < fields.len(),
        spec_step(fields[index]) is None,
    ensures
        steps_of(fields) is None,
    decreases fields.len(),
{
    if index < fields.len() - 1 {
        lemma_steps_fail(fields.drop_last(), index);
    }
}

proof fn lemma_paths_fail(lines: Seq<Seq<char>>, index: int)
    requires
        0 <= index < lines.len(),
        steps_of(fields(lines[index], seq![','])) is None,
    ensures
        paths_of(lines) is None,
    decreases lines.len(),
{
    if index < lines.len() - 1 {
        lemma_paths_fail(lines.drop_last(), index);
    }
}

/// The views of a list of paths.
pub open spec fn path_views(paths: Seq<Vec<Step>>) -> Seq<Seq<Step>> {
    paths.map_values(|path: Vec<Step>| path@)
}

/// Reads one path: steps that commas separate.
fn read_path(line: &[char]) -> (path: Option<Vec<Step>>)
    ensures
        match path {
            Some(steps) => steps_of(fields(line@, seq![','])) == Some(steps@),
            None => steps_of(fields(line@, seq![','])) is None,
        },
{
    let mut comma: Vec<char> = Vec::new();
    comma.push(',');
    let found = fields_of(line, comma.as_slice());
    let mut path: Vec<Step> = Vec::new();
    let mut index: usize = 0;
    while index < found.len()
        invariant
            index <= found@.len(),
            texts(found@) == fields(line@, seq![',']),
            steps_of(texts(found@).take(index as int)) == Some(path@),
        decreases found@.len() - index,
    {
        match Step::from_chars(found[index].as_slice()) {
            Some(step) => {
                proof {
                    let done = texts(found@).take(index + 1);
                    assert(done.drop_last() =~= texts(found@).take(index as int));
                }
                path.push(step);
            },
            None => {
                proof {
                    lemma_steps_fail(texts(found@), index as int);
                }
                return None;
            },
        }
        index = index + 1;
    }
    assert(texts(found@).take(found@.len() as int) =~= texts(found@));
    Some(path)
}

/// Reads the paths of a text, one to a line.
fn read_paths(input: &str) -> (paths: Option<Vec<Vec<Step>>>)
    ensures
        match paths {
            Some(list) => paths_of(lines(input@)) == Some(path_views(list@)),
            None => paths_of(lines(input@)) is None,
        },
{
    let text = chars_of(input);
    let mut feed: Vec<char> = Vec::new();
    feed.push('\n');
    let mut pieces = split_text(text.as_slice(), feed.as_slice());
    if pieces.len() > 0 && pieces[pieces.len() - 1].len() == 0 {
        pieces.pop();
    }
    let mut paths: Vec<Vec<Step>> = Vec::new();
    let mut index: usize = 0;
    while index < pieces.len()
        invariant
            index <= pieces@.len(),
            texts(pieces@) == lines(input@),
            paths_of(texts(pieces@).take(index as int)) == Some(path_views(paths@)),
        decreases pieces@.len() - index,
    {
        match read_path(pieces[index].as_slice()) {
            Some(path) => {
                proof {
                    let done = texts(pieces@).take(index + 1);
                    assert(done.drop_last() =~= texts(pieces@).take(index as int));
                }
                paths.push(path);
            },
            None => {
                proof {
                    lemma_paths_fail(texts(pieces@), index as int);
                }
                return None;
            },
        }
        index = index + 1;
    }
    assert(texts(pieces@).take(pieces@.len() as int) =~= texts(pieces@));
    Some(paths)
}

proof fn lemma_first_reached_bound(points: Seq<(int, int)>, point: (int, int))
    ensures
        first_reached(points, point) matches Some(distance) ==> distance < points.len(),
    decreases points.len(),
{
    if points.len() > 0 {
        lemma_first_reached_bound(points.drop_last(), point);
    }
}

/// Whether both wires occupy a point other than their common start.
pub open spec fn is_crossing(first: Seq<Step>, second: Seq<Step>, point: Point) -> bool {
    &&& point != CENTER
    &&& first_reached(trace(first), (point.0 as int, point.1 as int)) is Some
    &&& first_reached(trace(second), (point.0 as int, point.1 as int)) is Some
}

/// What a crossing costs: the length of both wires up to it where
/// `by_length` is set, and else its distance from the start along the axes.
pub open spec fn cost(first: Seq<Step>, second: Seq<Step>, point: Point, by_length: bool) -> int {
    if by_length {
        (first_reached(trace(first), (point.0 as int, point.1 as int))->0 + first_reached(
            trace(second),
            (point.0 as int, point.1 as int),
        )->0) as int
    } else {
        spec_manhattan_distance(CENTER, point)
    }
}

/// Whether `best` is the smallest cost of a crossing of the two wires.
/// There is none where the wires do not cross, or where that cost does not
/// fit a machine word.
pub open spec fn is_cheapest(
    first: Seq<Step>,
    second: Seq<Step>,
    by_length: bool,
    best: Option<usize>,
) -> bool {
    match best {
        Some(least) => {
            &&& exists|point: Point| #[trigger]
                is_crossing(first, second, point) && cost(first, second, point, by_length) == least
            &&& forall|point: Point| #[trigger]
                is_crossing(first, second, point) ==> cost(first, second, point, by_length) >= least
        },
        None => forall|point: Point| #[trigger]
            is_crossing(first, second, point) ==> cost(first, second, point, by_length)
                > usize::MAX,
    }
}

/// Whether `best` is the answer for the wires in `text`: there must be
/// two paths, one to a line, both wires must fit machine words, and `best`
/// is the smallest cost of a crossing. Else there is none.
pub open spec fn is_answer(text: Seq<char>, by_length: bool, best: Option<usize>) -> bool {
    match paths_of(lines(text)) {
        Some(paths) => if paths.len() == 2 && wire_fits(paths[0]) && wire_fits(paths[1]) {
            is_cheapest(paths[0], paths[1], by_length, best)
        } else {
            best is None
        },
        None => best is None,
    }
}

/// The smallest cost of a crossing of the wires along the two paths in `input`.
fn cheapest_crossing(input: &str, by_length: bool) -> (best: Option<usize>)
    ensures
        is_answer(input@, by_length, best),
{
    let paths = match read_paths(input) {
        Some(paths) => paths,
        None => { return None; },
    };
    if paths.len() != 2 {
        return None;
    }
    let wires = match wire(&paths) {
        Some(wires) => wires,
        None => { return None; },
    };
    let ghost first = paths@[0]@;
    let ghost second = paths@[1]@;
    let total = wires[0].len();
    let mut best: Option<u128> = None;
    let mut position: usize = 0;
    proof {
        wires@[0].lemma_keys();
    }
    while position < total
        invariant
            position <= total == wires@[0].keys().len(),
            wires@.len() == 2,
            wires@[0].wf(),
            wires@[1].wf(),
            is_wire(wires@[0]@, first),
            is_wire(wires@[1]@, second),
            forall|point: Point| #[trigger]
                wires@[0].keys().contains(point) <==> wires@[0]@.contains_key(point),
            forall|i: int|
                0 <= i < position && is_crossing(first, second, #[trigger] wires@[0].keys()[i])
                    ==> best is Some && cost(first, second, wires@[0].keys()[i], by_length)
                    >= best->0,
            best matches Some(least) ==> exists|i: int|
                0 <= i < position && is_crossing(first, second, #[trigger] wires@[0].keys()[i])
                    && cost(first, second, wires@[0].keys()[i], by_length) == least,
        decreases total - position,
    {
        let point = wires[0].key_at(position);
        if point.0 != 0 || point.1 != 0 {
            match (wires[0].get(point), wires[1].get(point)) {
                (Some(distance), Some(other)) => {
                    let price: u128 = if by_length {
                        *distance as u128 + *other as u128
                    } else if point.0 == isize::MIN && point.1 == isize::MIN {
                        2 * (-(isize::MIN as i128)) as u128
                    } else {
                        manhattan_distance(&CENTER, &point) as u128
                    };
                    let improved = match best {
                        Some(least) => price < least,
                        None => true,
                    };
                    if improved {
                        best = Some(price);
                    }
                },
                _ => {
                },
            }
        }
        position = position + 1;
    }
    proof {
        assert forall|point: Point| #[trigger] is_crossing(first, second, point) implies best is Some
            && cost(first, second, point, by_length) >= best->0 by {
            assert(wires@[0].keys().contains(point));
            let i = choose|i: int|
                0 <= i < wires@[0].keys().len() && wires@[0].keys()[i] == point;
        }
    }
    match best {
        Some(least) => if least <= usize::MAX as u128 {
            proof {
                let i = choose|i: int|
                    0 <= i < position && is_crossing(first, second, #[trigger] wires@[0].keys()[i])
                        && cost(first, second, wires@[0].keys()[i], by_length) == least;
                let witness = wires@[0].keys()[i];
                assert(is_crossing(first, second, witness) && cost(
                    first,
                    second,
                    witness,
                    by_length,
                ) == least);
            }
            Some(least as usize)
        } else {
            None
        },
        None => None,
    }
}

/// The distance along the axes from the start to the nearest crossing of
/// the two wires in `input`.
pub fn star_one(input: &str) -> (distance: Option<usize>)
    ensures
        is_answer(input@, false, distance),
{
    cheapest_crossing(input, false)
}

/// The smallest length of wire to a crossing of the two wires in `input`,
/// both wires taken together.
pub fn star_two(input: &str) -> (length: Option<usize>)
    ensures
        is_answer(input@, true, length),
{
    cheapest_crossing(input, true)
}

} // verus!
