//! A repair droid that explores a maze: the droid is steered by a program
//! that answers each attempted step with what the droid has met.

use crate::grid::{lemma_subset_len, Point, PointMap};
use crate::intcode_computer::{
    Computer,
    ConstantInput,
    Machine,
    CYCLE_LIMIT,
};
use crate::math::Vector2;
use crate::parsing::{fields, integers, parse_custom_separated};
use std::collections::VecDeque;
use vstd::prelude::*;
use vstd::string::StringExecFns;

verus! {

/// A position in the maze.
pub type Location = Vector2<isize>;

/// The four ways in which the droid can step.
#[derive(Debug, Copy, Clone, PartialEq, Eq, Structural)]
pub enum Direction {
    North,
    South,
    West,
    East,
}

/// The position one step from `location` in `direction`, as far as
/// numbers go.
pub open spec fn step_from(location: Location, direction: Direction) -> (int, int) {
    match direction {
        Direction::North => (location.x as int, location.y + 1),
        Direction::South => (location.x as int, location.y - 1),
        Direction::West => (location.x - 1, location.y as int),
        Direction::East => (location.x + 1, location.y as int),
    }
}

/// Whether all four neighbours of a location have coordinates that fit
/// machine words.
pub open spec fn has_room(location: Location) -> bool {
    &&& isize::MIN < location.x < isize::MAX
    &&& isize::MIN < location.y < isize::MAX
}

/// The neighbour of a location in a direction.
pub open spec fn neighbour(location: Location, direction: Direction) -> Location {
    Vector2 {
        x: step_from(location, direction).0 as isize,
        y: step_from(location, direction).1 as isize,
    }
}

/// The point of the plane at which a location lies.
pub open spec fn point_of(location: Location) -> Point {
    (location.x, location.y)
}

/// The four directions in the order in which the droid tries them.
pub open spec fn all_directions() -> Seq<Direction> {
    seq![Direction::North, Direction::South, Direction::West, Direction::East]
}

impl Direction {
    /// The step in this direction.
    pub fn dir(&self) -> (step: Location)
        ensures
            step == neighbour(Vector2 { x: 0, y: 0 }, *self),
    {
        match self {
            Direction::North => Location::new(0, 1),
            Direction::South => Location::new(0, -1),
            Direction::West => Location::new(-1, 0),
            Direction::East => Location::new(1, 0),
        }
    }

    /// The direction back.
    pub open spec fn spec_opposite(&self) -> Direction {
        match self {
            Direction::North => Direction::South,
            Direction::South => Direction::North,
            Direction::West => Direction::East,
            Direction::East => Direction::West,
        }
    }

    /// The direction back.
    #[verifier::when_used_as_spec(spec_opposite)]
    pub fn opposite(&self) -> (back: Direction)
        ensures
            back == self.spec_opposite(),
    {
        match self {
            Direction::North => Direction::South,
            Direction::South => Direction::North,
            Direction::West => Direction::East,
            Direction::East => Direction::West,
        }
    }

    /// The four directions in the order in which the droid tries them.
    pub fn all() -> (directions: [Direction; 4])
        ensures
            directions@ == all_directions(),
    {
        let directions = [Direction::North, Direction::South, Direction::West, Direction::East];
        directions
    }

    /// The number by which the program knows this direction: 1 to 4 in
    /// the order of the variants.
    pub open spec fn spec_code(&self) -> isize {
        match self {
            Direction::North => 1,
            Direction::South => 2,
            Direction::West => 3,
            Direction::East => 4,
        }
    }

    /// The number by which the program knows this direction.
    #[verifier::when_used_as_spec(spec_code)]
    pub fn code(&self) -> (code: isize)
        ensures
            code == self.spec_code(),
    {
        match self {
            Direction::North => 1,
            Direction::South => 2,
            Direction::West => 3,
            Direction::East => 4,
        }
    }
}

/// The neighbour of a location in a direction.
pub fn step(location: Location, direction: Direction) -> (next: Location)
    requires
        has_room(location),
    ensures
        next == neighbour(location, direction),
{
    location + direction.dir()
}

/// What the program answers to an attempted step.
#[derive(Debug, Copy, Clone, Eq, PartialEq, Structural)]
pub enum Status {
    BlockedByWall,
    Moved,
    FoundOxygenSystem,
}

/// The status that a number stands for: 0 to 2 in the order of the
/// variants. Any other number is handed back as the error.
pub open spec fn spec_status(value: isize) -> Result<Status, isize> {
    if value == 0 {
        Ok(Status::BlockedByWall)
    } else if value == 1 {
        Ok(Status::Moved)
    } else if value == 2 {
        Ok(Status::FoundOxygenSystem)
    } else {
        Err(value)
    }
}

impl Status {
    /// The status that a number stands for.
    pub fn try_from(value: isize) -> (status: Result<Status, isize>)
        ensures
            status == spec_status(value),
    {
        if value == 0 {
            Ok(Status::BlockedByWall)
        } else if value == 1 {
            Ok(Status::Moved)
        } else if value == 2 {
            Ok(Status::FoundOxygenSystem)
        } else {
            Err(value)
        }
    }

    /// What the droid has met at the position that it tried to step to.
    pub open spec fn tile(&self) -> Tile {
        match self {
            Status::BlockedByWall => Tile::Wall,
            Status::Moved => Tile::Empty,
            Status::FoundOxygenSystem => Tile::OxygenSystem,
        }
    }
}

/// What a position of the maze holds.
#[derive(Copy, Clone, Debug, PartialEq, Eq, Structural)]
pub enum Tile {
    Empty,
    Wall,
    OxygenSystem,
}

/// What the droid is doing.
#[derive(Debug, Copy, Clone, PartialEq, Eq, Structural)]
pub enum Behavior {
    Exploring,
    Backtracking,
    OxygenSystemFound,
}

/// What is known of the maze, and where the droid is: the model that the
/// contracts of `World` speak of.
pub struct WorldState {
    /// What each position that the droid has tried or stood on holds.
    pub visited: Map<Point, Tile>,
    pub oxygen: Option<Location>,
    pub droid: Location,
    /// The steps that have led the droid from the start to where it is,
    /// without those that it has walked back.
    pub path: Seq<Direction>,
    pub behavior: Behavior,
    pub explored_everything: bool,
}

impl WorldState {
    /// Whether a position is known and no wall.
    pub open spec fn is_open(self, location: Location) -> bool {
        self.visited.contains_key(point_of(location)) && self.visited[point_of(location)]
            != Tile::Wall
    }

    /// The first direction, in the order in which the droid tries them, in
    /// which the neighbour of its position is unknown.
    pub open spec fn unknown_direction(self) -> Option<Direction> {
        if !self.visited.contains_key(point_of(neighbour(self.droid, Direction::North))) {
            Some(Direction::North)
        } else if !self.visited.contains_key(point_of(neighbour(self.droid, Direction::South))) {
            Some(Direction::South)
        } else if !self.visited.contains_key(point_of(neighbour(self.droid, Direction::West))) {
            Some(Direction::West)
        } else if !self.visited.contains_key(point_of(neighbour(self.droid, Direction::East))) {
            Some(Direction::East)
        } else {
            None
        }
    }

    /// The world after the droid has chosen its next step: it explores
    /// where a neighbour is unknown, and else takes back the last step of
    /// its path.
    pub open spec fn chosen(self) -> (Self, Direction)
        recommends
            self.unknown_direction() is Some || self.path.len() > 0,
    {
        match self.unknown_direction() {
            Some(direction) => (WorldState { behavior: Behavior::Exploring, ..self }, direction),
            None => (
                WorldState {
                    behavior: Behavior::Backtracking,
                    path: self.path.drop_last(),
                    ..self
                },
                self.path.last().opposite(),
            ),
        }
    }

    /// The world after the droid has tried a step in `direction` and the
    /// program has answered with `status`: what the droid has met is noted at
    /// the neighbour; unless that is a wall the droid stands there now, and
    /// the step is added to its path if it is exploring. Everything is
    /// explored once the oxygen system is known and the path is empty.
    pub open spec fn updated(self, direction: Direction, status: Status) -> Self {
        let location = neighbour(self.droid, direction);
        let oxygen = if status == Status::FoundOxygenSystem {
            Some(location)
        } else {
            self.oxygen
        };
        let moved = status != Status::BlockedByWall;
        let path = if moved && self.behavior == Behavior::Exploring {
            self.path.push(direction)
        } else {
            self.path
        };
        WorldState {
            visited: self.visited.insert(point_of(location), status.tile()),
            oxygen,
            droid: if moved {
                location
            } else {
                self.droid
            },
            path,
            behavior: self.behavior,
            explored_everything: oxygen is Some && path.len() == 0,
        }
    }
}

/// What the droid knows of the maze.
pub struct World {
    pub visited_locations: PointMap<Tile>,
    pub oxygen_location: Option<Location>,
    pub droid_location: Location,
    /// The steps that have led the droid to where it is, without those
    /// that it has walked back.
    pub path: VecDeque<Direction>,
    pub behavior: Behavior,
    pub explored_everything: bool,
}

impl View for World {
    type V = WorldState;

    /// Field by field what the world holds: the map of visited positions
    /// and the path by their own views.
    open spec fn view(&self) -> WorldState {
        WorldState {
            visited: self.visited_locations@,
            oxygen: self.oxygen_location,
            droid: self.droid_location,
            path: self.path@,
            behavior: self.behavior,
            explored_everything: self.explored_everything,
        }
    }
}

impl World {
    /// Whether the map of visited positions is in order.
    pub open spec fn wf(&self) -> bool {
        self.visited_locations.wf()
    }

    /// The visited positions in the order in which they were first met.
    pub open spec fn visited_in_order(&self) -> Seq<Point> {
        self.visited_locations.keys()
    }

    /// What the public fields hold is what the view says: the map of
    /// visited positions, the oxygen system and the droid's position.
    pub proof fn lemma_fields(&self)
        ensures
            self.visited_locations@ == self@.visited,
            self.oxygen_location == self@.oxygen,
            self.droid_location == self@.droid,
            self.path@ == self@.path,
            self.behavior == self@.behavior,
            self.explored_everything == self@.explored_everything,
            self.visited_locations.keys() == self.visited_in_order(),
            self.visited_locations.wf() == self.wf(),
    {
    }

    /// The list of visited positions holds each of them once, and no other.
    pub proof fn lemma_visited_in_order(&self)
        requires
            self.wf(),
        ensures
            self.visited_in_order().no_duplicates(),
            forall|point: Point| #[trigger]
                self.visited_in_order().contains(point) <==> self@.visited.contains_key(point),
    {
        self.visited_locations.lemma_keys();
    }

    /// A world of which only the start is known: an empty position at the
    /// origin, on which the droid stands.
    pub fn new() -> (world: Self)
        ensures
            world.wf(),
            world@ == (WorldState {
                visited: Map::<Point, Tile>::empty().insert((0, 0), Tile::Empty),
                oxygen: None,
                droid: Vector2 { x: 0, y: 0 },
                path: Seq::empty(),
                behavior: Behavior::Exploring,
                explored_everything: false,
            }),
    {
        let mut visited_locations = PointMap::new();
        visited_locations.insert((0, 0), Tile::Empty);
        World {
            visited_locations,
            oxygen_location: None,
            droid_location: Location::default(),
            path: VecDeque::new(),
            behavior: Behavior::Exploring,
            explored_everything: false,
        }
    }

    /// Whether the oxygen system is known and the droid is back at the start.
    pub fn done_exploring(&self) -> (done: bool)
        ensures
            done == self@.explored_everything,
    {
        self.explored_everything
    }

    /// Whether a position is known and no wall.
    pub fn is_open(&self, location: Location) -> (open: bool)
        ensures
            open == self@.is_open(location),
    {
        match self.visited_locations.get((location.x, location.y)) {
            None => false,
            Some(tile) => match tile {
                Tile::Wall => false,
                _ => true,
            },
        }
    }

    /// The neighbours of `to` that are known and no wall, in the order of
    /// the directions.
    pub fn adjacent_open_locations(&self, to: Location) -> (open: Vec<Location>)
        requires
            has_room(to),
        ensures
            open@.no_duplicates(),
            forall|location: Location| #[trigger]
                open@.contains(location) <==> self@.is_open(location) && exists|
                    direction: Direction,
                |
                    neighbour(to, direction) == location,
    {
        let directions = Direction::all();
        let mut open: Vec<Location> = Vec::new();
        let mut index: usize = 0;
        while index < 4
            invariant
                index <= 4,
                has_room(to),
                directions@ == all_directions(),
                open@.no_duplicates(),
                forall|location: Location| #[trigger]
                    open@.contains(location) <==> self@.is_open(location) && exists|i: int|
                        0 <= i < index && neighbour(to, all_directions()[i]) == location,
            decreases 4 - index,
        {
            let new_location = step(to, directions[index]);
            let ghost before = open@;
            if self.is_open(new_location) {
                assert(!before.contains(new_location)) by {
                    if before.contains(new_location) {
                        let i = choose|i: int|
                            0 <= i < index && neighbour(to, all_directions()[i]) == new_location;
                    }
                }
                open.push(new_location);
                assert(open@[open@.len() - 1] == new_location);
            }
            proof {
                assert forall|location: Location| #[trigger]
                    open@.contains(location) <==> self@.is_open(location) && exists|i: int|
                        0 <= i < index + 1 && neighbour(to, all_directions()[i]) == location by {
                    if open@.contains(location) {
                        let k = choose|k: int| 0 <= k < open@.len() && open@[k] == location;
                        if k < before.len() {
                            assert(before.contains(location));
                            let i = choose|i: int|
                                0 <= i < index && neighbour(to, all_directions()[i]) == location;
                            assert(0 <= i < index + 1 && neighbour(to, all_directions()[i])
                                == location);
                        }
                    }
                    if self@.is_open(location) && exists|i: int|
                        0 <= i < index + 1 && neighbour(to, all_directions()[i]) == location {
                        let i = choose|i: int|
                            0 <= i < index + 1 && neighbour(to, all_directions()[i]) == location;
                        if i < index {
                            assert(before.contains(location));
                            let k = choose|k: int| 0 <= k < before.len() && before[k] == location;
                            assert(open@[k] == location);
                        }
                    }
                }
            }
            index = index + 1;
        }
        proof {
            assert forall|location: Location| #[trigger]
                open@.contains(location) <==> self@.is_open(location) && exists|
                    direction: Direction,
                |
                    neighbour(to, direction) == location by {
                if open@.contains(location) {
                    let i = choose|i: int|
                        0 <= i < 4 && neighbour(to, all_directions()[i]) == location;
                }
                if self@.is_open(location) && exists|direction: Direction|
                    neighbour(to, direction) == location {
                    let direction = choose|direction: Direction|
                        neighbour(to, direction) == location;
                }
            }
        }
        open
    }

    /// Chooses the droid's next step: towards the first neighbour that is
    /// unknown, and back along its path where all are known.
    pub fn next_direction(&mut self) -> (direction: Direction)
        requires
            old(self).wf(),
            has_room(old(self)@.droid),
            old(self)@.unknown_direction() is Some || old(self)@.path.len() > 0,
        ensures
            final(self).wf(),
            (final(self)@, direction) == old(self)@.chosen(),
    {
        let directions = Direction::all();
        let mut index: usize = 0;
        while index < 4
            invariant
                index <= 4,
                self == old(self),
                self.wf(),
                old(self)@.unknown_direction() is Some || old(self)@.path.len() > 0,
                has_room(self@.droid),
                directions@ == all_directions(),
                forall|i: int|
                    0 <= i < index ==> self@.visited.contains_key(
                        point_of(neighbour(self@.droid, #[trigger] all_directions()[i])),
                    ),
            decreases 4 - index,
        {
            let location = step(self.droid_location, directions[index]);
            if !self.visited_locations.contains_key((location.x, location.y)) {
                self.behavior = Behavior::Exploring;
                return directions[index];
            }
            index = index + 1;
        }
        self.behavior = Behavior::Backtracking;
        match self.path.pop_back() {
            Some(last) => last.opposite(),
            None => Direction::North,
        }
    }

    /// Notes what the droid has met when it tried a step.
    pub fn update(&mut self, direction: Direction, status: Status)
        requires
            old(self).wf(),
            has_room(old(self)@.droid),
        ensures
            final(self).wf(),
            final(self)@ == old(self)@.updated(direction, status),
    {
        let new_tile = match status {
            Status::BlockedByWall => Tile::Wall,
            Status::Moved => Tile::Empty,
            Status::FoundOxygenSystem => Tile::OxygenSystem,
        };
        let location = step(self.droid_location, direction);
        self.visited_locations.insert((location.x, location.y), new_tile);
        if new_tile == Tile::OxygenSystem {
            self.oxygen_location = Some(location);
        }
        match new_tile {
            Tile::Empty | Tile::OxygenSystem => {
                if self.behavior == Behavior::Exploring {
                    self.path.push_back(direction);
                }
                self.droid_location = location;
            },
            _ => (),
        }
        self.explored_everything = self.oxygen_location.is_some() && self.path.len() == 0;
    }
}

/// Whether two positions lie one step apart.
pub open spec fn adjacent(a: Location, b: Location) -> bool {
    ||| a.x == b.x && (a.y - b.y == 1 || b.y - a.y == 1)
    ||| a.y == b.y && (a.x - b.x == 1 || b.x - a.x == 1)
}

/// Whether `path` leads from `to` back to `from` step by step, over
/// positions that are known and no wall; only `from` itself need not be.
pub open spec fn is_walk(world: WorldState, path: Seq<Location>, from: Location, to: Location)
    -> bool {
    &&& path.len() > 0
    &&& path[0] == to
    &&& path.last() == from
    &&& forall|i: int|
        0 <= i < path.len() - 1 ==> adjacent(#[trigger] path[i], path[i + 1]) && world.is_open(
            path[i],
        )
}

/// Whether `path` is such a walk and no such walk is shorter.
pub open spec fn is_shortest_walk(
    world: WorldState,
    path: Seq<Location>,
    from: Location,
    to: Location,
) -> bool {
    &&& is_walk(world, path, from, to)
    &&& forall|other: Seq<Location>| #[trigger]
        is_walk(world, other, from, to) ==> path.len() <= other.len()
}

/// The state of a breadth-first search: the positions reached so far in
/// the order in which they were reached, with the position from which each
/// was reached and its distance from the start.
struct Search {
    order: Vec<Location>,
    parent: Vec<usize>,
    dist: Vec<usize>,
    index: PointMap<usize>,
}

impl Search {
    /// What holds of a search from `from` after the neighbours of the first
    /// `head` positions have been looked at.
    spec fn inv(&self, world: WorldState, from: Location, head: int) -> bool {
        let n = self.order@.len() as int;
        &&& self.index.wf()
        &&& n >= 1
        &&& self.parent@.len() == n
        &&& self.dist@.len() == n
        &&& 0 <= head <= n
        &&& self.order@[0] == from
        &&& self.dist@[0] == 0
        &&& forall|i: int|
            1 <= i < n ==> {
                &&& (#[trigger] self.parent@[i]) < i
                &&& self.dist@[i] == self.dist@[self.parent@[i] as int] + 1
                &&& adjacent(self.order@[i], self.order@[self.parent@[i] as int])
                &&& world.is_open(self.order@[i])
            }
        &&& forall|i: int|
            0 <= i < n ==> self.index@.contains_key(point_of(#[trigger] self.order@[i]))
                && self.index@[point_of(self.order@[i])] == i
        &&& forall|point: Point| #[trigger]
            self.index@.contains_key(point) ==> self.index@[point] < n && point_of(
                self.order@[self.index@[point] as int],
            ) == point
        &&& forall|i: int, j: int|
            0 <= i <= j < n ==> (#[trigger] self.dist@[i]) <= (#[trigger] self.dist@[j])
        &&& forall|i: int| 0 <= i < n && head < n ==> (#[trigger] self.dist@[i]) <= self.dist@[head] + 1
        &&& forall|i: int| 0 <= i < n ==> (#[trigger] self.dist@[i]) <= i
        &&& forall|i: int, location: Location|
            0 <= i < head && adjacent(location, #[trigger] self.order@[i]) && #[trigger] world.is_open(
                location,
            ) ==> self.reached_within(location, self.dist@[i] + 1)
    }

    /// Whether a position has been reached, at no more than `limit` steps
    /// from the start.
    spec fn reached_within(&self, location: Location, limit: int) -> bool {
        &&& self.index@.contains_key(point_of(location))
        &&& self.dist@[self.index@[point_of(location)] as int] <= limit
    }

    /// Looks at one neighbour of the position at `head`.
    fn visit(&mut self, world: &World, Ghost(from): Ghost<Location>, head: usize, location: Location)
        requires
            world.wf(),
            old(self).inv(world@, from, head as int),
            head < old(self).order@.len(),
            adjacent(location, old(self).order@[head as int]),
        ensures
            final(self).inv(world@, from, head as int),
            final(self).order@.len() >= old(self).order@.len(),
            final(self).order@[head as int] == old(self).order@[head as int],
            final(self).dist@[head as int] == old(self).dist@[head as int],
            world@.is_open(location) ==> final(self).reached_within(
                location,
                final(self).dist@[head as int] + 1,
            ),
            forall|other: Location, limit: int|
                old(self).reached_within(other, limit) ==> final(self).reached_within(other, limit),
    {
        if !world.is_open(location) {
            return ;
        }
        let point = (location.x, location.y);
        if self.index.contains_key(point) {
            return ;
        }
        let next = self.order.len();
        let distance = self.dist[head] + 1;
        self.order.push(location);
        self.parent.push(head);
        self.dist.push(distance);
        self.index.insert(point, next);
    }
}

/// Along a walk every position has been reached by a finished search,
/// at no more steps from the start than the walk takes to it.
proof fn lemma_walk_is_reached(
    search: Search,
    world: WorldState,
    from: Location,
    walk: Seq<Location>,
    steps: int,
)
    requires
        search.inv(world, from, search.order@.len() as int),
        is_walk(world, walk, from, walk[0]),
        0 <= steps < walk.len(),
    ensures
        search.reached_within(walk[walk.len() - 1 - steps], steps),
    decreases steps,
{
    if steps > 0 {
        lemma_walk_is_reached(search, world, from, walk, steps - 1);
    }
}

impl World {
    /// A shortest way from `to` back to `from` over positions that are
    /// known and no wall, both ends included. There is none where no way
    /// leads there.
    pub fn shortest_path(&self, from: Location, to: Location) -> (path: Option<Vec<Location>>)
        requires
            self.wf(),
        ensures
            match path {
                Some(found) => is_shortest_walk(self@, found@, from, to),
                None => forall|other: Seq<Location>| !is_walk(self@, other, from, to),
            },
    {
        let mut search = Search {
            order: Vec::new(),
            parent: Vec::new(),
            dist: Vec::new(),
            index: PointMap::new(),
        };
        search.order.push(from);
        search.parent.push(0);
        search.dist.push(0);
        search.index.insert((from.x, from.y), 0);
        let total = self.visited_locations.len();
        let mut head: usize = 0;
        while head < search.order.len()
            invariant
                self.wf(),
                search.inv(self@, from, head as int),
                total == self.visited_in_order().len(),
            decreases total + 1 - head,
        {
            proof {
                self.lemma_search_is_bounded(&search, from, head as int);
            }
            let current = search.order[head];
            if current.y < isize::MAX {
                search.visit(self, Ghost(from), head, Location::new(current.x, current.y + 1));
            }
            if current.y > isize::MIN {
                search.visit(self, Ghost(from), head, Location::new(current.x, current.y - 1));
            }
            if current.x > isize::MIN {
                search.visit(self, Ghost(from), head, Location::new(current.x - 1, current.y));
            }
            if current.x < isize::MAX {
                search.visit(self, Ghost(from), head, Location::new(current.x + 1, current.y));
            }
            proof {
                assert forall|location: Location|
                    adjacent(location, search.order@[head as int]) && #[trigger] self@.is_open(
                        location,
                    ) implies search.reached_within(location, search.dist@[head as int] + 1) by {
                    let north: Location = Vector2 { x: current.x, y: (current.y + 1) as isize };
                    let south: Location = Vector2 { x: current.x, y: (current.y - 1) as isize };
                    let west: Location = Vector2 { x: (current.x - 1) as isize, y: current.y };
                    let east: Location = Vector2 { x: (current.x + 1) as isize, y: current.y };
                    assert(location == north || location == south || location == west || location
                        == east);
                }
            }
            head = head + 1;
        }
        let target = match search.index.get((to.x, to.y)) {
            Some(position) => *position,
            None => {
                proof {
                    assert forall|other: Seq<Location>| !is_walk(self@, other, from, to) by {
                        if is_walk(self@, other, from, to) {
                            lemma_walk_is_reached(search, self@, from, other, other.len() - 1);
                        }
                    }
                }
                return None;
            },
        };
        let mut path: Vec<Location> = Vec::new();
        let mut current: usize = target;
        while current > 0
            invariant
                search.inv(self@, from, search.order@.len() as int),
                current < search.order@.len(),
                target < search.order@.len(),
                search.order@[target as int] == to,
                path@.len() + search.dist@[current as int] == search.dist@[target as int],
                path@.len() > 0 ==> path@[0] == to && adjacent(
                    path@.last(),
                    search.order@[current as int],
                ),
                path@.len() == 0 ==> current == target,
                forall|i: int| 0 <= i < path@.len() ==> self@.is_open(#[trigger] path@[i]),
                forall|i: int| 0 <= i < path@.len() - 1 ==> adjacent(#[trigger] path@[i], path@[i + 1]),
            decreases current,
        {
            path.push(search.order[current]);
            current = search.parent[current];
        }
        path.push(search.order[0]);
        proof {
            assert forall|other: Seq<Location>| #[trigger]
                is_walk(self@, other, from, to) implies path@.len() <= other.len() by {
                lemma_walk_is_reached(search, self@, from, other, other.len() - 1);
            }
        }
        Some(path)
    }

    /// A search holds no more positions than are known, and the start.
    proof fn lemma_search_is_bounded(&self, search: &Search, from: Location, head: int)
        requires
            self.wf(),
            search.inv(self@, from, head),
        ensures
            search.order@.len() <= self.visited_in_order().len() + 1,
    {
        self.lemma_visited_in_order();
        let reached = search.order@.subrange(1, search.order@.len() as int).map_values(
            |location: Location| point_of(location),
        );
        assert forall|point: Point| #[trigger] reached.contains(point) implies self.visited_in_order().contains(
            point,
        ) by {
            let i = choose|i: int| 0 <= i < reached.len() && reached[i] == point;
            assert(search.parent@[i + 1] < i + 1);
        }
        lemma_subset_len(reached, self.visited_in_order());
    }
}

/// Whether `bound` is the largest of `least`, the droid's coordinate and
/// the coordinates of all known positions; `horizontal` chooses between
/// the coordinates.
pub open spec fn is_upper_bound(world: WorldState, bound: isize, least: isize, horizontal: bool)
    -> bool {
    let droid = if horizontal {
        world.droid.x
    } else {
        world.droid.y
    };
    &&& bound >= least
    &&& bound >= droid
    &&& forall|point: Point| #[trigger]
        world.visited.contains_key(point) ==> bound >= if horizontal {
            point.0
        } else {
            point.1
        }
    &&& (bound == least || bound == droid || exists|point: Point| #[trigger]
        world.visited.contains_key(point) && bound == if horizontal {
            point.0
        } else {
            point.1
        })
}

/// Whether `bound` is the smallest of `most`, the droid's coordinate and
/// the coordinates of all known positions.
pub open spec fn is_lower_bound(world: WorldState, bound: isize, most: isize, horizontal: bool)
    -> bool {
    let droid = if horizontal {
        world.droid.x
    } else {
        world.droid.y
    };
    &&& bound <= most
    &&& bound <= droid
    &&& forall|point: Point| #[trigger]
        world.visited.contains_key(point) ==> bound <= if horizontal {
            point.0
        } else {
            point.1
        }
    &&& (bound == most || bound == droid || exists|point: Point| #[trigger]
        world.visited.contains_key(point) && bound == if horizontal {
            point.0
        } else {
            point.1
        })
}

impl World {
    /// The corners of the part of the maze that is known or lies within
    /// five steps of the start along an axis: first the corner with the
    /// largest coordinates, then the one with the smallest.
    pub fn known_bounds(&self) -> (bounds: (Location, Location))
        requires
            self.wf(),
        ensures
            is_upper_bound(self@, bounds.0.x, 5, true),
            is_upper_bound(self@, bounds.0.y, 5, false),
            is_lower_bound(self@, bounds.1.x, -5isize, true),
            is_lower_bound(self@, bounds.1.y, -5isize, false),
    {
        let droid = self.droid_location;
        let mut max_x: isize = if droid.x > 5 {
            droid.x
        } else {
            5
        };
        let mut max_y: isize = if droid.y > 5 {
            droid.y
        } else {
            5
        };
        let mut min_x: isize = if droid.x < -5 {
            droid.x
        } else {
            -5
        };
        let mut min_y: isize = if droid.y < -5 {
            droid.y
        } else {
            -5
        };
        let total = self.visited_locations.len();
        let mut position: usize = 0;
        proof {
            self.lemma_visited_in_order();
        }
        while position < total
            invariant
                position <= total == self.visited_in_order().len(),
                droid == self@.droid,
                forall|point: Point| #[trigger]
                    self.visited_in_order().contains(point) <==> self@.visited.contains_key(point),
                max_x >= 5 && max_x >= droid.x,
                max_y >= 5 && max_y >= droid.y,
                min_x <= -5 && min_x <= droid.x,
                min_y <= -5 && min_y <= droid.y,
                forall|i: int|
                    0 <= i < position ==> {
                        let point = #[trigger] self.visited_in_order()[i];
                        min_x <= point.0 <= max_x && min_y <= point.1 <= max_y
                    },
                max_x == 5 || max_x == droid.x || exists|i: int|
                    0 <= i < position && (#[trigger] self.visited_in_order()[i]).0 == max_x,
                max_y == 5 || max_y == droid.y || exists|i: int|
                    0 <= i < position && (#[trigger] self.visited_in_order()[i]).1 == max_y,
                min_x == -5 || min_x == droid.x || exists|i: int|
                    0 <= i < position && (#[trigger] self.visited_in_order()[i]).0 == min_x,
                min_y == -5 || min_y == droid.y || exists|i: int|
                    0 <= i < position && (#[trigger] self.visited_in_order()[i]).1 == min_y,
            decreases total - position,
        {
            let point = self.visited_locations.key_at(position);
            if point.0 > max_x {
                max_x = point.0;
            }
            if point.1 > max_y {
                max_y = point.1;
            }
            if point.0 < min_x {
                min_x = point.0;
            }
            if point.1 < min_y {
                min_y = point.1;
            }
            position = position + 1;
        }
        proof {
            assert forall|point: Point| #[trigger] self@.visited.contains_key(point) implies min_x
                <= point.0 <= max_x && min_y <= point.1 <= max_y by {
                assert(self.visited_in_order().contains(point));
                let i = choose|i: int|
                    0 <= i < self.visited_in_order().len() && self.visited_in_order()[i] == point;
            }
            if !(max_x == 5 || max_x == droid.x) {
                let i = choose|i: int|
                    0 <= i < position && (#[trigger] self.visited_in_order()[i]).0 == max_x;
                assert(self.visited_in_order().contains(self.visited_in_order()[i]));
            }
            if !(max_y == 5 || max_y == droid.y) {
                let i = choose|i: int|
                    0 <= i < position && (#[trigger] self.visited_in_order()[i]).1 == max_y;
                assert(self.visited_in_order().contains(self.visited_in_order()[i]));
            }
            if !(min_x == -5 || min_x == droid.x) {
                let i = choose|i: int|
                    0 <= i < position && (#[trigger] self.visited_in_order()[i]).0 == min_x;
                assert(self.visited_in_order().contains(self.visited_in_order()[i]));
            }
            if !(min_y == -5 || min_y == droid.y) {
                let i = choose|i: int|
                    0 <= i < position && (#[trigger] self.visited_in_order()[i]).1 == min_y;
                assert(self.visited_in_order().contains(self.visited_in_order()[i]));
            }
        }
        (Location::new(max_x, max_y), Location::new(min_x, min_y))
    }
}

/// The largest number of steps that the droid is given.
pub const STEP_LIMIT: u64 = 0xffff_ffff_ffff_ffff;

/// The world once everything is explored. The droid tries a step in
/// `direction`: the machine gets the direction's number as input and runs
/// to its next output, which says what the droid has met. Unless all is
/// explored then, the droid chooses its next step and goes on. There is
/// none where the run ends in a fault, the output is no status, the droid would
/// leave the range of machine words or has nowhere to go, or the steps
/// do not suffice.
pub open spec fn explore(
    machine: Machine<ConstantInput>,
    world: WorldState,
    direction: Direction,
    steps: nat,
) -> Option<WorldState>
    decreases steps,
{
    if steps == 0 || !has_room(world.droid) {
        None
    } else {
        let (next, result) = (Machine {
            input: Some(ConstantInput { value: Some(direction.code()) }),
            ..machine
        }).run(true, CYCLE_LIMIT as nat);
        if result is Ok && next.outputs.len() > 0 {
            match spec_status(next.outputs.last()) {
                Ok(status) => {
                    let seen = world.updated(direction, status);
                    if seen.explored_everything {
                        Some(seen)
                    } else if !has_room(seen.droid) || (seen.unknown_direction() is None
                        && seen.path.len() == 0) {
                        None
                    } else {
                        explore(next, seen.chosen().0, seen.chosen().1, (steps - 1) as nat)
                    }
                },
                Err(_) => None,
            }
        } else {
            None
        }
    }
}

/// The world as the droid of the program in `text` has explored it,
/// starting with a step north.
pub open spec fn explored_world(text: Seq<char>) -> Option<WorldState> {
    match integers(fields(text, seq![','])) {
        Some(program) => explore(
            Machine::load(program, Some(ConstantInput { value: Some(1) })),
            WorldState {
                visited: Map::<Point, Tile>::empty().insert((0, 0), Tile::Empty),
                oxygen: None,
                droid: Vector2 { x: 0, y: 0 },
                path: Seq::empty(),
                behavior: Behavior::Exploring,
                explored_everything: false,
            },
            Direction::North,
            STEP_LIMIT as nat,
        ),
        None => None,
    }
}

/// Lets the droid of the program in `input` explore the maze until it
/// has found the oxygen system and is back at the start.
pub fn explore_world(input: &str) -> (explored: Option<World>)
    ensures
        match explored {
            Some(world) => world.wf() && explored_world(input@) == Some(world@),
            None => explored_world(input@) is None,
        },
{
    proof {
        reveal_strlit(",");
        assert(","@ =~= seq![',']);
    }
    let program = match parse_custom_separated(input, ",") {
        Some(program) => program,
        None => { return None; },
    };
    let mut next_input = Direction::North;
    let mut world = World::new();
    let mut computer = Computer::new(program);
    computer.set_input(ConstantInput::new(next_input.code()));
    let mut steps: u64 = STEP_LIMIT;
    while steps > 0
        invariant
            world.wf(),
            explored_world(input@) == explore(computer@, world@, next_input, steps as nat),
        decreases steps,
    {
        let droid = world.droid_location;
        if !(isize::MIN < droid.x && droid.x < isize::MAX && isize::MIN < droid.y && droid.y
            < isize::MAX) {
            return None;
        }
        computer.set_input(ConstantInput::new(next_input.code()));
        let status = match computer.run_until_halt_or_paused(true) {
            Ok(_) => match computer.last_output() {
                Some(value) => match Status::try_from(value) {
                    Ok(status) => status,
                    Err(_) => { return None; },
                },
                None => { return None; },
            },
            Err(_) => { return None; },
        };
        world.update(next_input, status);
        if world.done_exploring() {
            return Some(world);
        }
        let droid = world.droid_location;
        if !(isize::MIN < droid.x && droid.x < isize::MAX && isize::MIN < droid.y && droid.y
            < isize::MAX) {
            return None;
        }
        if !world.has_next_direction() {
            return None;
        }
        next_input = world.next_direction();
        steps = steps - 1;
    }
    None
}

impl World {
    /// Whether the droid has somewhere to go: a neighbour that is
    /// unknown, or a step to take back.
    pub fn has_next_direction(&self) -> (possible: bool)
        requires
            has_room(self@.droid),
        ensures
            possible == (self@.unknown_direction() is Some || self@.path.len() > 0),
    {
        if self.path.len() > 0 {
            return true;
        }
        let north = step(self.droid_location, Direction::North);
        let south = step(self.droid_location, Direction::South);
        let west = step(self.droid_location, Direction::West);
        let east = step(self.droid_location, Direction::East);
        !self.visited_locations.contains_key((north.x, north.y))
            || !self.visited_locations.contains_key((south.x, south.y))
            || !self.visited_locations.contains_key((west.x, west.y))
            || !self.visited_locations.contains_key((east.x, east.y))
    }
}

/// The number of steps on a shortest way from the start to the oxygen
/// system in the maze of the program in `text`. There is none where the
/// maze cannot be explored, or no way is known.
pub open spec fn is_fewest_steps(text: Seq<char>, steps: Option<usize>) -> bool {
    match explored_world(text) {
        Some(world) => match (world.oxygen, steps) {
            (Some(oxygen), Some(count)) => exists|path: Seq<Location>|
                path.len() == count + 1 && #[trigger] is_shortest_walk(
                    world,
                    path,
                    Vector2 { x: 0, y: 0 },
                    oxygen,
                ),
            (Some(oxygen), None) => forall|path: Seq<Location>|
                !is_walk(world, path, Vector2 { x: 0, y: 0 }, oxygen),
            (None, _) => steps is None,
        },
        None => steps is None,
    }
}

/// The number of steps on a shortest way from the start to the oxygen system.
pub fn star_one(input: &str) -> (steps: Option<usize>)
    ensures
        is_fewest_steps(input@, steps),
{
    let world = match explore_world(input) {
        Some(world) => world,
        None => { return None; },
    };
    let oxygen_location = match world.oxygen_location {
        Some(location) => location,
        None => { return None; },
    };
    match world.shortest_path(Location::default(), oxygen_location) {
        Some(path) => {
            Some(path.len() - 1)
        },
        None => None,
    }
}

/// The position that lies at a point of the plane.
pub open spec fn location_of(point: Point) -> Location {
    Vector2 { x: point.0, y: point.1 }
}

/// The positions, known and no wall, that lie one step from a position of `edge`.
pub open spec fn open_neighbours(world: WorldState, edge: Set<Point>) -> Set<Point> {
    Set::new(
        |point: Point|
            world.is_open(location_of(point)) && exists|from: Point|
                edge.contains(from) && adjacent(location_of(point), #[trigger] location_of(from)),
    )
}

/// Whether every position of `edge` has four neighbours within the range
/// of machine words.
pub open spec fn all_have_room(edge: Set<Point>) -> bool {
    forall|point: Point| edge.contains(point) ==> has_room(#[trigger] location_of(point))
}

/// The number of minutes after which the oxygen has stopped spreading.
/// Each minute it spreads from the positions that it has reached last,
/// `edge`, to their neighbours that are known and no wall; it stops when
/// it reaches no new position. There is none where a position at the edge
/// of the range of machine words is reached, or the minutes do not fit a
/// machine word.
pub open spec fn spread(world: WorldState, oxidized: Set<Point>, edge: Set<Point>, minutes: usize)
    -> Option<usize>
    decreases usize::MAX - minutes,
{
    if !all_have_room(edge) {
        None
    } else {
        let reached = open_neighbours(world, edge);
        if reached.subset_of(oxidized) {
            Some(minutes)
        } else if minutes >= usize::MAX {
            None
        } else {
            spread(world, oxidized.union(reached), reached.difference(oxidized), (minutes + 1) as usize)
        }
    }
}

/// The number of minutes that the oxygen takes to fill the maze of the
/// program in `text`, from the oxygen system.
pub open spec fn spec_star_two(text: Seq<char>) -> Option<usize> {
    match explored_world(text) {
        Some(world) => match world.oxygen {
            Some(oxygen) => spread(world, set![point_of(oxygen)], set![point_of(oxygen)], 0),
            None => None,
        },
        None => None,
    }
}

/// The points of a list of positions.
pub open spec fn points_of(locations: Seq<Location>) -> Set<Point> {
    locations.map_values(|location: Location| point_of(location)).to_set()
}

proof fn lemma_points_of_push(locations: Seq<Location>, location: Location)
    ensures
        points_of(locations.push(location)) == points_of(locations).insert(point_of(location)),
{
    let mapped = locations.map_values(|location: Location| point_of(location));
    let longer = locations.push(location).map_values(|location: Location| point_of(location));
    assert(longer =~= mapped.push(point_of(location)));
    assert(points_of(locations.push(location)) =~= points_of(locations).insert(
        point_of(location),
    )) by {
        assert forall|point: Point|
            longer.to_set().contains(point) <==> mapped.to_set().insert(
                point_of(location),
            ).contains(point) by {
            if mapped.contains(point) {
                let i = choose|i: int| 0 <= i < mapped.len() && mapped[i] == point;
                assert(longer[i] == point);
            }
            if point == point_of(location) {
                assert(longer[longer.len() - 1] == point);
            }
        }
    }
}

proof fn lemma_points_of_take(locations: Seq<Location>, count: int)
    requires
        0 <= count < locations.len(),
    ensures
        points_of(locations.take(count + 1)) == points_of(locations.take(count)).insert(
            point_of(locations[count]),
        ),
{
    assert(locations.take(count + 1) =~= locations.take(count).push(locations[count]));
    lemma_points_of_push(locations.take(count), locations[count]);
}

/// One minute: the oxygen spreads from `edge` to the neighbours that it
/// has not reached before. The result holds the positions newly reached.
/// There is none where a position of `edge` lies at the edge of the range
/// of machine words.
fn spread_once(world: &World, oxidized: &mut PointMap<bool>, edge: &Vec<Location>) -> (reached:
    Option<Vec<Location>>)
    requires
        world.wf(),
        old(oxidized).wf(),
    ensures
        final(oxidized).wf(),
        match reached {
            Some(fresh) => {
                &&& all_have_room(points_of(edge@))
                &&& points_of(fresh@) == open_neighbours(world@, points_of(edge@)).difference(
                    old(oxidized)@.dom(),
                )
                &&& final(oxidized)@.dom() == old(oxidized)@.dom().union(
                    open_neighbours(world@, points_of(edge@)),
                )
                &&& (fresh@.len() == 0 <==> open_neighbours(world@, points_of(edge@)).subset_of(
                    old(oxidized)@.dom(),
                ))
            },
            None => !all_have_room(points_of(edge@)),
        },
{
    let mut fresh: Vec<Location> = Vec::new();
    let mut index: usize = 0;
    assert(points_of(edge@.take(0)) =~= Set::<Point>::empty());
    assert(open_neighbours(world@, Set::<Point>::empty()) =~= Set::<Point>::empty());
    while index < edge.len()
        invariant
            index <= edge@.len(),
            world.wf(),
            oxidized.wf(),
            all_have_room(points_of(edge@.take(index as int))),
            points_of(fresh@) == open_neighbours(
                world@,
                points_of(edge@.take(index as int)),
            ).difference(old(oxidized)@.dom()),
            oxidized@.dom() == old(oxidized)@.dom().union(
                open_neighbours(world@, points_of(edge@.take(index as int))),
            ),
        decreases edge@.len() - index,
    {
        let location = edge[index];
        proof {
            lemma_points_of_take(edge@, index as int);
        }
        if !(isize::MIN < location.x && location.x < isize::MAX && isize::MIN < location.y
            && location.y < isize::MAX) {
            proof {
                let mapped = edge@.map_values(|location: Location| point_of(location));
                assert(mapped[index as int] == point_of(location));
                assert(location_of(point_of(location)) == location);
            }
            return None;
        }
        let neighbours = world.adjacent_open_locations(location);
        let ghost done = points_of(edge@.take(index as int));
        let ghost now = points_of(edge@.take(index + 1));
        let ghost before = oxidized@.dom();
        let ghost fresh_before = points_of(fresh@);
        let mut position: usize = 0;
        while position < neighbours.len()
            invariant
                position <= neighbours@.len(),
                oxidized.wf(),
                oxidized@.dom() == before.union(points_of(neighbours@.take(position as int))),
                points_of(fresh@) == fresh_before.union(
                    points_of(neighbours@.take(position as int)).difference(before),
                ),
            decreases neighbours@.len() - position,
        {
            let neighbour = neighbours[position];
            proof {
                lemma_points_of_take(neighbours@, position as int);
            }
            if !oxidized.contains_key((neighbour.x, neighbour.y)) {
                oxidized.insert((neighbour.x, neighbour.y), true);
                proof {
                    lemma_points_of_push(fresh@, neighbour);
                }
                fresh.push(neighbour);
            }
            proof {
                let seen = points_of(neighbours@.take(position as int));
                let point = point_of(neighbour);
                assert(points_of(fresh@) =~= fresh_before.union(
                    seen.insert(point).difference(before),
                ));
            }
            position = position + 1;
        }
        proof {
            assert(neighbours@.take(neighbours@.len() as int) =~= neighbours@);
            let around = points_of(neighbours@);
            let mapped = neighbours@.map_values(|location: Location| point_of(location));
            assert forall|point: Point|
                around.contains(point) <==> world@.is_open(location_of(point)) && adjacent(
                    location_of(point),
                    location,
                ) by {
                if around.contains(point) {
                    assert(neighbours@.contains(location_of(point)));
                }
                if world@.is_open(location_of(point)) && adjacent(location_of(point), location) {
                    let north = neighbour(location, Direction::North);
                    let south = neighbour(location, Direction::South);
                    let west = neighbour(location, Direction::West);
                    let east = neighbour(location, Direction::East);
                    assert(location_of(point) == north || location_of(point) == south
                        || location_of(point) == west || location_of(point) == east);
                    assert(neighbours@.contains(location_of(point)));
                    let i = choose|i: int|
                        0 <= i < neighbours@.len() && neighbours@[i] == location_of(point);
                    assert(mapped[i] == point);
                }
            }
            assert(open_neighbours(world@, now) =~= open_neighbours(world@, done).union(around))
                by {
                assert forall|point: Point|
                    open_neighbours(world@, now).contains(point) <==> open_neighbours(
                        world@,
                        done,
                    ).union(around).contains(point) by {
                    if open_neighbours(world@, now).contains(point) {
                        let from = choose|from: Point|
                            now.contains(from) && adjacent(
                                location_of(point),
                                #[trigger] location_of(from),
                            );
                    }
                    if open_neighbours(world@, done).contains(point) {
                        let from = choose|from: Point|
                            done.contains(from) && adjacent(
                                location_of(point),
                                #[trigger] location_of(from),
                            );
                    }
                    if around.contains(point) {
                        assert(adjacent(location_of(point), location_of(point_of(location))));
                    }
                }
            }
            assert(points_of(fresh@) =~= open_neighbours(world@, now).difference(
                old(oxidized)@.dom(),
            ));
        }
        index = index + 1;
    }
    proof {
        assert(edge@.take(edge@.len() as int) =~= edge@);
        if fresh@.len() == 0 {
            assert(points_of(fresh@) =~= Set::<Point>::empty());
        } else {
            let mapped = fresh@.map_values(|location: Location| point_of(location));
            assert(points_of(fresh@).contains(mapped[0]));
        }
    }
    Some(fresh)
}

/// The number of minutes that the oxygen takes to fill the maze of the
/// program in `input`, from the oxygen system.
pub fn star_two(input: &str) -> (minutes: Option<usize>)
    ensures
        minutes == spec_star_two(input@),
{
    let world = match explore_world(input) {
        Some(world) => world,
        None => { return None; },
    };
    let oxygen = match world.oxygen_location {
        Some(location) => location,
        None => { return None; },
    };
    let mut oxidized: PointMap<bool> = PointMap::new();
    oxidized.insert((oxygen.x, oxygen.y), true);
    let mut oxygen_edge: Vec<Location> = Vec::new();
    oxygen_edge.push(oxygen);
    let mut minutes: usize = 0;
    proof {
        lemma_points_of_push(Seq::<Location>::empty(), oxygen);
        assert(points_of(Seq::<Location>::empty()) =~= Set::<Point>::empty());
    }
    loop
        invariant
            world.wf(),
            oxidized.wf(),
            spec_star_two(input@) == spread(
                world@,
                oxidized@.dom(),
                points_of(oxygen_edge@),
                minutes,
            ),
        decreases usize::MAX - minutes,
    {
        let fresh = match spread_once(&world, &mut oxidized, &oxygen_edge) {
            Some(fresh) => fresh,
            None => { return None; },
        };
        if fresh.len() == 0 {
            return Some(minutes);
        }
        if minutes == usize::MAX {
            return None;
        }
        minutes = minutes + 1;
        oxygen_edge = fresh;
    }
}

/// The character that shows a position: `D` for the droid, `X` for the
/// start, `?` for what is unknown, `.` for an empty position, `#` for a
/// wall and `O` for the oxygen system.
pub open spec fn tile_char(world: WorldState, location: Location) -> char {
    if location == world.droid {
        'D'
    } else if location == (Vector2 { x: 0isize, y: 0isize }) {
        'X'
    } else if !world.visited.contains_key(point_of(location)) {
        '?'
    } else {
        match world.visited[point_of(location)] {
            Tile::Empty => '.',
            Tile::Wall => '#',
            Tile::OxygenSystem => 'O',
        }
    }
}

/// The first `count` characters of a row of the map: the positions of
/// row `y` from column `left` rightwards.
pub open spec fn map_row(world: WorldState, y: int, left: int, count: int) -> Seq<char>
    decreases count,
{
    if count <= 0 {
        Seq::empty()
    } else {
        map_row(world, y, left, count - 1).push(
            tile_char(world, Vector2 { x: (left + count - 1) as isize, y: y as isize }),
        )
    }
}

/// The first `count` rows of the map, from row `top` downwards to smaller
/// numbers, with a line feed between two rows; each row runs from column
/// `left` to column `right`.
pub open spec fn map_rows(world: WorldState, top: int, left: int, right: int, count: int) -> Seq<
    char,
>
    decreases count,
{
    if count <= 0 {
        Seq::empty()
    } else if count == 1 {
        map_row(world, top, left, right - left + 1)
    } else {
        map_rows(world, top, left, right, count - 1) + seq!['\n'] + map_row(
            world,
            top - (count - 1),
            left,
            right - left + 1,
        )
    }
}

impl World {
    /// The map of what is known, between a line feed before and one
    /// after: the rows from the top one down, each from left to right.
    pub fn render(&self) -> (text: String)
        requires
            self.wf(),
        ensures
            exists|max: Location, min: Location|
                {
                    &&& is_upper_bound(self@, max.x, 5, true)
                    &&& is_upper_bound(self@, max.y, 5, false)
                    &&& is_lower_bound(self@, min.x, -5isize, true)
                    &&& is_lower_bound(self@, min.y, -5isize, false)
                    &&& text@ == seq!['\n'] + #[trigger] map_rows(
                        self@,
                        max.y as int,
                        min.x as int,
                        max.x as int,
                        max.y - min.y + 1,
                    ) + seq!['\n']
                },
    {
        let (max, min) = self.known_bounds();
        let top = max.y;
        let bottom = min.y;
        let right = max.x;
        let left = min.x;
        proof {
            reveal_strlit("\n");
            reveal_strlit("D");
            reveal_strlit("X");
            reveal_strlit("?");
            reveal_strlit(".");
            reveal_strlit("#");
            reveal_strlit("O");
        }
        let mut result = String::from_str("\n");
        let ghost world = self@;
        let mut y: isize = top;
        loop
            invariant_except_break
                result@ == seq!['\n'] + map_rows(
                    world,
                    top as int,
                    left as int,
                    right as int,
                    top - y,
                ) + if y < top {
                    seq!['\n']
                } else {
                    Seq::<char>::empty()
                },
            invariant
                bottom <= y <= top,
                left <= right,
                self.wf(),
                world == self@,
                "D"@ == seq!['D'],
                "X"@ == seq!['X'],
                "?"@ == seq!['?'],
                "."@ == seq!['.'],
                "#"@ == seq!['#'],
                "O"@ == seq!['O'],
                "\n"@ == seq!['\n'],
            ensures
                result@ == seq!['\n'] + map_rows(
                    world,
                    top as int,
                    left as int,
                    right as int,
                    top - bottom + 1,
                ),
            decreases y - bottom,
        {
            let ghost before = result@;
            let mut x: isize = left;
            loop
                invariant_except_break
                    result@ == before + map_row(world, y as int, left as int, x - left),
                invariant
                    left <= x <= right,
                    self.wf(),
                    world == self@,
                    "D"@ == seq!['D'],
                    "X"@ == seq!['X'],
                    "?"@ == seq!['?'],
                    "."@ == seq!['.'],
                    "#"@ == seq!['#'],
                    "O"@ == seq!['O'],
                ensures
                    result@ == before + map_row(world, y as int, left as int, right - left + 1),
                decreases right - x,
            {
                let location = Location::new(x, y);
                if location == self.droid_location {
                    result.append("D");
                } else if x == 0 && y == 0 {
                    result.append("X");
                } else {
                    match self.visited_locations.get((x, y)) {
                        None => {
                            result.append("?");
                        },
                        Some(tile) => match tile {
                            Tile::Empty => {
                                result.append(".");
                            },
                            Tile::Wall => {
                                result.append("#");
                            },
                            Tile::OxygenSystem => {
                                result.append("O");
                            },
                        },
                    }
                }
                if x == right {
                    break ;
                }
                x = x + 1;
            }
            proof {
                let row = map_row(world, y as int, left as int, right - left + 1);
                if y == top {
                    assert(before + row =~= seq!['\n'] + map_rows(
                        world,
                        top as int,
                        left as int,
                        right as int,
                        1,
                    ));
                } else {
                    assert(before + row =~= seq!['\n'] + map_rows(
                        world,
                        top as int,
                        left as int,
                        right as int,
                        top - y + 1,
                    ));
                }
            }
            if y == bottom {
                break ;
            }
            result.append("\n");
            y = y - 1;
        }
        result.append("\n");
        assert(map_rows(world, top as int, left as int, right as int, top - bottom + 1)
            == map_rows(self@, max.y as int, min.x as int, max.x as int, max.y - min.y + 1));
        result
    }
}

} // verus!
