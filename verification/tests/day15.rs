use advent_of_rust_2019::day15::{
    explore_world, star_one, star_two, step, Direction, Location, Status, Tile, World,
};

/// A program that answers the droid's steps with the given digits, one
/// after the other, whatever the steps are.
fn program(answers: &str) -> String {
    let mut cells: Vec<String> = Vec::new();
    for answer in answers.chars() {
        cells.push(format!("3,1000,104,{}", answer));
    }
    cells.push("99".to_string());
    cells.join(",")
}

// ###
// #O#
// #S#
// ###
const TINY: &str = "20001";

// #####
// #O..#
// ###.#
// #S..#
// #####
const BEND: &str = "0001001110102001101010011";

// #########
// #..O#...#
// #.###.#.#
// #.....#.#
// ###.###.#
// #S..#...#
// #########
const ROOMS: &str =
    "00010011101011100102001110101110011101001011110100100011010100101011111111011";

// ######
// #....#
// #.O..#
// #....#
// #S...#
// ######
const OPEN: &str = "11100102110111101011100101010111101121110101";

#[test]
fn fewest_steps_to_the_oxygen_system() {
    assert_eq!(star_one(&program(TINY)), Some(1));
    assert_eq!(star_one(&program(BEND)), Some(6));
    assert_eq!(star_one(&program(ROOMS)), Some(10));
    assert_eq!(star_one(&program(OPEN)), Some(3));
}

#[test]
fn minutes_until_the_oxygen_has_spread() {
    assert_eq!(star_two(&program(TINY)), Some(1));
    assert_eq!(star_two(&program(BEND)), Some(6));
    assert_eq!(star_two(&program(ROOMS)), Some(18));
    assert_eq!(star_two(&program(OPEN)), Some(4));
}

#[test]
fn exploring_ends_back_at_the_start() {
    let world = explore_world(&program(BEND)).unwrap();
    assert!(world.done_exploring());
    assert_eq!(world.droid_location, Location::new(0, 0));
    assert_eq!(world.oxygen_location, Some(Location::new(0, 2)));
    assert_eq!(world.visited_locations.len(), 20);
    assert_eq!(world.visited_locations.get((0, 2)), Some(&Tile::OxygenSystem));
    assert_eq!(world.visited_locations.get((1, 0)), Some(&Tile::Empty));
    assert_eq!(world.visited_locations.get((0, 1)), Some(&Tile::Wall));
    assert_eq!(world.visited_locations.get((7, 7)), None);
    let world = explore_world(&program(ROOMS)).unwrap();
    assert_eq!(world.visited_locations.len(), 56);
    assert_eq!(
        world.known_bounds(),
        (Location::new(7, 5), Location::new(-5, -5))
    );
}

#[test]
fn mazes_that_cannot_be_explored() {
    assert!(explore_world("98").is_none());
    // An answer that is no status.
    assert_eq!(star_one(&program("7")), None);
    // No answer at all.
    assert_eq!(star_two("99"), None);
    assert_eq!(star_two("3,x"), None);
    // Walls on all four sides: the droid has nowhere to go.
    assert_eq!(star_one(&program("0000")), None);
}

#[test]
fn a_halted_program_answers_with_its_last_output() {
    // The program halts before the droid is back: its last answer, a wall,
    // is read again and noted at the start.
    let world = explore_world(&program("2000")).unwrap();
    assert!(world.done_exploring());
    assert_eq!(world.droid_location, Location::new(0, 1));
    assert_eq!(world.visited_locations.get((0, 0)), Some(&Tile::Wall));
    assert_eq!(star_one(&program("2000")), Some(1));
    assert_eq!(star_two(&program("2000")), Some(0));
}

#[test]
fn directions() {
    assert_eq!(Direction::North.dir(), Location::new(0, 1));
    assert_eq!(Direction::South.dir(), Location::new(0, -1));
    assert_eq!(Direction::West.dir(), Location::new(-1, 0));
    assert_eq!(Direction::East.dir(), Location::new(1, 0));
    for direction in Direction::all() {
        assert_eq!(direction.opposite().opposite(), direction);
        assert_ne!(direction.opposite(), direction);
        assert_eq!(
            step(step(Location::new(3, -4), direction), direction.opposite()),
            Location::new(3, -4)
        );
    }
    assert_eq!(
        Direction::all(),
        [Direction::North, Direction::South, Direction::West, Direction::East]
    );
    assert_eq!(Direction::North.code(), 1);
    assert_eq!(Direction::South.code(), 2);
    assert_eq!(Direction::West.code(), 3);
    assert_eq!(Direction::East.code(), 4);
}

#[test]
fn statuses_from_numbers() {
    assert_eq!(Status::try_from(0), Ok(Status::BlockedByWall));
    assert_eq!(Status::try_from(1), Ok(Status::Moved));
    assert_eq!(Status::try_from(2), Ok(Status::FoundOxygenSystem));
    assert_eq!(Status::try_from(3), Err(3));
    assert_eq!(Status::try_from(-1), Err(-1));
}

#[test]
fn a_new_world_knows_its_start_only() {
    let mut world = World::new();
    assert!(!world.done_exploring());
    assert_eq!(world.droid_location, Location::new(0, 0));
    assert_eq!(world.oxygen_location, None);
    assert_eq!(world.visited_locations.len(), 1);
    assert_eq!(world.visited_locations.get((0, 0)), Some(&Tile::Empty));
    assert_eq!(
        world.known_bounds(),
        (Location::new(5, 5), Location::new(-5, -5))
    );
    assert!(world.adjacent_open_locations(Location::new(0, 0)).is_empty());
    assert_eq!(
        world.adjacent_open_locations(Location::new(0, 1)),
        vec![Location::new(0, 0)]
    );
    assert!(world.has_next_direction());
    assert_eq!(world.next_direction(), Direction::North);
}

#[test]
fn updating_and_choosing_steps() {
    let mut world = World::new();
    world.update(Direction::North, Status::BlockedByWall);
    assert_eq!(world.droid_location, Location::new(0, 0));
    assert_eq!(world.visited_locations.get((0, 1)), Some(&Tile::Wall));
    assert_eq!(world.next_direction(), Direction::South);
    world.update(Direction::South, Status::Moved);
    assert_eq!(world.droid_location, Location::new(0, -1));
    assert_eq!(world.visited_locations.get((0, -1)), Some(&Tile::Empty));
    // North of the droid is the start, which is known.
    assert_eq!(world.next_direction(), Direction::South);
    world.update(Direction::South, Status::BlockedByWall);
    assert_eq!(world.next_direction(), Direction::West);
    world.update(Direction::West, Status::FoundOxygenSystem);
    assert_eq!(world.droid_location, Location::new(-1, -1));
    assert_eq!(world.oxygen_location, Some(Location::new(-1, -1)));
    assert!(!world.done_exploring());
    world.update(Direction::North, Status::BlockedByWall);
    world.update(Direction::South, Status::BlockedByWall);
    world.update(Direction::West, Status::BlockedByWall);
    // All neighbours are known: the droid walks back, east and then north.
    assert_eq!(world.next_direction(), Direction::East);
    world.update(Direction::East, Status::Moved);
    assert!(!world.done_exploring());
    // East of (0, -1) is still unknown.
    assert_eq!(world.next_direction(), Direction::East);
    world.update(Direction::East, Status::BlockedByWall);
    assert_eq!(world.next_direction(), Direction::North);
    world.update(Direction::North, Status::Moved);
    assert!(world.done_exploring());
    assert_eq!(world.droid_location, Location::new(0, 0));
    assert_eq!(
        world.adjacent_open_locations(Location::new(0, -1)),
        vec![Location::new(0, 0), Location::new(-1, -1)]
    );
    assert_eq!(
        world.known_bounds(),
        (Location::new(5, 5), Location::new(-5, -5))
    );
}

fn assert_is_walk(world: &World, path: &[Location], from: Location, to: Location) {
    assert_eq!(path.first(), Some(&to));
    assert_eq!(path.last(), Some(&from));
    for pair in path.windows(2) {
        assert_eq!(pair[0].manhattan_distance(pair[1]), 1);
        assert!(world.is_open(pair[0]));
    }
}

#[test]
fn shortest_paths() {
    let world = explore_world(&program(ROOMS)).unwrap();
    let start = Location::new(0, 0);
    let oxygen = Location::new(2, 4);

    let path = world.shortest_path(start, oxygen).unwrap();
    assert_eq!(path.len(), 11);
    assert_is_walk(&world, &path, start, oxygen);

    let back = world.shortest_path(oxygen, start).unwrap();
    assert_eq!(back.len(), 11);
    assert_is_walk(&world, &back, oxygen, start);

    let far = Location::new(6, 4);
    let path = world.shortest_path(oxygen, far).unwrap();
    assert_eq!(path.len(), 13);
    assert_is_walk(&world, &path, oxygen, far);
    let corner = Location::new(6, 0);
    let path = world.shortest_path(start, corner).unwrap();
    assert_eq!(path.len(), 15);
    assert_is_walk(&world, &path, start, corner);

    assert_eq!(world.shortest_path(start, start), Some(vec![start]));
    // A wall, and a position that the droid has never seen.
    assert_eq!(world.shortest_path(start, Location::new(0, 1)), None);
    assert_eq!(world.shortest_path(start, Location::new(40, 40)), None);
    // From a wall one step leads to the open position beside it.
    assert_eq!(
        world.shortest_path(Location::new(0, 1), start),
        Some(vec![start, Location::new(0, 1)])
    );
    assert_eq!(
        world.shortest_path(Location::new(40, 40), Location::new(40, 40)),
        Some(vec![Location::new(40, 40)])
    );
}

#[test]
fn bounds_follow_the_droid_and_what_it_has_seen() {
    let mut world = World::new();
    for _ in 0..7 {
        world.update(Direction::East, Status::Moved);
    }
    world.update(Direction::East, Status::BlockedByWall);
    for _ in 0..6 {
        world.update(Direction::South, Status::Moved);
    }
    assert_eq!(world.droid_location, Location::new(7, -6));
    assert_eq!(
        world.known_bounds(),
        (Location::new(8, 5), Location::new(-5, -6))
    );
}

#[test]
fn the_map_as_text() {
    let world = World::new();
    let rows: Vec<String> = (0..11)
        .map(|row| if row == 5 { "?????D?????".to_string() } else { "???????????".to_string() })
        .collect();
    assert_eq!(world.render(), format!("\n{}\n", rows.join("\n")));

    let mut world = World::new();
    world.update(Direction::North, Status::BlockedByWall);
    world.update(Direction::East, Status::FoundOxygenSystem);
    world.update(Direction::East, Status::Moved);
    world.update(Direction::West, Status::Moved);
    world.update(Direction::South, Status::BlockedByWall);
    // The droid stands on the oxygen system at (1, 0).
    let text = world.render();
    let lines: Vec<&str> = text.split('\n').collect();
    assert_eq!(lines.len(), 13);
    assert_eq!(lines[0], "");
    assert_eq!(lines[12], "");
    assert_eq!(lines[5], "?????#?????");
    assert_eq!(lines[6], "?????XD.???");
    assert_eq!(lines[7], "??????#????");


    let mut world = World::new();
    world.update(Direction::East, Status::FoundOxygenSystem);
    world.update(Direction::North, Status::Moved);
    let text = world.render();
    let lines: Vec<&str> = text.split('\n').collect();
    // The droid has left the oxygen system northwards.
    assert_eq!(lines[5], "??????D????");
    assert_eq!(lines[6], "?????XO????");
    world.update(Direction::South, Status::Moved);
    world.update(Direction::West, Status::Moved);
    let text = world.render();
    let lines: Vec<&str> = text.split('\n').collect();
    // The droid has stepped on the oxygen system again, which has made
    // the position an empty one, and stands on the start.
    assert_eq!(lines[5], "??????.????");
    assert_eq!(lines[6], "?????D.????");
    assert_eq!(world.oxygen_location, Some(Location::new(1, 0)));
}
