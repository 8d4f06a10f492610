use advent_of_rust_2019::day03::{
    manhattan_distance, star_one, star_two, wire, Direction, Step,
};

#[test]
fn day03_test_star_one() {
    assert_eq!(
        star_one("R75,D30,R83,U83,L12,D49,R71,U7,L72\nU62,R66,U55,R34,D71,R55,D58,R83"),
        Some(159)
    );
    assert_eq!(
        star_one(
            "R98,U47,R26,D63,R33,U87,L62,D20,R33,U53,R51\nU98,R91,D20,R16,D67,R40,U7,R15,U6,R7"
        ),
        Some(135)
    );
}

#[test]
fn day03_test_star_two() {
    assert_eq!(
        star_two("R75,D30,R83,U83,L12,D49,R71,U7,L72\nU62,R66,U55,R34,D71,R55,D58,R83"),
        Some(610)
    );
    assert_eq!(
        star_two(
            "R98,U47,R26,D63,R33,U87,L62,D20,R33,U53,R51\nU98,R91,D20,R16,D67,R40,U7,R15,U6,R7"
        ),
        Some(410)
    );
}

fn chars(text: &str) -> Vec<char> {
    text.chars().collect()
}

#[test]
fn reading_steps() {
    assert_eq!(
        Step::from_chars(&chars("R75")),
        Some(Step { direction: Direction::R, steps: 75 })
    );
    assert_eq!(
        Step::from_chars(&chars("u+3")),
        Some(Step { direction: Direction::U, steps: 3 })
    );
    assert_eq!(
        Step::from_chars(&chars("l0")),
        Some(Step { direction: Direction::L, steps: 0 })
    );
    assert_eq!(
        Step::from_chars(&chars("D007")),
        Some(Step { direction: Direction::D, steps: 7 })
    );
    assert_eq!(Step::from_chars(&chars("")), None);
    assert_eq!(Step::from_chars(&chars("R")), None);
    assert_eq!(Step::from_chars(&chars("X5")), None);
    assert_eq!(Step::from_chars(&chars("R-5")), None);
    assert_eq!(Step::from_chars(&chars("R 5")), None);
    assert_eq!(Step::from_chars(&chars("5")), None);
    assert_eq!(Direction::from_chars(&chars("r")), Some(Direction::R));
    assert_eq!(Direction::from_chars(&chars("rr")), None);
    assert_eq!(Direction::from_chars(&chars("")), None);
}

#[test]
fn unit_steps() {
    assert_eq!(Step { direction: Direction::R, steps: 9 }.dir(), (1, 0));
    assert_eq!(Step { direction: Direction::U, steps: 9 }.dir(), (0, -1));
    assert_eq!(Step { direction: Direction::L, steps: 9 }.dir(), (-1, 0));
    assert_eq!(Step { direction: Direction::D, steps: 9 }.dir(), (0, 1));
}

#[test]
fn distances_along_the_axes() {
    assert_eq!(manhattan_distance(&(0, 0), &(3, -4)), 7);
    assert_eq!(manhattan_distance(&(-2, 5), &(3, -4)), 14);
    assert_eq!(manhattan_distance(&(3, 3), &(3, 3)), 0);
    assert_eq!(
        manhattan_distance(&(isize::MIN, 0), &(isize::MAX, 0)),
        usize::MAX
    );
}

#[test]
fn a_wire_notes_the_first_visit_and_leaves_out_its_end() {
    // Right 2, down 1, left 1, up 1, right 1: the wire crosses (1, 0) again.
    let path = vec![
        Step { direction: Direction::R, steps: 2 },
        Step { direction: Direction::D, steps: 1 },
        Step { direction: Direction::L, steps: 1 },
        Step { direction: Direction::U, steps: 1 },
        Step { direction: Direction::R, steps: 1 },
    ];
    let wires = wire(&vec![path, vec![]]).unwrap();
    assert_eq!(wires.len(), 2);
    assert_eq!(wires[0].len(), 5);
    assert_eq!(wires[0].get((0, 0)), Some(&0));
    assert_eq!(wires[0].get((1, 0)), Some(&1));
    assert_eq!(wires[0].get((2, 0)), Some(&2));
    assert_eq!(wires[0].get((2, 1)), Some(&3));
    assert_eq!(wires[0].get((1, 1)), Some(&4));
    // The end of the wire, (2, 0) again, would be at length 6; it is left out.
    assert_eq!(wires[0].get((3, 0)), None);
    assert_eq!(wires[1].len(), 0);
}

#[test]
fn crossings_need_two_wires() {
    assert_eq!(star_one("R8,U5,L5,D3"), None);
    assert_eq!(star_one("R8,U5,L5,D3\nU7,R6,D4,L4\nR1"), None);
    assert_eq!(star_one("\nR8,U5,L5,D3\nU7,R6,D4,L4"), None);
    assert_eq!(star_one(""), None);
    assert_eq!(star_one("R8,U5,L5,D3\nU7,R6,D4,L4\n"), Some(6));
    assert_eq!(star_two("R8,U5,L5,D3\nU7,R6,D4,L4\n"), Some(30));
    assert_eq!(star_one("R8,U5,L5,D3\r\nU7,R6,D4,L4\r\n"), Some(6));
    assert_eq!(star_one(" R8 , U5,,L5,D3\nU7,R6,D4,L4"), Some(6));
}

#[test]
fn crossings_that_do_not_count() {
    // The wires meet at their start only.
    assert_eq!(star_one("R3\nL3"), None);
    assert_eq!(star_two("R3\nU3"), None);
    // A step that cannot be read.
    assert_eq!(star_one("R3,Q1\nU3"), None);
    // The second wire ends on the first: its end is left out.
    assert_eq!(star_one("R5\nD2,R3,U2"), None);
    assert_eq!(star_one("R5\nD2,R3,U3"), Some(3));
    assert_eq!(star_two("R5\nD2,R3,U3"), Some(10));
}
