use advent_of_rust_2019::day06::{all_orbits, orbit_count, parse, star_one, star_two};

const TEST_INPUT_PART_1: &str = "
COM)B
B)C
D)E
E)F
B)G
D)I
G)H
E)J
J)K
K)L
C)D
    ";

const TEST_INPUT_PART_2: &str = "
COM)B
B)C
C)D
D)E
E)F
B)G
G)H
D)I
E)J
J)K
K)L
K)YOU
I)SAN
";

fn chars(text: &str) -> Vec<char> {
    text.chars().collect()
}

#[test]
fn test_orbit_count() {
    let orbits = parse(TEST_INPUT_PART_1).unwrap();

    assert_eq!(orbit_count(&chars("L"), &orbits, None), Some(7));
    assert_eq!(orbit_count(&chars("COM"), &orbits, None), Some(0));
    assert_eq!(orbit_count(&chars("D"), &orbits, None), Some(3));
    assert_eq!(orbit_count(&chars("C"), &orbits, None), Some(2));
}

#[test]
fn day06_test_star_one() {
    assert_eq!(star_one(TEST_INPUT_PART_1), Some(42));
}

#[test]
fn day06_test_star_two() {
    assert_eq!(star_two(TEST_INPUT_PART_2), Some(4));
}

#[test]
fn orbits_up_to_a_target() {
    let orbits = parse(TEST_INPUT_PART_2).unwrap();
    assert_eq!(orbit_count(&chars("YOU"), &orbits, Some(&chars("D"))), Some(4));
    assert_eq!(orbit_count(&chars("SAN"), &orbits, Some(&chars("D"))), Some(2));
    assert_eq!(orbit_count(&chars("SAN"), &orbits, Some(&chars("I"))), Some(1));
    // A target that is not on the way: all orbits are counted.
    assert_eq!(orbit_count(&chars("SAN"), &orbits, Some(&chars("K"))), Some(5));
    assert_eq!(orbit_count(&chars("COM"), &orbits, Some(&chars("K"))), Some(0));
    assert_eq!(orbit_count(&chars("NOBODY"), &orbits, None), None);
}

#[test]
fn centres_from_the_outermost_inwards() {
    let orbits = parse(TEST_INPUT_PART_2).unwrap();
    assert_eq!(
        all_orbits(&chars("SAN"), &orbits),
        Some(vec![chars("COM"), chars("B"), chars("C"), chars("D"), chars("I")])
    );
    assert_eq!(all_orbits(&chars("COM"), &orbits), Some(vec![]));
    assert_eq!(all_orbits(&chars("NOBODY"), &orbits), Some(vec![]));
}

#[test]
fn maps_that_cannot_be_read() {
    assert!(parse("COM)B\nB-C").is_none());
    assert!(parse("COM)B)C").is_none());
    assert_eq!(star_one("COM)B\nB"), None);
    assert_eq!(star_two("COM)B\n)"), None);
    assert!(parse("").is_some());
    assert_eq!(star_one(""), Some(0));
    assert_eq!(star_one("  COM ) B  \n\n B)C\r\n"), Some(3));
}

#[test]
fn a_later_line_moves_an_object() {
    // C circles B first and then COM.
    assert_eq!(star_one("COM)B\nB)C\nCOM)C"), Some(2));
    let orbits = parse("COM)B\nB)C\nCOM)C").unwrap();
    assert_eq!(orbit_count(&chars("C"), &orbits, None), Some(1));
}

#[test]
fn orbits_in_a_circle_have_no_count() {
    assert_eq!(star_one("A)B\nB)A"), None);
    assert_eq!(star_one("A)A"), None);
    let orbits = parse("A)B\nB)C\nC)A").unwrap();
    assert_eq!(orbit_count(&chars("A"), &orbits, None), None);
    assert_eq!(orbit_count(&chars("A"), &orbits, Some(&chars("B"))), Some(2));
    assert_eq!(all_orbits(&chars("A"), &orbits), None);
    assert_eq!(star_two("YOU)SAN\nSAN)YOU"), None);
}

#[test]
fn transfers_need_a_common_centre() {
    assert_eq!(star_two("A)YOU\nB)SAN"), None);
    assert_eq!(star_two("A)YOU"), None);
    assert_eq!(star_two("A)YOU\nA)SAN"), Some(0));
    assert_eq!(star_two("COM)A\nA)YOU\nCOM)SAN"), Some(1));
}
