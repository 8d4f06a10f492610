use advent_of_rust_2019::day12::{energy, star_one, star_two, timestemp, Vector};

const TEST_INPUT_SMALL: &'static str = "
<x=-1, y=0, z=2>
<x=2, y=-10, z=-7>
<x=4, y=-8, z=8>
<x=3, y=5, z=-1>";
const TEST_INPUT_LARGE: &'static str = "
<x=-8, y=-10, z=0>
<x=5, y=5, z=10>
<x=2, y=-7, z=3>
<x=9, y=-8, z=-3>";

#[test]
fn day12_test_star_one_small() {
    assert_eq!(star_one(TEST_INPUT_SMALL, 10), Some(179));
}

#[test]
fn test_star_two_small() {
    assert_eq!(star_two(TEST_INPUT_SMALL), Some(vec![18, 28, 44]));
}

#[test]
fn day12_test_star_two_large() {
    assert_eq!(star_two(TEST_INPUT_LARGE), Some(vec![2028, 5898, 4702]));
}

#[test]
fn energy_after_a_hundred_steps() {
    assert_eq!(star_one(TEST_INPUT_LARGE, 100), Some(1940));
    assert_eq!(star_one(TEST_INPUT_SMALL, 0), Some(0));
}

fn chars(text: &str) -> Vec<char> {
    text.chars().collect()
}

#[test]
fn reading_vectors() {
    assert_eq!(
        Vector::from_chars(&chars("<x=-1, y=0, z=2>")),
        Some(Vector::new(-1, 0, 2))
    );
    assert_eq!(
        Vector::from_chars(&chars("  <<z=3,y=+2 ,x=1,,w=9>>  ")),
        Some(Vector::new(1, 2, 3))
    );
    // The last part that names a coordinate decides.
    assert_eq!(
        Vector::from_chars(&chars("x=1,y=2,z=3,x=4")),
        Some(Vector::new(4, 2, 3))
    );
    // Only what stands between the first and the second `=` is read.
    assert_eq!(
        Vector::from_chars(&chars("x=1=7,y=2,z=3")),
        Some(Vector::new(1, 2, 3))
    );
    assert_eq!(Vector::from_chars(&chars("<x=1, y=2>")), None);
    assert_eq!(Vector::from_chars(&chars("<x=1, y=2, z=a>")), None);
    assert_eq!(Vector::from_chars(&chars("<x=1, y=2, z=3, ab>")), None);
    assert_eq!(Vector::from_chars(&chars("<x=1, y=2, z= 3>")), None);
    assert_eq!(Vector::from_chars(&chars("<x =1, y=2, z=3>")), None);
    assert_eq!(Vector::from_chars(&chars("")), None);
}

#[test]
fn vector_parts() {
    let vector = Vector::new(1, -2, 3);
    assert_eq!(vector.axis(0), 1);
    assert_eq!(vector.axis(1), -2);
    assert_eq!(vector.axis(2), 3);
    assert_eq!(vector + Vector::new(10, 10, 10), Vector::new(11, 8, 13));
    assert_eq!(Vector::default(), Vector::new(0, 0, 0));
}

#[test]
fn one_time_step() {
    let positions = vec![
        Vector::new(-1, 0, 2),
        Vector::new(2, -10, -7),
        Vector::new(4, -8, 8),
        Vector::new(3, 5, -1),
    ];
    let velocities = vec![Vector::default(); 4];
    let (moved, changed) = timestemp(&positions, &velocities).unwrap();
    assert_eq!(
        moved,
        vec![
            Vector::new(2, -1, 1),
            Vector::new(3, -7, -4),
            Vector::new(1, -7, 5),
            Vector::new(2, 2, 0),
        ]
    );
    assert_eq!(
        changed,
        vec![
            Vector::new(3, -1, -1),
            Vector::new(1, 3, 3),
            Vector::new(-3, 1, -3),
            Vector::new(-1, -3, 1),
        ]
    );
    // Moons without a velocity still pull, but do not move.
    let (moved, changed) = timestemp(&positions, &velocities[..1]).unwrap();
    assert_eq!(moved, vec![Vector::new(2, -1, 1)]);
    assert_eq!(changed, vec![Vector::new(3, -1, -1)]);
}

#[test]
fn time_step_and_energy_keep_to_machine_words() {
    let far = vec![Vector::new(isize::MAX, 0, 0), Vector::new(0, 0, 0)];
    let fast = vec![Vector::new(2, 0, 0), Vector::new(0, 0, 0)];
    assert_eq!(timestemp(&far, &fast), None);
    assert_eq!(energy(&far, &fast), None);
    assert_eq!(
        energy(&[Vector::new(isize::MIN, 0, 0)], &[Vector::new(0, 0, 0)]),
        None
    );
    assert_eq!(
        energy(&[Vector::new(-3, 4, 0)], &[Vector::new(1, -1, 1)]),
        Some(21)
    );
    assert_eq!(energy(&[], &[]), Some(0));
}

#[test]
fn moons_that_cannot_be_read() {
    assert_eq!(star_one("<x=1, y=2>", 1), None);
    assert_eq!(star_two("<x=1, y=2, z=q>"), None);
    assert_eq!(star_two(""), Some(vec![1, 1, 1]));
}
