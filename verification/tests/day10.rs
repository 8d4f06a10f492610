use advent_of_rust_2019::day10::{asteroids, best_station, visible_count, Point};

const SMALLEST_TEST_CASE: &'static str = "
.#..#
.....
#####
....#
...##
";

#[test]
fn asteroids_row_by_row() {
    assert_eq!(
        asteroids(SMALLEST_TEST_CASE),
        vec![
            Point::new(1, 0),
            Point::new(4, 0),
            Point::new(0, 2),
            Point::new(1, 2),
            Point::new(2, 2),
            Point::new(3, 2),
            Point::new(4, 2),
            Point::new(4, 3),
            Point::new(3, 4),
            Point::new(4, 4),
        ]
    );
    assert_eq!(asteroids(""), vec![]);
    assert_eq!(asteroids("...\n..."), vec![]);
    assert_eq!(asteroids("#"), vec![Point::new(0, 0)]);
    // White space inside the map counts as a column.
    assert_eq!(asteroids("  # #\n #\n"), vec![Point::new(0, 0), Point::new(2, 0), Point::new(1, 1)]);
    assert_eq!(asteroids("#\r\n#"), vec![Point::new(0, 0), Point::new(0, 1)]);
}

#[test]
fn as_many_are_seen_as_there_are_directions() {
    assert_eq!(visible_count(vec![]), 0);
    assert_eq!(visible_count(vec![7]), 1);
    assert_eq!(visible_count(vec![7, 7, 7]), 1);
    assert_eq!(visible_count(vec![3, -1, 3, 2, -1, 3]), 3);
    assert_eq!(visible_count(vec![5, 4, 3, 2, 1]), 5);
    assert_eq!(visible_count(vec![1, 2, 1, 2, 1, 2]), 2);
    assert_eq!(visible_count(vec![isize::MAX, isize::MIN, 0, isize::MAX]), 3);
}

#[test]
fn the_last_of_the_best_stations_wins() {
    let a = (Point::new(0, 0), 3);
    let b = (Point::new(1, 0), 5);
    let c = (Point::new(2, 0), 5);
    let d = (Point::new(3, 0), 1);
    assert_eq!(best_station(&vec![]), None);
    assert_eq!(best_station(&vec![a]), Some(a));
    assert_eq!(best_station(&vec![a, b, c, d]), Some(c));
    assert_eq!(best_station(&vec![b, a, d]), Some(b));
    assert_eq!(best_station(&vec![d, a, b]), Some(b));
}
