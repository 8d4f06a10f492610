use advent_of_rust_2019::day16::{calculate_pattern_digit, phase_with_offset, star_one, star_two};

#[test]
fn day16_test_star_one() {
    // assert_eq!(star_one("12345678"), 24176176);
    assert_eq!(
        star_one("80871224585914546619083218645595"),
        Some(vec![2, 4, 1, 7, 6, 1, 7, 6])
    );
    assert_eq!(
        star_one("19617804207202209144916044189917"),
        Some(vec![7, 3, 7, 4, 5, 4, 1, 8])
    );
    assert_eq!(
        star_one("69317163492948606335995924319873"),
        Some(vec![5, 2, 4, 3, 2, 1, 3, 3])
    );
}

#[test]
fn day16_test_star_two() {
    assert_eq!(
        star_two("03036732577212944063491565474664"),
        Some(vec![8, 4, 4, 6, 2, 0, 2, 6])
    );
}

#[test]
fn test_calculate_pattern_digit() {
    assert_eq!(calculate_pattern_digit(1, 0), 1);
    assert_eq!(calculate_pattern_digit(8, 0), 0);
    assert_eq!(calculate_pattern_digit(3, 2), 1);
    assert_eq!(calculate_pattern_digit(3, 11), 0);
    assert_eq!(calculate_pattern_digit(4, 7), 0);
    assert_eq!(calculate_pattern_digit(7, 5), 0);
    assert_eq!(calculate_pattern_digit(7, 6), 1);
    assert_eq!(calculate_pattern_digit(15, 39), 0);
    assert_eq!(calculate_pattern_digit(15, 39), 0);
    assert_eq!(calculate_pattern_digit(5973181, 5973181), 1);
    assert_eq!(calculate_pattern_digit(5973181, 5973180), 1);
    assert_eq!(calculate_pattern_digit(5973181, 5973179), 0);
}

#[test]
fn pattern_runs_through_all_four_values() {
    let row: Vec<isize> = (0..12).map(|idx| calculate_pattern_digit(2, idx)).collect();
    assert_eq!(row, vec![0, 1, 1, 0, 0, -1, -1, 0, 0, 1, 1, 0]);
    assert_eq!(calculate_pattern_digit(1, usize::MAX), 0);
    assert_eq!(calculate_pattern_digit(usize::MAX, usize::MAX), 1);
    assert_eq!(calculate_pattern_digit(1, 2), -1);
}

#[test]
fn single_phases() {
    assert_eq!(
        phase_with_offset(vec![1, 2, 3, 4, 5, 6, 7, 8], 0),
        vec![4, 8, 2, 2, 6, 1, 5, 8]
    );
    assert_eq!(
        phase_with_offset(vec![4, 8, 2, 2, 6, 1, 5, 8], 0),
        vec![3, 4, 0, 4, 0, 4, 3, 8]
    );
    // Far into a signal a phase is a sum of what follows.
    assert_eq!(phase_with_offset(vec![5, 6, 7, 8], 4), vec![6, 1, 5, 8]);
    assert_eq!(phase_with_offset(vec![], 0), Vec::<isize>::new());
}

#[test]
fn short_and_broken_signals() {
    assert_eq!(star_one("1"), Some(vec![1]));
    assert_eq!(star_one(""), Some(vec![]));
    assert_eq!(star_one("12a"), None);
    assert_eq!(star_two("12a"), None);
    assert_eq!(star_two(""), None);
    // Offset zero lies before the signal.
    assert_eq!(star_two("00000001234"), None);
    // The offset lies behind the repeated signal.
    assert_eq!(star_two("99999991"), None);
    // The last digit of the repeated signal stays as it is.
    assert_eq!(star_two("00800007"), Some(vec![]));
    assert_eq!(star_two("00799993"), Some(vec![3]));
}
