use advent_of_rust_2019::day08::{digit_count, star_one, star_two};

#[test]
fn day08_test_star_one() {
    assert_eq!(star_one("123456789012", 3, 2), Some(1));
}

#[test]
fn day08_test_star_two() {
    assert_eq!(
        star_two("0222112222120000", 2, 2),
        Some("01\n10".to_string())
    );

    // 020
    // 102

    // 120
    // 002

    // 010
    // 002

    // 000
    // 001
    assert_eq!(
        star_two("020102120002010002000001", 3, 2),
        Some("010\n101".to_string())
    )
}

#[test]
fn counting_digits_of_a_number() {
    assert_eq!(digit_count(0, 0), 1);
    assert_eq!(digit_count(1000, 0), 3);
    assert_eq!(digit_count(1212, 2), 2);
    assert_eq!(digit_count(1212, 3), 0);
    assert_eq!(digit_count(7, 7), 1);
    assert_eq!(digit_count(77, 77), 0);
}

#[test]
fn checksum_takes_the_first_of_equal_layers() {
    // Both layers hold one zero; the first has 2 ones and 1 two.
    assert_eq!(star_one("01120122", 2, 2), Some(2));
    // A last layer may be short.
    assert_eq!(star_one("0011" .to_string().as_str(), 3, 1), Some(0));
    assert_eq!(star_one("001112", 3, 1), Some(2));
}

#[test]
fn checksum_fails_without_layers() {
    assert_eq!(star_one("", 3, 2), None);
    assert_eq!(star_one("1234", 0, 2), None);
    assert_eq!(star_one("12a4", 2, 2), None);
    assert_eq!(star_one("1234", usize::MAX, 2), None);
}

#[test]
fn image_fails_on_what_cannot_be_shown() {
    assert_eq!(star_two("2222", 2, 2), None);
    assert_eq!(star_two("0123", 2, 2), None);
    assert_eq!(star_two("01201", 2, 2), None);
    assert_eq!(star_two("", 2, 2), None);
    assert_eq!(star_two("0101", 0, 2), None);
    assert_eq!(star_two("01x1", 2, 2), None);
    assert_eq!(star_two("1 0\n0 1", 4, 1), Some("1001".to_string()));
    assert_eq!(star_two("10", 1, 2), Some("1\n0".to_string()));
}
