use advent_of_rust_2019::day01::{fuel, recursive_fuel, star_one, star_two};

#[test]
fn day01_test_star_one() {
    assert_eq!(star_one("12\n12"), Some(4));
}

#[test]
fn day01_test_star_two() {
    assert_eq!(star_two("14\n1969\n100756"), Some(2 + 966 + 50346));
}

#[test]
fn fuel_of_single_masses() {
    assert_eq!(fuel(12), 2);
    assert_eq!(fuel(14), 2);
    assert_eq!(fuel(1969), 654);
    assert_eq!(fuel(100756), 33583);
    assert_eq!(fuel(0), -2);
    assert_eq!(fuel(-7), -4);
    assert_eq!(fuel(i64::MIN), i64::MIN / 3 - 2);
    assert_eq!(fuel(i64::MAX), i64::MAX / 3 - 2);
}

#[test]
fn recursive_fuel_adds_to_what_it_is_given() {
    assert_eq!(recursive_fuel(14, 0), 2);
    assert_eq!(recursive_fuel(1969, 0), 966);
    assert_eq!(recursive_fuel(100756, 10), 50356);
    assert_eq!(recursive_fuel(2, 5), 5);
}

#[test]
fn fuel_sum_fails_on_bad_lines_and_on_overflow() {
    assert_eq!(star_one("12\nabc"), None);
    assert_eq!(star_two("12\n1 2"), None);
    assert_eq!(star_one(""), Some(0));
    let huge = "9223372036854775807\n9223372036854775807\n9223372036854775807\n9223372036854775807";
    assert_eq!(star_one(huge), None);
    assert_eq!(star_one("9223372036854775808"), None);
    assert_eq!(star_one("  9 \r\n\n 9\n"), Some(2));
}
