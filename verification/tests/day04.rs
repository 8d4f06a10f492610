use advent_of_rust_2019::day04::{
    is_valid_password_part1, is_valid_password_part2, star_one, star_two,
};
use advent_of_rust_2019::DigitIterator;

fn collect_digits(number: usize) -> Vec<usize> {
    DigitIterator::new(number).collect()
}

#[test]
fn test_digit_iterator() {
    assert_eq!(collect_digits(1000), vec![0, 0, 0, 1]);
    assert_eq!(collect_digits(1), vec![1]);
    assert_eq!(collect_digits(10), vec![0, 1]);
    assert_eq!(collect_digits(12345), vec![5, 4, 3, 2, 1]);
}

#[test]
fn test_is_valid_password_part2() {
    assert_eq!(is_valid_password_part2(558999), true);
    assert_eq!(is_valid_password_part2(577899), true);
}

#[test]
fn digit_iterator_hands_out_zero_once() {
    let mut digits = DigitIterator::new(0);
    assert_eq!(digits.next(), Some(0));
    assert_eq!(digits.next(), None);
    assert_eq!(digits.next(), None);
    let mut digits = DigitIterator::new(70);
    assert_eq!(digits.next(), Some(0));
    assert_eq!(digits.next(), Some(7));
    assert_eq!(digits.next(), None);
    assert_eq!(
        collect_digits(usize::MAX),
        vec![5, 1, 6, 1, 5, 5, 9, 0, 7, 3, 7, 0, 4, 4, 7, 6, 4, 4, 8, 1]
    );
}

#[test]
fn passwords_by_the_first_rule() {
    assert_eq!(is_valid_password_part1(111111), true);
    assert_eq!(is_valid_password_part1(223450), false);
    assert_eq!(is_valid_password_part1(123789), false);
    assert_eq!(is_valid_password_part1(122345), true);
    assert_eq!(is_valid_password_part1(0), false);
    assert_eq!(is_valid_password_part1(7), false);
    assert_eq!(is_valid_password_part1(11), true);
}

#[test]
fn passwords_by_the_second_rule() {
    assert_eq!(is_valid_password_part2(112233), true);
    assert_eq!(is_valid_password_part2(123444), false);
    assert_eq!(is_valid_password_part2(111122), true);
    assert_eq!(is_valid_password_part2(111111), false);
    assert_eq!(is_valid_password_part2(221), false);
    assert_eq!(is_valid_password_part2(0), false);
    assert_eq!(is_valid_password_part2(11), true);
    assert_eq!(is_valid_password_part2(111), false);
    assert_eq!(is_valid_password_part2(1122), true);
}

#[test]
fn counting_passwords_in_a_range() {
    assert_eq!(star_one(136760, 595730), 1873);
    assert_eq!(star_two(136760, 595730), 1264);
    assert_eq!(star_one(10, 22), 2);
    assert_eq!(star_two(110, 112), 1);
    assert_eq!(star_one(11, 11), 1);
    assert_eq!(star_one(12, 11), 0);
    assert_eq!(star_one(0, 0), 0);
}
