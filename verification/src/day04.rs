//! Passwords: numbers whose digits never fall from left to right and that
//! hold the same digit twice in a row.

use crate::digits::{decimal_digits, digits_of};
use vstd::prelude::*;

verus! {

/// Whether no digit is smaller than the digit to its left. The digits are
/// given lowest first, so none may be larger than the one before it.
pub open spec fn never_falls(digits: Seq<usize>) -> bool {
    forall|i: int| 0 <= i < digits.len() - 1 ==> #[trigger] digits[i + 1] <= digits[i]
}

/// Whether two digits next to each other are the same.
pub open spec fn has_pair(digits: Seq<usize>) -> bool {
    exists|i: int| 0 <= i < digits.len() - 1 && #[trigger] digits[i + 1] == digits[i]
}

/// Whether the digits at `i` and `i + 1` are the same and no neighbour of
/// the two is the same as they are.
pub open spec fn is_exact_pair(digits: Seq<usize>, i: int) -> bool {
    &&& 0 <= i < digits.len() - 1
    &&& digits[i + 1] == digits[i]
    &&& (i == 0 || digits[i - 1] != digits[i])
    &&& (i + 2 >= digits.len() || digits[i + 2] != digits[i])
}

/// Whether some digit stands exactly twice in a row.
pub open spec fn has_exact_pair(digits: Seq<usize>) -> bool {
    exists|i: int| #[trigger] is_exact_pair(digits, i)
}

/// Whether a number is a password by the first rule.
pub open spec fn valid_part1(password: nat) -> bool {
    has_pair(decimal_digits(password)) && never_falls(decimal_digits(password))
}

/// Whether a number is a password by the second rule.
pub open spec fn valid_part2(password: nat) -> bool {
    has_exact_pair(decimal_digits(password)) && never_falls(decimal_digits(password))
}

/// Whether no digit is smaller than the digit to its left.
fn check_never_falls(digits: &Vec<usize>) -> (holds: bool)
    ensures
        holds == never_falls(digits@),
{
    let mut index: usize = 1;
    while index < digits.len()
        invariant
            1 <= index,
            forall|i: int| 0 <= i < index - 1 && i < digits@.len() - 1 ==> #[trigger] digits@[i + 1]
                <= digits@[i],
        decreases digits@.len() - index,
    {
        if digits[index] > digits[index - 1] {
            assert(!(digits@[(index - 1) + 1] <= digits@[index - 1]));
            return false;
        }
        index = index + 1;
    }
    true
}

/// Whether a number is a password by the first rule: two digits next to
/// each other are the same, and the digits never fall from left to right.
pub fn is_valid_password_part1(password: usize) -> (valid: bool)
    ensures
        valid == valid_part1(password as nat),
{
    let digits = digits_of(password);
    let mut has_adjacent_numbers = false;
    let mut index: usize = 1;
    while index < digits.len()
        invariant
            1 <= index,
            has_adjacent_numbers == exists|i: int|
                0 <= i < index - 1 && i < digits@.len() - 1 && #[trigger] digits@[i + 1]
                    == digits@[i],
        decreases digits@.len() - index,
    {
        if digits[index] == digits[index - 1] {
            assert(digits@[(index - 1) + 1] == digits@[index - 1]);
            has_adjacent_numbers = true;
        }
        index = index + 1;
    }
    let rises = check_never_falls(&digits);
    has_adjacent_numbers && rises
}

/// Whether a number is a password by the second rule: some digit stands
/// exactly twice in a row, and the digits never fall from left to right.
pub fn is_valid_password_part2(password: usize) -> (valid: bool)
    ensures
        valid == valid_part2(password as nat),
{
    let digits = digits_of(password);
    let length = digits.len();
    let mut found = false;
    let mut index: usize = 1;
    while index < length
        invariant
            1 <= index,
            length == digits@.len(),
            found == exists|i: int| 0 <= i < index - 1 && #[trigger] is_exact_pair(digits@, i),
        decreases length - index,
    {
        let same = digits[index] == digits[index - 1];
        let fresh = index == 1 || digits[index - 2] != digits[index];
        let ends = index + 1 >= length || digits[index + 1] != digits[index];
        if same && fresh && ends {
            assert(is_exact_pair(digits@, index - 1));
            found = true;
        }
        index = index + 1;
    }
    let rises = check_never_falls(&digits);
    found && rises
}

/// How many of the numbers from `low` up to `high`, both included, are
/// passwords by the first rule (`strict` unset) or the second.
pub open spec fn count_valid(low: int, high: int, strict: bool) -> nat
    decreases high - low + 1,
{
    if low > high || high < 0 {
        0
    } else {
        let valid = if strict {
            valid_part2(high as nat)
        } else {
            valid_part1(high as nat)
        };
        count_valid(low, high - 1, strict) + if valid {
            1nat
        } else {
            0nat
        }
    }
}

proof fn lemma_count_from_zero(high: int, strict: bool)
    requires
        0 <= high,
    ensures
        count_valid(0, high, strict) <= high,
    decreases high,
{
    if high > 0 {
        lemma_count_from_zero(high - 1, strict);
    } else {
        assert(count_valid(0, -1, strict) == 0);
    }
}

/// Counts the passwords from `low` up to `high`, both included.
fn count_passwords(low: usize, high: usize, strict: bool) -> (count: usize)
    ensures
        count == count_valid(low as int, high as int, strict),
{
    if low > high {
        return 0;
    }
    let mut count: usize = 0;
    let mut password: usize = low;
    while password < high
        invariant
            low <= password <= high,
            count == count_valid(low as int, password - 1, strict),
            count <= password - low,
        decreases high - password,
    {
        let valid = if strict {
            is_valid_password_part2(password)
        } else {
            is_valid_password_part1(password)
        };
        if valid {
            count = count + 1;
        }
        password = password + 1;
    }
    let valid = if strict {
        is_valid_password_part2(high)
    } else {
        is_valid_password_part1(high)
    };
    proof {
        if low == 0 && high > 0 {
            lemma_count_from_zero(high - 1, strict);
        }
    }
    if valid {
        count = count + 1;
    }
    count
}

/// How many numbers from `low` up to `high`, both included, are passwords
/// by the first rule.
pub fn star_one(low: usize, high: usize) -> (count: usize)
    ensures
        count == count_valid(low as int, high as int, false),
{
    count_passwords(low, high, false)
}

/// How many numbers from `low` up to `high`, both included, are passwords
/// by the second rule.
pub fn star_two(low: usize, high: usize) -> (count: usize)
    ensures
        count == count_valid(low as int, high as int, true),
{
    count_passwords(low, high, true)
}

} // verus!
