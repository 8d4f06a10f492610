//! A signal of decimal digits that is cleaned in phases: each digit of a
//! phase is a sum of the digits before the phase, weighted by a repeating
//! pattern, of which only the last decimal digit is kept.

use crate::parsing::{
    chars_of,
    copy_range,
    fields,
    integers,
    parse_custom_separated,
    parse_usize,
    spec_parse_usize,
};
use vstd::arithmetic::div_mod::{lemma_fundamental_div_mod, lemma_fundamental_div_mod_converse};
use vstd::prelude::*;

verus! {

/// The base pattern: 0, 1, 0, -1.
pub open spec fn base_pattern(index: int) -> int {
    if index == 1 {
        1
    } else if index == 3 {
        -1
    } else {
        0
    }
}

/// The weight at `idx` in the pattern for `repeat_count`: the base pattern
/// with each value `repeat_count` times in a row, over and over, without
/// its very first value.
pub open spec fn pattern_digit(repeat_count: int, idx: int) -> int
    recommends
        repeat_count > 0,
        idx >= 0,
{
    base_pattern(((idx + 1) / repeat_count) % 4)
}

/// The weight at `idx` in the pattern for `repeat_count`.
pub fn calculate_pattern_digit(repeat_count: usize, idx: usize) -> (digit: isize)
    requires
        repeat_count > 0,
    ensures
        digit == pattern_digit(repeat_count as int, idx as int),
{
    let quotient = idx / repeat_count;
    let remainder = idx % repeat_count;
    let repeats = if remainder + 1 == repeat_count {
        (quotient % 4 + 1) % 4
    } else {
        quotient % 4
    };
    proof {
        lemma_fundamental_div_mod(idx as int, repeat_count as int);
        assert(repeat_count * (idx / repeat_count) == (idx / repeat_count) * repeat_count)
            by (nonlinear_arith);
        if remainder + 1 == repeat_count {
            assert(idx + 1 == (quotient + 1) * repeat_count + 0) by (nonlinear_arith)
                requires
                    idx == quotient * repeat_count + remainder,
                    remainder + 1 == repeat_count,
            ;
            lemma_fundamental_div_mod_converse(
                idx + 1,
                repeat_count as int,
                quotient + 1,
                0,
            );
        } else {
            lemma_fundamental_div_mod_converse(
                idx + 1,
                repeat_count as int,
                quotient as int,
                remainder + 1,
            );
        }
    }
    if repeats == 1 {
        1
    } else if repeats == 3 {
        -1
    } else {
        0
    }
}

/// Whether every value is a decimal digit, from 0 to 9.
pub open spec fn all_decimal(digits: Seq<isize>) -> bool {
    forall|i: int| 0 <= i < digits.len() ==> 0 <= #[trigger] digits[i] <= 9
}

/// The sum of the first `upto` digits, each times its weight in the
/// pattern of row `row`.
pub open spec fn weighted_sum(digits: Seq<isize>, offset: int, row: int, upto: int) -> int
    decreases upto,
{
    if upto <= 0 {
        0
    } else {
        weighted_sum(digits, offset, row, upto - 1) + digits[upto - 1] * pattern_digit(
            offset + row + 1,
            offset + upto - 1,
        )
    }
}

/// The last decimal digit of a number, whatever its sign.
pub open spec fn last_digit(value: int) -> int {
    if value < 0 {
        (-value) % 10
    } else {
        value % 10
    }
}

/// One phase over digits that stand at `offset` in a longer signal.
pub open spec fn phase(digits: Seq<isize>, offset: int) -> Seq<isize> {
    Seq::new(
        digits.len(),
        |row: int| last_digit(weighted_sum(digits, offset, row, digits.len() as int)) as isize,
    )
}

proof fn lemma_weighted_sum_bound(digits: Seq<isize>, offset: int, row: int, upto: int)
    requires
        0 <= upto <= digits.len(),
    ensures
        -0x8000_0000_0000_0000 * upto <= weighted_sum(digits, offset, row, upto)
            <= 0x8000_0000_0000_0000 * upto,
    decreases upto,
{
    if upto > 0 {
        lemma_weighted_sum_bound(digits, offset, row, upto - 1);
        let weight = pattern_digit(offset + row + 1, offset + upto - 1);
        let digit = digits[upto - 1] as int;
        assert(-0x8000_0000_0000_0000 <= digit * weight <= 0x8000_0000_0000_0000)
            by (nonlinear_arith)
            requires
                -1 <= weight <= 1,
                -0x8000_0000_0000_0000 <= digit <= 0x7fff_ffff_ffff_ffff,
        ;
    }
}

/// One phase over digits that stand at `offset` in a longer signal.
pub fn phase_with_offset(digits: Vec<isize>, offset: usize) -> (cleaned: Vec<isize>)
    requires
        offset + digits@.len() <= usize::MAX,
    ensures
        cleaned@ == phase(digits@, offset as int),
        all_decimal(cleaned@),
{
    let length = digits.len();
    let mut cleaned: Vec<isize> = Vec::new();
    let mut idx: usize = 0;
    while idx < length
        invariant
            idx <= length == digits@.len(),
            offset + digits@.len() <= usize::MAX,
            all_decimal(cleaned@),
            cleaned@.len() == idx,
            forall|row: int|
                0 <= row < idx ==> cleaned@[row] == last_digit(
                    weighted_sum(digits@, offset as int, row, length as int),
                ),
        decreases length - idx,
    {
        let mut sum: i128 = 0;
        let mut didx: usize = 0;
        while didx < length
            invariant
                didx <= length == digits@.len(),
                idx < length,
                offset + digits@.len() <= usize::MAX,
                sum == weighted_sum(digits@, offset as int, idx as int, didx as int),
            decreases length - didx,
        {
            let weight = calculate_pattern_digit(offset + idx + 1, offset + didx);
            proof {
                lemma_weighted_sum_bound(digits@, offset as int, idx as int, didx as int);
                assert(0x8000_0000_0000_0000 * (didx + 1) <= 0x8000_0000_0000_0000
                    * 0xffff_ffff_ffff_ffff) by (nonlinear_arith)
                    requires
                        didx + 1 <= 0xffff_ffff_ffff_ffff,
                ;
            }
            let term: i128 = if weight == 1 {
                digits[didx] as i128
            } else if weight == -1 {
                -(digits[didx] as i128)
            } else {
                0
            };
            assert(term == digits@[didx as int] * weight) by (nonlinear_arith)
                requires
                    term == if weight == 1 {
                        digits@[didx as int] as int
                    } else if weight == -1 {
                        -(digits@[didx as int] as int)
                    } else {
                        0
                    },
                    -1 <= weight <= 1,
            ;
            sum = sum + term;
            didx = didx + 1;
        }
        proof {
            lemma_weighted_sum_bound(digits@, offset as int, idx as int, length as int);
            assert(0x8000_0000_0000_0000 * length <= 0x8000_0000_0000_0000
                * 0xffff_ffff_ffff_ffff) by (nonlinear_arith)
                requires
                    length <= 0xffff_ffff_ffff_ffff,
            ;
        }
        let magnitude: i128 = if sum < 0 {
            -sum
        } else {
            sum
        };
        cleaned.push((magnitude % 10) as isize);
        idx = idx + 1;
    }
    cleaned
}

/// The signal after `times` phases.
pub open spec fn repeat_phase(digits: Seq<isize>, times: nat) -> Seq<isize>
    decreases times,
{
    if times == 0 {
        digits
    } else {
        repeat_phase(phase(digits, 0), (times - 1) as nat)
    }
}

/// The first `count` values, or all of them where there are fewer.
pub open spec fn first_values(values: Seq<isize>, count: int) -> Seq<isize> {
    if values.len() <= count {
        values
    } else {
        values.take(count)
    }
}

/// The first eight digits of the signal in `text` after a hundred phases.
/// Each character of the text that is not white space is one digit. There
/// is none where a character is anything else.
pub open spec fn spec_star_one(text: Seq<char>) -> Option<Seq<isize>> {
    match integers(fields(text, Seq::empty())) {
        Some(digits) => Some(first_values(repeat_phase(digits, 100), 8)),
        None => None,
    }
}

/// The view of a list that may be missing.
pub open spec fn digits_of(list: Option<Vec<isize>>) -> Option<Seq<isize>> {
    match list {
        Some(values) => Some(values@),
        None => None,
    }
}

/// Reads a signal: a decimal digit for each character that is not white space.
fn read_signal(input: &str) -> (signal: Option<Vec<isize>>)
    ensures
        digits_of(signal) == match integers(fields(input@, Seq::empty())) {
            Some(digits) => if all_decimal(digits) {
                Some(digits)
            } else {
                None
            },
            None => None,
        },
        signal matches Some(digits) ==> all_decimal(digits@),
{
    proof {
        reveal_strlit("");
        assert(""@ =~= Seq::<char>::empty());
    }
    let digits = match parse_custom_separated(input, "") {
        Some(digits) => digits,
        None => { return None; },
    };
    let mut index: usize = 0;
    while index < digits.len()
        invariant
            index <= digits@.len(),
            integers(fields(input@, Seq::empty())) == Some(digits@),
            forall|i: int| 0 <= i < index ==> 0 <= #[trigger] digits@[i] <= 9,
        decreases digits@.len() - index,
    {
        if digits[index] < 0 || digits[index] > 9 {
            return None;
        }
        index = index + 1;
    }
    Some(digits)
}

/// The first `count` values, or all of them where there are fewer.
fn take_first(values: &Vec<isize>, count: usize) -> (first: Vec<isize>)
    ensures
        first@ == first_values(values@, count as int),
{
    let mut first: Vec<isize> = Vec::new();
    let mut index: usize = 0;
    while index < values.len() && index < count
        invariant
            index <= values@.len(),
            index <= count,
            first@ == values@.take(index as int),
        decreases values@.len() - index,
    {
        first.push(values[index]);
        index = index + 1;
    }
    first
}

/// The first eight digits of the signal in `input` after a hundred phases.
pub fn star_one(input: &str) -> (message: Option<Vec<isize>>)
    ensures
        digits_of(message) == spec_star_one(input@),
{
    proof {
        reveal_strlit("");
        assert(""@ =~= Seq::<char>::empty());
    }
    let mut digits = match parse_custom_separated(input, "") {
        Some(digits) => digits,
        None => { return None; },
    };
    let ghost signal = digits@;
    let mut round: usize = 0;
    while round < 100
        invariant
            round <= 100,
            repeat_phase(signal, 100) == repeat_phase(digits@, (100 - round) as nat),
        decreases 100 - round,
    {
        assert(digits@.len() == digits.len());
        digits = phase_with_offset(digits, 0);
        round = round + 1;
    }
    Some(take_first(&digits, 8))
}

/// The sum of the digits from `from` on.
pub open spec fn suffix_sum(digits: Seq<isize>, from: int) -> int
    decreases digits.len() - from,
{
    if from < 0 || from >= digits.len() {
        0
    } else {
        digits[from] + suffix_sum(digits, from + 1)
    }
}

/// One phase far into the signal, where the pattern of each row holds
/// zeros up to the row's own digit and ones from there on: each digit
/// becomes the last digit of the sum of itself and all that follow.
pub open spec fn late_phase(digits: Seq<isize>) -> Seq<isize> {
    Seq::new(digits.len(), |row: int| (suffix_sum(digits, row) % 10) as isize)
}

/// The digits after `times` such phases.
pub open spec fn repeat_late_phase(digits: Seq<isize>, times: nat) -> Seq<isize>
    decreases times,
{
    if times == 0 {
        digits
    } else {
        repeat_late_phase(late_phase(digits), (times - 1) as nat)
    }
}

/// The `length` digits of the signal, repeated over and over, that start
/// one digit before `offset`.
pub open spec fn repeated_signal(signal: Seq<isize>, offset: int, length: int) -> Seq<isize> {
    Seq::new(length as nat, |idx: int| signal[(offset + idx - 1) % (signal.len() as int)])
}

/// The eight digits at the message offset of the signal in `text`,
/// repeated ten thousand times, after a hundred phases. The offset is the
/// number that the first seven characters of the text stand for. There is
/// none where the text is no signal, where those characters are no number,
/// or where the offset is zero or lies behind the repeated signal.
pub open spec fn spec_star_two(text: Seq<char>) -> Option<Seq<isize>> {
    match (
        integers(fields(text, Seq::empty())),
        spec_parse_usize(first_chars(text, 7)),
    ) {
        (Some(signal), Some(offset)) => {
            let total = signal.len() * 10000;
            if all_decimal(signal) && 1 <= offset <= total <= usize::MAX {
                let tail = repeat_late_phase(
                    repeated_signal(signal, offset as int, total - offset + 1),
                    100,
                );
                Some(first_values(tail.drop_first(), 8))
            } else {
                None
            }
        },
        _ => None,
    }
}

/// The first `count` characters, or all of them where there are fewer.
pub open spec fn first_chars(text: Seq<char>, count: int) -> Seq<char> {
    if text.len() <= count {
        text
    } else {
        text.take(count)
    }
}

proof fn lemma_suffix_sum_bound(digits: Seq<isize>, from: int)
    requires
        all_decimal(digits),
        0 <= from <= digits.len(),
    ensures
        0 <= suffix_sum(digits, from) <= 9 * (digits.len() - from),
    decreases digits.len() - from,
{
    if from < digits.len() {
        lemma_suffix_sum_bound(digits, from + 1);
    }
}

/// One phase far into the signal.
fn late_phase_of(digits: Vec<isize>) -> (cleaned: Vec<isize>)
    requires
        all_decimal(digits@),
    ensures
        cleaned@ == late_phase(digits@),
        all_decimal(cleaned@),
{
    let length = digits.len();
    let mut cleaned = digits;
    let mut sum: u128 = 0;
    let mut row: usize = length;
    while row > 0
        invariant
            row <= length == digits@.len() == cleaned@.len(),
            all_decimal(digits@),
            sum == suffix_sum(digits@, row as int),
            sum <= 9 * (length - row),
            forall|i: int| 0 <= i < row ==> cleaned@[i] == digits@[i],
            forall|i: int| row <= i < length ==> cleaned@[i] == suffix_sum(digits@, i) % 10,
        decreases row,
    {
        row = row - 1;
        sum = sum + cleaned[row] as u128;
        cleaned.set(row, (sum % 10) as isize);
    }
    cleaned
}

/// The eight digits at the message offset of the signal in `input`,
/// repeated ten thousand times, after a hundred phases.
pub fn star_two(input: &str) -> (message: Option<Vec<isize>>)
    ensures
        digits_of(message) == spec_star_two(input@),
{
    let original_digits = match read_signal(input) {
        Some(digits) => digits,
        None => { return None; },
    };
    let text = chars_of(input);
    let prefix = if text.len() <= 7 {
        copy_range(text.as_slice(), 0, text.len())
    } else {
        copy_range(text.as_slice(), 0, 7)
    };
    assert(prefix@ =~= first_chars(input@, 7));
    let offset = match parse_usize(prefix.as_slice()) {
        Some(offset) => offset,
        None => { return None; },
    };
    let total_length = match original_digits.len().checked_mul(10000) {
        Some(total) => total,
        None => { return None; },
    };
    if offset < 1 || offset > total_length {
        return None;
    }
    let length = total_length - offset + 1;
    let period = original_digits.len();
    let mut digits: Vec<isize> = Vec::new();
    let mut idx: usize = 0;
    while idx < length
        invariant
            idx <= length,
            length == total_length - offset + 1,
            1 <= offset <= total_length,
            period == original_digits@.len(),
            period > 0,
            all_decimal(original_digits@),
            digits@.len() == idx,
            forall|i: int|
                0 <= i < idx ==> digits@[i] == original_digits@[(offset + i - 1) % (period as int)],
        decreases length - idx,
    {
        digits.push(original_digits[(offset - 1 + idx) % period]);
        idx = idx + 1;
    }
    let ghost start = repeated_signal(original_digits@, offset as int, length as int);
    assert(digits@ =~= start);
    let mut round: usize = 0;
    while round < 100
        invariant
            round <= 100,
            all_decimal(digits@),
            digits@.len() == length >= 1,
            repeat_late_phase(start, 100) == repeat_late_phase(digits@, (100 - round) as nat),
        decreases 100 - round,
    {
        digits = late_phase_of(digits);
        round = round + 1;
    }
    digits.remove(0);
    Some(take_first(&digits, 8))
}

} // verus!
