//! An image sent as layers of digits: each layer holds one digit for each
//! pixel, row by row; digit 2 is transparent.

use crate::digits::{decimal_digits, digits_of};
use crate::parsing::{fields, integers, parse_custom_separated};
use vstd::arithmetic::div_mod::{lemma_fundamental_div_mod, lemma_fundamental_div_mod_converse};
use vstd::prelude::*;
use vstd::string::StringExecFns;

verus! {

/// How many of the digits are `counted_digit`.
pub open spec fn occurrences(digits: Seq<usize>, counted_digit: usize) -> nat
    decreases digits.len(),
{
    if digits.len() == 0 {
        0
    } else {
        occurrences(digits.drop_last(), counted_digit) + if digits.last() == counted_digit {
            1nat
        } else {
            0nat
        }
    }
}

proof fn lemma_occurrences_bound(digits: Seq<usize>, counted_digit: usize)
    ensures
        occurrences(digits, counted_digit) <= digits.len(),
    decreases digits.len(),
{
    if digits.len() > 0 {
        lemma_occurrences_bound(digits.drop_last(), counted_digit);
    }
}

/// How many decimal digits of `value` are `counted_digit`.
pub fn digit_count(value: usize, counted_digit: usize) -> (count: usize)
    ensures
        count == occurrences(decimal_digits(value as nat), counted_digit),
{
    let digits = digits_of(value);
    let mut count: usize = 0;
    let mut index: usize = 0;
    while index < digits.len()
        invariant
            index <= digits@.len(),
            count == occurrences(digits@.take(index as int), counted_digit),
            count <= index,
        decreases digits@.len() - index,
    {
        assert(digits@.take(index + 1).drop_last() =~= digits@.take(index as int));
        if digits[index] == counted_digit {
            count = count + 1;
        }
        index = index + 1;
    }
    assert(digits@.take(digits@.len() as int) =~= digits@);
    count
}

/// How many decimal digits of the first `upto` values of a layer are
/// `counted_digit`. The layer starts at `start` and holds `size` values,
/// or fewer where the list ends before.
pub open spec fn layer_digit_count(
    numbers: Seq<isize>,
    start: int,
    upto: int,
    counted_digit: usize,
) -> nat
    decreases upto,
{
    if upto <= 0 {
        0
    } else {
        layer_digit_count(numbers, start, upto - 1, counted_digit) + occurrences(
            decimal_digits(numbers[start + upto - 1] as nat),
            counted_digit,
        )
    }
}

/// The number of values in the layer that starts at `start`.
pub open spec fn layer_length(numbers: Seq<isize>, size: int, start: int) -> int {
    if start + size <= numbers.len() {
        size
    } else {
        numbers.len() - start
    }
}

/// The start of the layer with the fewest digits 0 among the layers from
/// `start` on and the layer at `best`; of several with as few, the first.
pub open spec fn fewest_zeros_from(numbers: Seq<isize>, size: int, start: int, best: int) -> int
    recommends
        size > 0,
    decreases numbers.len() - start,
{
    if start >= numbers.len() || size <= 0 {
        best
    } else {
        let zeros = layer_digit_count(numbers, start, layer_length(numbers, size, start), 0);
        let fewest = layer_digit_count(numbers, best, layer_length(numbers, size, best), 0);
        let better = if zeros < fewest {
            start
        } else {
            best
        };
        if start + size >= numbers.len() {
            better
        } else {
            fewest_zeros_from(numbers, size, start + size, better)
        }
    }
}

/// Whether every value is a decimal digit, from 0 to 9.
pub open spec fn all_decimal(digits: Seq<isize>) -> bool {
    forall|i: int| 0 <= i < digits.len() ==> 0 <= #[trigger] digits[i] <= 9
}

/// The pixels of the image in `text`: one decimal digit for each character
/// that is not white space. There is none where a character is anything else.
pub open spec fn pixels(text: Seq<char>) -> Option<Seq<isize>> {
    match integers(fields(text, Seq::empty())) {
        Some(digits) => if all_decimal(digits) {
            Some(digits)
        } else {
            None
        },
        None => None,
    }
}

/// In the layer with the fewest digits 0, the number of digits 1 times the
/// number of digits 2. There is none where the text is no image, where a
/// layer would have no pixels or the image no layer, or where a number
/// does not fit a machine word.
pub open spec fn spec_star_one(text: Seq<char>, layer_width: int, layer_height: int) -> Option<
    usize,
> {
    match pixels(text) {
        Some(numbers) => {
            let size = layer_width * layer_height;
            if 0 < size <= usize::MAX && numbers.len() > 0 {
                let best = fewest_zeros_from(numbers, size, 0, 0);
                let length = layer_length(numbers, size, best);
                let product = layer_digit_count(numbers, best, length, 1) * layer_digit_count(
                    numbers,
                    best,
                    length,
                    2,
                );
                if product <= usize::MAX {
                    Some(product as usize)
                } else {
                    None
                }
            } else {
                None
            }
        },
        None => None,
    }
}

/// Reads the pixels of an image.
fn read_pixels(input: &str) -> (numbers: Option<Vec<isize>>)
    ensures
        match numbers {
            Some(values) => pixels(input@) == Some(values@),
            None => pixels(input@) is None,
        },
{
    proof {
        reveal_strlit("");
        assert(""@ =~= Seq::<char>::empty());
    }
    let digits = match parse_custom_separated(input, "") {
        Some(digits) => digits,
        None => { return None; },
    };
    let mut index: usize = 0;
    while index < digits.len()
        invariant
            index <= digits@.len(),
            integers(fields(input@, Seq::empty())) == Some(digits@),
            forall|i: int| 0 <= i < index ==> 0 <= #[trigger] digits@[i] <= 9,
        decreases digits@.len() - index,
    {
        if digits[index] < 0 || digits[index] > 9 {
            return None;
        }
        index = index + 1;
    }
    Some(digits)
}

/// Counts a digit in the layer that starts at `start`.
fn count_in_layer(numbers: &Vec<isize>, size: usize, start: usize, counted_digit: usize) -> (count:
    usize)
    requires
        all_decimal(numbers@),
        start < numbers@.len(),
        size > 0,
    ensures
        count == layer_digit_count(
            numbers@,
            start as int,
            layer_length(numbers@, size as int, start as int),
            counted_digit,
        ),
        count <= layer_length(numbers@, size as int, start as int),
{
    let total = numbers.len();
    let length = if size <= total - start {
        size
    } else {
        total - start
    };
    let mut count: usize = 0;
    let mut index: usize = 0;
    while index < length
        invariant
            index <= length,
            total == numbers@.len(),
            start + length <= numbers@.len(),
            all_decimal(numbers@),
            count == layer_digit_count(numbers@, start as int, index as int, counted_digit),
            count <= index,
        decreases length - index,
    {
        let value = numbers[start + index];
        proof {
            lemma_occurrences_bound(decimal_digits(value as nat), counted_digit);
        }
        count = count + digit_count(value as usize, counted_digit);
        index = index + 1;
    }
    count
}

/// In the layer with the fewest digits 0, the number of digits 1 times the
/// number of digits 2.
pub fn star_one(input: &str, layer_width: usize, layer_height: usize) -> (checksum: Option<usize>)
    ensures
        checksum == spec_star_one(input@, layer_width as int, layer_height as int),
{
    let numbers = match read_pixels(input) {
        Some(numbers) => numbers,
        None => { return None; },
    };
    let layer_pixel_width = match layer_width.checked_mul(layer_height) {
        Some(size) => size,
        None => { return None; },
    };
    if layer_pixel_width == 0 || numbers.len() == 0 {
        return None;
    }
    let length = numbers.len();
    let mut best: usize = 0;
    let mut fewest = count_in_layer(&numbers, layer_pixel_width, 0, 0);
    let mut start: usize = 0;
    while start < length
        invariant_except_break
            fewest_zeros_from(numbers@, layer_pixel_width as int, 0, 0) == fewest_zeros_from(
                numbers@,
                layer_pixel_width as int,
                start as int,
                best as int,
            ),
        invariant
            start < length == numbers@.len(),
            layer_pixel_width > 0,
            all_decimal(numbers@),
            best < length,
            fewest == layer_digit_count(
                numbers@,
                best as int,
                layer_length(numbers@, layer_pixel_width as int, best as int),
                0,
            ),
        ensures
            fewest_zeros_from(numbers@, layer_pixel_width as int, 0, 0) == best,
        decreases length - start,
    {
        let zeros = count_in_layer(&numbers, layer_pixel_width, start, 0);
        if zeros < fewest {
            best = start;
            fewest = zeros;
        }
        if layer_pixel_width >= length - start {
            break ;
        }
        start = start + layer_pixel_width;
    }
    let ones = count_in_layer(&numbers, layer_pixel_width, best, 1);
    let twos = count_in_layer(&numbers, layer_pixel_width, best, 2);
    ones.checked_mul(twos)
}

/// The colour of pixel `pixel` as the layers from `start` on show it: the
/// pixel's digit in the first of them where that is not 2, as a character.
/// There is none where all are 2, or where the first other digit is
/// neither 0 nor 1.
pub open spec fn visible_pixel(numbers: Seq<isize>, size: int, pixel: int, start: int) -> Option<
    char,
>
    recommends
        size > 0,
    decreases numbers.len() - start,
{
    if size <= 0 || start < 0 || start + size > numbers.len() {
        None
    } else if numbers[start + pixel] == 2 {
        visible_pixel(numbers, size, pixel, start + size)
    } else if numbers[start + pixel] == 0 {
        Some('0')
    } else if numbers[start + pixel] == 1 {
        Some('1')
    } else {
        None
    }
}

/// The text of the first `upto` pixels of the image: the visible pixels
/// row by row, with a line feed between two rows. There is none where a
/// pixel has no colour.
pub open spec fn image_text(numbers: Seq<isize>, width: int, size: int, upto: int) -> Option<
    Seq<char>,
>
    decreases upto,
{
    if upto <= 0 {
        Some(Seq::empty())
    } else {
        match (
            image_text(numbers, width, size, upto - 1),
            visible_pixel(numbers, size, upto - 1, 0),
        ) {
            (Some(text), Some(colour)) => Some(
                if upto - 1 > 0 && (upto - 1) % width == 0 {
                    text.push('\n').push(colour)
                } else {
                    text.push(colour)
                },
            ),
            _ => None,
        }
    }
}

/// The image that the layers in `text` show. There is none where the text
/// is no image, where the image would have no pixels, where the layers do
/// not fill the text exactly, or where a pixel has no colour.
pub open spec fn spec_star_two(text: Seq<char>, layer_width: int, layer_height: int) -> Option<
    Seq<char>,
> {
    match pixels(text) {
        Some(numbers) => {
            let size = layer_width * layer_height;
            if 0 < size <= usize::MAX && numbers.len() > 0 && numbers.len() % (size as nat) == 0 {
                image_text(numbers, layer_width, size, size)
            } else {
                None
            }
        },
        None => None,
    }
}

/// The view of a string that may be missing.
pub open spec fn text_of(text: Option<String>) -> Option<Seq<char>> {
    match text {
        Some(string) => Some(string@),
        None => None,
    }
}

/// The colour of one pixel.
fn find_visible_pixel(numbers: &Vec<isize>, size: usize, pixel: usize) -> (colour: Option<char>)
    requires
        size > 0,
        pixel < size,
    ensures
        colour == visible_pixel(numbers@, size as int, pixel as int, 0),
        colour matches Some(c) ==> c == '0' || c == '1',
{
    let length = numbers.len();
    let mut start: usize = 0;
    while size <= length - start
        invariant
            start <= length == numbers@.len(),
            0 < size,
            pixel < size,
            visible_pixel(numbers@, size as int, pixel as int, 0) == visible_pixel(
                numbers@,
                size as int,
                pixel as int,
                start as int,
            ),
        decreases length - start,
    {
        let value = numbers[start + pixel];
        if value == 0 {
            return Some('0');
        } else if value == 1 {
            return Some('1');
        } else if value != 2 {
            return None;
        }
        start = start + size;
    }
    None
}

proof fn lemma_image_text_fails(numbers: Seq<isize>, width: int, size: int, shorter: int, upto: int)
    requires
        0 <= shorter <= upto,
        image_text(numbers, width, size, shorter) is None,
    ensures
        image_text(numbers, width, size, upto) is None,
    decreases upto - shorter,
{
    if shorter < upto {
        lemma_image_text_fails(numbers, width, size, shorter, upto - 1);
    }
}

/// The image that the layers in `input` show: a line of the characters
/// `0` and `1` for each row.
pub fn star_two(input: &str, layer_width: usize, layer_height: usize) -> (image: Option<String>)
    ensures
        text_of(image) == spec_star_two(input@, layer_width as int, layer_height as int),
{
    let numbers = match read_pixels(input) {
        Some(numbers) => numbers,
        None => { return None; },
    };
    let layer_pixel_width = match layer_width.checked_mul(layer_height) {
        Some(size) => size,
        None => { return None; },
    };
    if layer_pixel_width == 0 || numbers.len() == 0 || numbers.len() % layer_pixel_width != 0 {
        return None;
    }
    assert(layer_width > 0) by (nonlinear_arith)
        requires
            layer_width * layer_height > 0,
    ;
    proof {
        reveal_strlit("");
        reveal_strlit("0");
        reveal_strlit("1");
        reveal_strlit("\n");
    }
    let mut result = String::from_str("");
    let mut pixel: usize = 0;
    let mut column: usize = 0;
    while pixel < layer_pixel_width
        invariant
            pixel <= layer_pixel_width,
            layer_width > 0,
            column < layer_width,
            column == pixel % layer_width,
            "0"@ == seq!['0'],
            "1"@ == seq!['1'],
            "\n"@ == seq!['\n'],
            pixels(input@) == Some(numbers@),
            layer_pixel_width == layer_width * layer_height,
            numbers@.len() > 0,
            numbers@.len() % (layer_pixel_width as nat) == 0,
            image_text(numbers@, layer_width as int, layer_pixel_width as int, pixel as int)
                == Some(result@),
        decreases layer_pixel_width - pixel,
    {
        let colour = match find_visible_pixel(&numbers, layer_pixel_width, pixel) {
            Some(colour) => colour,
            None => {
                proof {
                    lemma_image_text_fails(
                        numbers@,
                        layer_width as int,
                        layer_pixel_width as int,
                        pixel + 1,
                        layer_pixel_width as int,
                    );
                }
                return None;
            },
        };
        if pixel > 0 && column == 0 {
            result.append("\n");
        }
        if colour == '0' {
            result.append("0");
        } else {
            result.append("1");
        }
        proof {
            let before = pixel as int;
            lemma_fundamental_div_mod(before, layer_width as int);
            let quotient = before / (layer_width as int);
            if column + 1 == layer_width {
                assert(before + 1 == (quotient + 1) * layer_width + 0) by (nonlinear_arith)
                    requires
                        before == layer_width * quotient + column,
                        column + 1 == layer_width,
                ;
                lemma_fundamental_div_mod_converse(before + 1, layer_width as int, quotient + 1, 0);
            } else {
                assert(before + 1 == quotient * layer_width + (column + 1)) by (nonlinear_arith)
                    requires
                        before == layer_width * quotient + column,
                ;
                lemma_fundamental_div_mod_converse(
                    before + 1,
                    layer_width as int,
                    quotient,
                    column + 1,
                );
            }
        }
        column = if column + 1 == layer_width {
            0
        } else {
            column + 1
        };
        pixel = pixel + 1;
    }
    Some(result)
}

} // verus!
