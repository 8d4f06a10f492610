//! Reading puzzle input: text is cut into fields, and fields are read as
//! decimal integers.

use vstd::prelude::*;

verus! {

/// Whether a character is white space: the characters that Unicode lists
/// under the property of that name.
pub open spec fn is_whitespace(c: char) -> bool {
    let code = c as u32;
    ||| 0x09 <= code <= 0x0d
    ||| code == 0x20
    ||| code == 0x85
    ||| code == 0xa0
    ||| code == 0x1680
    ||| 0x2000 <= code <= 0x200a
    ||| code == 0x2028
    ||| code == 0x2029
    ||| code == 0x202f
    ||| code == 0x205f
    ||| code == 0x3000
}

/// Whether a character is white space.
pub fn is_space(c: char) -> (space: bool)
    ensures
        space == is_whitespace(c),
{
    let code = c as u32;
    (0x09 <= code && code <= 0x0d) || code == 0x20 || code == 0x85 || code == 0xa0 || code
        == 0x1680 || (0x2000 <= code && code <= 0x200a) || code == 0x2028 || code == 0x2029
        || code == 0x202f || code == 0x205f || code == 0x3000
}

/// The text without the white space at its start.
pub open spec fn trim_start(text: Seq<char>) -> Seq<char>
    decreases text.len(),
{
    if text.len() > 0 && is_whitespace(text[0]) {
        trim_start(text.drop_first())
    } else {
        text
    }
}

/// The text without the white space at its end.
pub open spec fn trim_end(text: Seq<char>) -> Seq<char>
    decreases text.len(),
{
    if text.len() > 0 && is_whitespace(text.last()) {
        trim_end(text.drop_last())
    } else {
        text
    }
}

/// The text without the white space at its start and at its end.
pub open spec fn trim(text: Seq<char>) -> Seq<char> {
    trim_end(trim_start(text))
}

/// Whether `separator` stands in `text` at `position`.
pub open spec fn separator_at(text: Seq<char>, separator: Seq<char>, position: int) -> bool {
    &&& 0 <= position
    &&& position + separator.len() <= text.len()
    &&& text.subrange(position, position + separator.len()) == separator
}

/// The pieces of `text` from `start` on, where the text up to `position` is
/// known to hold no separator that starts at or after `start`. Separators
/// are found left to right and do not overlap. An empty separator stands
/// before and after every character.
pub open spec fn split_from(text: Seq<char>, separator: Seq<char>, start: int, position: int) -> Seq<
    Seq<char>,
>
    recommends
        0 <= start <= position,
        start <= text.len(),
    decreases text.len() + 1 - position,
{
    if position + separator.len() > text.len() || position < 0 {
        seq![text.subrange(start, text.len() as int)]
    } else if separator_at(text, separator, position) {
        let next = position + separator.len();
        seq![text.subrange(start, position)] + split_from(
            text,
            separator,
            next,
            if separator.len() == 0 {
                next + 1
            } else {
                next
            },
        )
    } else {
        split_from(text, separator, start, position + 1)
    }
}

/// The pieces that the separator cuts the text into, empty ones included.
pub open spec fn split(text: Seq<char>, separator: Seq<char>) -> Seq<Seq<char>> {
    split_from(text, separator, 0, 0)
}

/// The pieces trimmed, without those that are empty after trimming.
pub open spec fn trimmed_fields(pieces: Seq<Seq<char>>) -> Seq<Seq<char>>
    decreases pieces.len(),
{
    if pieces.len() == 0 {
        Seq::empty()
    } else {
        let before = trimmed_fields(pieces.drop_last());
        let field = trim(pieces.last());
        if field.len() > 0 {
            before.push(field)
        } else {
            before
        }
    }
}

/// The fields of a text: its pieces between separators, each trimmed,
/// without the empty ones.
pub open spec fn fields(text: Seq<char>, separator: Seq<char>) -> Seq<Seq<char>> {
    trimmed_fields(split(text, separator))
}

/// The views of a list of character vectors.
pub open spec fn texts(pieces: Seq<Vec<char>>) -> Seq<Seq<char>> {
    pieces.map_values(|piece: Vec<char>| piece@)
}

/// The characters of a string.
pub fn chars_of(text: &str) -> (chars: Vec<char>)
    ensures
        chars@ == text@,
{
    let mut chars: Vec<char> = Vec::new();
    for c in it: text.chars()
        invariant
            chars@ == it.seq().take(it.index() as int),
            it.seq() == text@,
    {
        chars.push(c);
    }
    chars
}

/// The characters of `text` from `from` up to `to`.
pub fn copy_range(text: &[char], from: usize, to: usize) -> (piece: Vec<char>)
    requires
        from <= to <= text@.len(),
    ensures
        piece@ == text@.subrange(from as int, to as int),
{
    let mut piece: Vec<char> = Vec::new();
    let mut index: usize = from;
    while index < to
        invariant
            from <= index <= to <= text@.len(),
            piece@ == text@.subrange(from as int, index as int),
        decreases to - index,
    {
        piece.push(text[index]);
        index = index + 1;
    }
    piece
}

proof fn lemma_trim_start(text: Seq<char>, first: int)
    requires
        0 <= first <= text.len(),
        forall|i: int| 0 <= i < first ==> is_whitespace(text[i]),
        first < text.len() ==> !is_whitespace(text[first]),
    ensures
        trim_start(text) == text.subrange(first, text.len() as int),
    decreases first,
{
    if first > 0 {
        let rest = text.drop_first();
        lemma_trim_start(rest, first - 1);
        assert(rest.subrange(first - 1, rest.len() as int) =~= text.subrange(
            first,
            text.len() as int,
        ));
    }
}

proof fn lemma_trim_end(text: Seq<char>, last: int)
    requires
        0 <= last <= text.len(),
        forall|i: int| last <= i < text.len() ==> is_whitespace(text[i]),
        last > 0 ==> !is_whitespace(text[last - 1]),
    ensures
        trim_end(text) == text.subrange(0, last),
    decreases text.len() - last,
{
    if last < text.len() {
        let rest = text.drop_last();
        lemma_trim_end(rest, last);
    }
}

/// The text without the white space at its start and at its end.
pub fn trimmed(text: &[char]) -> (field: Vec<char>)
    ensures
        field@ == trim(text@),
{
    let mut first: usize = 0;
    while first < text.len() && is_space(text[first])
        invariant
            first <= text@.len(),
            forall|i: int| 0 <= i < first ==> is_whitespace(text@[i]),
        decreases text@.len() - first,
    {
        first = first + 1;
    }
    let mut last: usize = text.len();
    while last > first && is_space(text[last - 1])
        invariant
            first <= last <= text@.len(),
            forall|i: int| last <= i < text@.len() ==> is_whitespace(text@[i]),
        decreases last,
    {
        last = last - 1;
    }
    proof {
        lemma_trim_start(text@, first as int);
        let tail = text@.subrange(first as int, text@.len() as int);
        lemma_trim_end(tail, last - first);
    }
    copy_range(text, first, last)
}

/// Whether `separator` stands in `text` at `position`.
pub fn has_separator_at(text: &[char], separator: &[char], position: usize) -> (found: bool)
    requires
        position + separator@.len() <= text@.len(),
    ensures
        found == separator_at(text@, separator@, position as int),
{
    let length = text.len();
    let mut offset: usize = 0;
    while offset < separator.len()
        invariant
            offset <= separator@.len(),
            position + separator@.len() <= text@.len(),
            length == text@.len(),
            forall|i: int| 0 <= i < offset ==> text@[position + i] == separator@[i],
        decreases separator@.len() - offset,
    {
        if text[position + offset] != separator[offset] {
            return false;
        }
        offset = offset + 1;
    }
    assert(text@.subrange(position as int, position as int + separator@.len() as int)
        =~= separator@);
    true
}

/// Cuts the text at every separator, left to right.
pub fn split_text(text: &[char], separator: &[char]) -> (pieces: Vec<Vec<char>>)
    ensures
        texts(pieces@) == split(text@, separator@),
{
    let mut pieces: Vec<Vec<char>> = Vec::new();
    let mut start: usize = 0;
    let mut position: usize = 0;
    let length = text.len();
    while separator.len() <= length && position <= length - separator.len()
        invariant_except_break
            start <= position <= text@.len(),
            split(text@, separator@) == texts(pieces@) + split_from(
                text@,
                separator@,
                start as int,
                position as int,
            ),
        invariant
            start <= text@.len(),
            length == text@.len(),
        ensures
            split(text@, separator@) == texts(pieces@) + seq![
                text@.subrange(start as int, text@.len() as int),
            ],
        decreases text@.len() - position,
    {
        if has_separator_at(text, separator, position) {
            let piece = copy_range(text, start, position);
            pieces.push(piece);
            start = position + separator.len();
            if separator.len() > 0 {
                position = start;
            } else if position < length {
                position = start + 1;
            } else {
                assert(split_from(text@, separator@, start as int, start + 1) == seq![
                    text@.subrange(start as int, text@.len() as int),
                ]);
                break ;
            }
        } else {
            assert(position < length) by {
                if position == length {
                    assert(text@.subrange(position as int, position as int) =~= separator@);
                }
            }
            position = position + 1;
        }
    }
    let piece = copy_range(text, start, text.len());
    pieces.push(piece);
    pieces
}

/// The fields of a text: its pieces between separators, each trimmed,
/// without the empty ones.
pub fn fields_of(text: &[char], separator: &[char]) -> (found: Vec<Vec<char>>)
    ensures
        texts(found@) == fields(text@, separator@),
{
    let pieces = split_text(text, separator);
    let mut found: Vec<Vec<char>> = Vec::new();
    let mut index: usize = 0;
    while index < pieces.len()
        invariant
            index <= pieces@.len(),
            texts(found@) == trimmed_fields(texts(pieces@).take(index as int)),
        decreases pieces@.len() - index,
    {
        let field = trimmed(pieces[index].as_slice());
        proof {
            let done = texts(pieces@).take(index + 1);
            assert(done.drop_last() =~= texts(pieces@).take(index as int));
        }
        if field.len() > 0 {
            found.push(field);
        }
        index = index + 1;
    }
    assert(texts(pieces@).take(pieces@.len() as int) =~= texts(pieces@));
    found
}

/// The words of `text` from `start` on, where the characters from `start`
/// up to `position` are known to be none of them white space.
pub open spec fn words_from(text: Seq<char>, start: int, position: int) -> Seq<Seq<char>>
    recommends
        0 <= start <= position,
    decreases text.len() - position,
{
    if position >= text.len() {
        if start < text.len() {
            seq![text.subrange(start, text.len() as int)]
        } else {
            Seq::empty()
        }
    } else if is_whitespace(text[position]) {
        if start < position {
            seq![text.subrange(start, position)] + words_from(text, position + 1, position + 1)
        } else {
            words_from(text, position + 1, position + 1)
        }
    } else {
        words_from(text, start, position + 1)
    }
}

/// The words of a text: its longest stretches without white space, in order.
pub open spec fn words(text: Seq<char>) -> Seq<Seq<char>> {
    words_from(text, 0, 0)
}

/// The words of a text: its longest stretches without white space, in order.
pub fn words_of(text: &[char]) -> (found: Vec<Vec<char>>)
    ensures
        texts(found@) == words(text@),
{
    let mut found: Vec<Vec<char>> = Vec::new();
    let mut start: usize = 0;
    let mut position: usize = 0;
    let length = text.len();
    while position < length
        invariant
            start <= position <= text@.len(),
            length == text@.len(),
            words(text@) == texts(found@) + words_from(text@, start as int, position as int),
        decreases text@.len() - position,
    {
        if is_space(text[position]) {
            if start < position {
                let word = copy_range(text, start, position);
                found.push(word);
            }
            start = position + 1;
        }
        position = position + 1;
    }
    if start < length {
        let word = copy_range(text, start, length);
        found.push(word);
    }
    found
}

/// Whether a character is one of the ten decimal digits.
pub open spec fn is_digit(c: char) -> bool {
    '0' <= c && c <= '9'
}

/// The number that a decimal digit stands for.
pub open spec fn digit_value(c: char) -> int {
    c as u32 - 48
}

/// Whether the text holds decimal digits only.
pub open spec fn all_digits(text: Seq<char>) -> bool {
    forall|i: int| 0 <= i < text.len() ==> is_digit(#[trigger] text[i])
}

/// The number that a row of decimal digits stands for.
pub open spec fn decimal_value(digits: Seq<char>) -> int
    decreases digits.len(),
{
    if digits.len() == 0 {
        0
    } else {
        decimal_value(digits.drop_last()) * 10 + digit_value(digits.last())
    }
}

/// The integer that a text stands for: an optional sign, `+` or `-`, and
/// then one decimal digit or more. Any other text stands for none.
pub open spec fn integer_value(text: Seq<char>) -> Option<int> {
    if text.len() > 0 && (text[0] == '-' || text[0] == '+') {
        let digits = text.drop_first();
        if digits.len() > 0 && all_digits(digits) {
            Some(
                if text[0] == '-' {
                    -decimal_value(digits)
                } else {
                    decimal_value(digits)
                },
            )
        } else {
            None
        }
    } else if text.len() > 0 && all_digits(text) {
        Some(decimal_value(text))
    } else {
        None
    }
}

/// The integer that a text stands for, where it lies between the bounds.
pub open spec fn bounded_integer(text: Seq<char>, min: int, max: int) -> Option<int> {
    match integer_value(text) {
        Some(value) => if min <= value <= max {
            Some(value)
        } else {
            None
        },
        None => None,
    }
}

/// The machine word that a text stands for.
pub open spec fn spec_parse_isize(text: Seq<char>) -> Option<isize> {
    match bounded_integer(text, isize::MIN as int, isize::MAX as int) {
        Some(value) => Some(value as isize),
        None => None,
    }
}

/// The 64-bit integer that a text stands for.
pub open spec fn spec_parse_i64(text: Seq<char>) -> Option<i64> {
    match bounded_integer(text, i64::MIN as int, i64::MAX as int) {
        Some(value) => Some(value as i64),
        None => None,
    }
}

/// The unsigned number that a text stands for. A text that starts with `-`
/// stands for none.
pub open spec fn spec_parse_usize(text: Seq<char>) -> Option<usize> {
    if text.len() > 0 && text[0] == '-' {
        None
    } else {
        match bounded_integer(text, 0, usize::MAX as int) {
            Some(value) => Some(value as usize),
            None => None,
        }
    }
}

proof fn lemma_decimal_value_grows(digits: Seq<char>, shorter: int)
    requires
        all_digits(digits),
        0 <= shorter <= digits.len(),
    ensures
        0 <= decimal_value(digits.take(shorter)) <= decimal_value(digits),
    decreases digits.len(),
{
    if digits.len() > 0 {
        if shorter == digits.len() {
            assert(digits.take(shorter) =~= digits);
            lemma_decimal_value_grows(digits.drop_last(), shorter - 1);
        } else {
            lemma_decimal_value_grows(digits.drop_last(), shorter);
            assert(digits.drop_last().take(shorter) =~= digits.take(shorter));
        }
    }
}

/// Reads a decimal integer that lies between the bounds.
pub fn parse_bounded(text: &[char], min: i128, max: i128) -> (value: Option<i128>)
    requires
        -0x1_0000_0000_0000_0000 <= min <= 0,
        0 <= max <= 0x1_0000_0000_0000_0000,
    ensures
        value == match bounded_integer(text@, min as int, max as int) {
            Some(v) => Some(v as i128),
            None => None::<i128>,
        },
{
    let length = text.len();
    if length == 0 {
        return None;
    }
    let negative = text[0] == '-';
    let first: usize = if text[0] == '-' || text[0] == '+' {
        1
    } else {
        0
    };
    if first == length {
        return None;
    }
    let limit: i128 = if negative {
        -min
    } else {
        max
    };
    let ghost digits = text@.subrange(first as int, length as int);
    assert(digits =~= if first == 1 {
        text@.drop_first()
    } else {
        text@
    });
    let mut magnitude: i128 = 0;
    let mut index: usize = first;
    while index < length
        invariant
            first <= index <= length,
            length == text@.len(),
            digits == text@.subrange(first as int, length as int),
            length > 0,
            negative == (text@[0] == '-'),
            (first == 1) == (text@[0] == '-' || text@[0] == '+'),
            digits == if first == 1 {
                text@.drop_first()
            } else {
                text@
            },
            limit == if negative {
                -min
            } else {
                max as int
            },
            all_digits(digits.take(index - first)),
            magnitude == decimal_value(digits.take(index - first)),
            0 <= magnitude <= limit <= 0x1_0000_0000_0000_0000,
        decreases length - index,
    {
        let c = text[index];
        if !(c >= '0' && c <= '9') {
            assert(!is_digit(digits[index - first]));
            return None;
        }
        let ghost before = digits.take(index - first);
        let ghost now = digits.take(index - first + 1);
        proof {
            assert(now.drop_last() =~= before);
        }
        magnitude = magnitude * 10 + (c as u32 - 48) as i128;
        if magnitude > limit {
            proof {
                if all_digits(digits) {
                    lemma_decimal_value_grows(digits, index - first + 1);
                }
            }
            return None;
        }
        index = index + 1;
    }
    assert(digits.take(length - first) =~= digits);
    Some(
        if negative {
            -magnitude
        } else {
            magnitude
        },
    )
}

/// Reads a decimal integer that fits a machine word.
pub fn parse_isize(text: &[char]) -> (value: Option<isize>)
    ensures
        value == spec_parse_isize(text@),
{
    match parse_bounded(text, isize::MIN as i128, isize::MAX as i128) {
        Some(value) => Some(value as isize),
        None => None,
    }
}

/// Reads a decimal integer that fits 64 bits.
pub fn parse_i64(text: &[char]) -> (value: Option<i64>)
    ensures
        value == spec_parse_i64(text@),
{
    match parse_bounded(text, i64::MIN as i128, i64::MAX as i128) {
        Some(value) => Some(value as i64),
        None => None,
    }
}

/// Reads an unsigned decimal number.
pub fn parse_usize(text: &[char]) -> (value: Option<usize>)
    ensures
        value == spec_parse_usize(text@),
{
    if text.len() > 0 && text[0] == '-' {
        None
    } else {
        match parse_bounded(text, 0, usize::MAX as i128) {
            Some(value) => Some(value as usize),
            None => None,
        }
    }
}

/// The integers that the fields stand for, or none where one of the fields
/// is not an integer that fits a machine word.
pub open spec fn integers(fields: Seq<Seq<char>>) -> Option<Seq<isize>>
    decreases fields.len(),
{
    if fields.len() == 0 {
        Some(Seq::empty())
    } else {
        match (integers(fields.drop_last()), spec_parse_isize(fields.last())) {
            (Some(values), Some(value)) => Some(values.push(value)),
            _ => None,
        }
    }
}

/// The view of a list that may be missing.
pub open spec fn values_of(list: Option<Vec<isize>>) -> Option<Seq<isize>> {
    match list {
        Some(values) => Some(values@),
        None => None,
    }
}

proof fn lemma_integers_fail(fields: Seq<Seq<char>>, index: int)
    requires
        0 <= index < fields.len(),
        spec_parse_isize(fields[index]) is None,
    ensures
        integers(fields) is None,
    decreases fields.len(),
{
    if index < fields.len() - 1 {
        lemma_integers_fail(fields.drop_last(), index);
    }
}

/// Reads every field as an integer.
pub fn parse_integers(fields: &Vec<Vec<char>>) -> (values: Option<Vec<isize>>)
    ensures
        values_of(values) == integers(texts(fields@)),
{
    let mut values: Vec<isize> = Vec::new();
    let mut index: usize = 0;
    while index < fields.len()
        invariant
            index <= fields@.len(),
            integers(texts(fields@).take(index as int)) == Some(values@),
        decreases fields@.len() - index,
    {
        match parse_isize(fields[index].as_slice()) {
            Some(value) => {
                proof {
                    let done = texts(fields@).take(index + 1);
                    assert(done.drop_last() =~= texts(fields@).take(index as int));
                }
                values.push(value);
            },
            None => {
                proof {
                    lemma_integers_fail(texts(fields@), index as int);
                }
                return None;
            },
        }
        index = index + 1;
    }
    assert(texts(fields@).take(fields@.len() as int) =~= texts(fields@));
    Some(values)
}

/// Reads the integers of a text, one to a line. White space around a number
/// and empty lines are skipped. The result is none where a line holds
/// anything else.
pub fn parse_lines(input: &str) -> (values: Option<Vec<isize>>)
    ensures
        values_of(values) == integers(fields(input@, seq!['\n'])),
{
    let text = chars_of(input);
    let mut separator: Vec<char> = Vec::new();
    separator.push('\n');
    let found = fields_of(text.as_slice(), separator.as_slice());
    parse_integers(&found)
}

/// Reads the integers of a text that white space separates. The result is
/// none where a word is not an integer.
pub fn parse_whitespace_separated(input: &str) -> (values: Option<Vec<isize>>)
    ensures
        values_of(values) == integers(words(input@)),
{
    let text = chars_of(input);
    let found = words_of(text.as_slice());
    parse_integers(&found)
}

/// Reads the integers of a text that `separator` separates. White space
/// around a number and empty fields are skipped. The result is none where a
/// field holds anything else.
pub fn parse_custom_separated(input: &str, separator: &str) -> (values: Option<Vec<isize>>)
    ensures
        values_of(values) == integers(fields(input@, separator@)),
{
    let text = chars_of(input);
    let cut = chars_of(separator);
    let found = fields_of(text.as_slice(), cut.as_slice());
    parse_integers(&found)
}

} // verus!
