//! Texts as sequences of characters: trimming, splitting, numbers.

use vstd::prelude::*;
use vstd::std_specs::iter::IteratorSpec;

verus! {

/// Calls `String::push`, which puts one character behind the text.
pub assume_specification[ String::push ](s: &mut String, c: char)
    ensures
        final(s)@ == old(s)@.push(c),
;

/// The characters of a text.
pub fn to_chars(text: &str) -> (result: Vec<char>)
    ensures
        result@ == text@,
{
    let mut result: Vec<char> = Vec::new();
    for value in iter: text.chars()
        invariant
            result@ == iter.seq().subrange(0, iter.index() as int),
            iter.seq() == text@,
    {
        result.push(value);
        assert(result@ =~= iter.seq().subrange(0, iter.index() + 1));
    }
    assert(text@.subrange(0, text@.len() as int) =~= text@);
    result
}

/// The text that characters make.
pub fn text_of(value: &[char]) -> (result: String)
    ensures
        result@ == value@,
{
    let mut text: String = String::new();
    let mut index: usize = 0;
    while index < value.len()
        invariant
            index <= value.len(),
            text@ == value@.subrange(0, index as int),
        decreases value.len() - index,
    {
        text.push(value[index]);
        assert(text@ =~= value@.subrange(0, index + 1));
        index += 1;
    }
    assert(value@.subrange(0, value.len() as int) =~= value@);
    text
}

/// Whether two texts are the same.
pub fn chars_equal(left: &[char], right: &[char]) -> (result: bool)
    ensures
        result == (left@ == right@),
{
    if left.len() != right.len() {
        return false;
    }
    let mut index: usize = 0;
    while index < left.len()
        invariant
            index <= left.len(),
            left.len() == right.len(),
            forall|i: int| 0 <= i < index ==> left[i] == right[i],
        decreases left.len() - index,
    {
        if left[index] != right[index] {
            assert(left@[index as int] != right@[index as int]);
            return false;
        }
        index += 1;
    }
    assert(left@ =~= right@);
    true
}

/// Whether two texts are the same.
pub fn same_text(left: &str, right: &str) -> (result: bool)
    ensures
        result == (left@ == right@),
{
    let left_chars: Vec<char> = to_chars(left);
    let right_chars: Vec<char> = to_chars(right);
    chars_equal(left_chars.as_slice(), right_chars.as_slice())
}

/// The characters that Unicode counts as white space.
pub open spec fn white_space(value: char) -> bool {
    let code = value as u32;
    ||| 0x9 <= code <= 0xd
    ||| code == 0x20
    ||| code == 0x85
    ||| code == 0xa0
    ||| code == 0x1680
    ||| 0x2000 <= code <= 0x200a
    ||| code == 0x2028
    ||| code == 0x2029
    ||| code == 0x202f
    ||| code == 0x205f
    ||| code == 0x3000
}

/// Whether a character is white space.
pub fn is_white_space(value: char) -> (result: bool)
    ensures
        result == white_space(value),
{
    let code: u32 = value as u32;
    (0x9 <= code && code <= 0xd) || code == 0x20 || code == 0x85 || code == 0xa0 || code == 0x1680
        || (0x2000 <= code && code <= 0x200a) || code == 0x2028 || code == 0x2029 || code == 0x202f
        || code == 0x205f || code == 0x3000
}

/// A text without the white space at its start.
pub open spec fn trimmed_start(text: Seq<char>) -> Seq<char>
    decreases text.len(),
{
    if text.len() > 0 && white_space(text[0]) {
        trimmed_start(text.drop_first())
    } else {
        text
    }
}

/// A text without the white space at its end.
pub open spec fn trimmed_end(text: Seq<char>) -> Seq<char>
    decreases text.len(),
{
    if text.len() > 0 && white_space(text.last()) {
        trimmed_end(text.drop_last())
    } else {
        text
    }
}

/// A text without the white space at both ends.
pub open spec fn trimmed(text: Seq<char>) -> Seq<char> {
    trimmed_end(trimmed_start(text))
}

/// Takes the white space off both ends.
pub fn trim(text: &[char]) -> (result: &[char])
    ensures
        result@ == trimmed(text@),
{
    let mut left: &[char] = text;
    while left.len() > 0 && is_white_space(left[0])
        invariant
            trimmed_start(text@) == trimmed_start(left@),
        decreases left.len(),
    {
        assert(left@.subrange(1, left.len() as int) =~= left@.drop_first());
        left = &left[1..left.len()];
    }
    let ghost inner = left@;
    while left.len() > 0 && is_white_space(left[left.len() - 1])
        invariant
            trimmed_end(inner) == trimmed_end(left@),
        decreases left.len(),
    {
        assert(left@.subrange(0, left.len() - 1) =~= left@.drop_last());
        left = &left[0..left.len() - 1];
    }
    left
}

/// The index of the first `value` at or behind `from`, or the length.
pub open spec fn index_from(text: Seq<char>, value: char, from: int) -> int
    decreases text.len() - from,
{
    if from >= text.len() || text[from] == value {
        from
    } else {
        index_from(text, value, from + 1)
    }
}

/// The index of the first `value` at or behind `from`, or the length.
pub fn find_char(text: &[char], value: char, from: usize) -> (result: usize)
    requires
        from <= text.len(),
    ensures
        result == index_from(text@, value, from as int),
        from <= result <= text.len(),
        result < text.len() ==> text[result as int] == value,
{
    let mut index: usize = from;
    while index < text.len() && text[index] != value
        invariant
            from <= index <= text.len(),
            index_from(text@, value, from as int) == index_from(text@, value, index as int),
        decreases text.len() - index,
    {
        index += 1;
    }
    index
}

/// The value of an ASCII digit.
pub open spec fn digit_value(value: char) -> int {
    value as u32 - 0x30
}

/// Whether a character is an ASCII digit.
pub open spec fn is_digit(value: char) -> bool {
    0x30 <= value as u32 <= 0x39
}

/// Whether a text is made of ASCII digits.
pub open spec fn all_digits(text: Seq<char>) -> bool {
    forall|i: int| 0 <= i < text.len() ==> is_digit(#[trigger] text[i])
}

/// The number that digits stand for.
pub open spec fn digits_value(text: Seq<char>) -> int
    decreases text.len(),
{
    if text.len() == 0 {
        0
    } else {
        digits_value(text.drop_last()) * 10 + digit_value(text.last())
    }
}

/// A text without a `+` in first place.
pub open spec fn without_plus(text: Seq<char>) -> Seq<char> {
    if text.len() > 0 && text[0] == '+' {
        text.drop_first()
    } else {
        text
    }
}

/// The number that a text stands for: digits behind an optional `+`, no larger than `maximum`.
pub open spec fn number(text: Seq<char>, maximum: int) -> Option<int> {
    let digits = without_plus(text);
    if digits.len() > 0 && all_digits(digits) && digits_value(digits) <= maximum {
        Some(digits_value(digits))
    } else {
        None
    }
}

proof fn lemma_digits_grow(text: Seq<char>, count: int)
    requires
        0 <= count <= text.len(),
        all_digits(text),
    ensures
        0 <= digits_value(text.subrange(0, count)) <= digits_value(text),
    decreases text.len(),
{
    if count == text.len() {
        assert(text.subrange(0, count) =~= text);
        if text.len() > 0 {
            assert(all_digits(text.drop_last()));
            lemma_digits_grow(text.drop_last(), text.len() - 1);
            assert(is_digit(text[text.len() - 1]));
        }
    } else {
        assert(all_digits(text.drop_last()));
        lemma_digits_grow(text.drop_last(), count);
        assert(text.drop_last().subrange(0, count) =~= text.subrange(0, count));
        assert(is_digit(text[text.len() - 1]));
    }
}

/// Reads a number no larger than `maximum`.
pub fn parse_number(text: &[char], maximum: u64) -> (result: Option<u64>)
    ensures
        match result {
            Some(value) => number(text@, maximum as int) == Some(value as int),
            None => number(text@, maximum as int) is None,
        },
{
    let digits: &[char] = if text.len() > 0 && text[0] == '+' {
        assert(text@.subrange(1, text.len() as int) =~= text@.drop_first());
        &text[1..text.len()]
    } else {
        text
    };
    if digits.len() == 0 {
        return None;
    }
    let mut value: u64 = 0;
    let mut index: usize = 0;
    while index < digits.len()
        invariant
            index <= digits.len(),
            digits@ == without_plus(text@),
            forall|i: int| 0 <= i < index ==> is_digit(#[trigger] digits[i]),
            value == digits_value(digits@.subrange(0, index as int)),
            value <= maximum,
        decreases digits.len() - index,
    {
        let code: u32 = digits[index] as u32;
        if code < 0x30 || code > 0x39 {
            assert(!is_digit(digits@[index as int]));
            return None;
        }
        let digit: u64 = (code - 0x30) as u64;
        proof {
            let next = digits@.subrange(0, index + 1);
            assert(next.drop_last() =~= digits@.subrange(0, index as int));
            assert(next.last() == digits[index as int]);
            if all_digits(digits@) {
                lemma_digits_grow(digits@, index + 1);
            }
        }
        if value > maximum / 10 {
            return None;
        }
        let shifted: u64 = value * 10;
        if digit > maximum - shifted {
            return None;
        }
        value = shifted + digit;
        index += 1;
    }
    assert(digits@.subrange(0, digits.len() as int) =~= digits@);
    Some(value)
}

/// The digit of a number below ten.
pub open spec fn digit_char(value: int) -> char {
    (0x30 + value) as char
}

/// The decimal digits of a number.
pub open spec fn decimal(value: nat) -> Seq<char>
    decreases value,
{
    if value < 10 {
        seq![digit_char(value as int)]
    } else {
        decimal(value / 10).push(digit_char((value % 10) as int))
    }
}

/// The character of a digit.
fn digit_of(value: u64) -> (result: char)
    requires
        value < 10,
    ensures
        result == digit_char(value as int),
{
    (0x30u8 + value as u8) as char
}

/// Puts the decimal digits of a number behind a text.
pub fn push_decimal(text: &mut String, value: u64)
    ensures
        final(text)@ == old(text)@ + decimal(value as nat),
    decreases value,
{
    if value >= 10 {
        push_decimal(text, value / 10);
    }
    let ghost before = text@;
    text.push(digit_of(value % 10));
    proof {
        let digit = digit_char((value % 10) as int);
        assert(before.push(digit) =~= before + seq![digit]);
        if value >= 10 {
            assert(old(text)@ + decimal((value / 10) as nat) == before);
            assert(before.push(digit) =~= old(text)@ + decimal((value / 10) as nat).push(digit));
        }
    }
}

/// The decimal digits of a number.
pub fn decimal_text(value: u64) -> (result: String)
    ensures
        result@ == decimal(value as nat),
{
    let mut text: String = String::new();
    push_decimal(&mut text, value);
    assert(Seq::<char>::empty() + decimal(value as nat) =~= decimal(value as nat));
    text
}

/// Reading the decimal digits of a number gives the number.
pub proof fn decimal_reads_back(value: nat, maximum: int)
    requires
        value <= maximum,
    ensures
        number(decimal(value), maximum) == Some(value as int),
{
    lemma_decimal(value);
    let digits = decimal(value);
    assert(is_digit(digits[0]));
    assert(digits[0] != '+');
}

proof fn lemma_decimal(value: nat)
    ensures
        decimal(value).len() > 0,
        all_digits(decimal(value)),
        digits_value(decimal(value)) == value,
    decreases value,
{
    let digits = decimal(value);
    if value < 10 {
        assert(digits.drop_last() =~= Seq::<char>::empty());
        assert(digits_value(digits.drop_last()) == 0);
        assert(digit_value(digits.last()) == value);
    } else {
        lemma_decimal(value / 10);
        assert(digits.drop_last() =~= decimal(value / 10));
        assert(digit_value(digits.last()) == (value % 10) as int);
    }
}

/// Whether `text` starts with `prefix`.
pub open spec fn begins_with(text: Seq<char>, prefix: Seq<char>) -> bool {
    prefix.len() <= text.len() && text.subrange(0, prefix.len() as int) == prefix
}

/// Whether `text` starts with `prefix`.
pub fn starts_with(text: &[char], prefix: &[char]) -> (result: bool)
    ensures
        result == begins_with(text@, prefix@),
{
    text.len() >= prefix.len() && chars_equal(&text[0..prefix.len()], prefix)
}

/// Whether `text` ends with `suffix`.
pub open spec fn finishes_with(text: Seq<char>, suffix: Seq<char>) -> bool {
    suffix.len() <= text.len() && text.subrange(text.len() - suffix.len(), text.len() as int)
        == suffix
}

/// Whether `text` ends with `suffix`.
pub fn ends_with(text: &[char], suffix: &[char]) -> (result: bool)
    ensures
        result == finishes_with(text@, suffix@),
{
    text.len() >= suffix.len() && chars_equal(&text[text.len() - suffix.len()..text.len()], suffix)
}

/// The texts that vectors of characters hold.
pub open spec fn char_texts(values: Seq<Vec<char>>) -> Seq<Seq<char>> {
    Seq::new(values.len(), |i: int| values[i]@)
}

/// A line without the carriage return at its end.
pub open spec fn without_return(line: Seq<char>) -> Seq<char> {
    if line.len() > 0 && line.last() == '\r' {
        line.drop_last()
    } else {
        line
    }
}

/// The lines of a text from `start` on, without the line feeds and the carriage returns before
/// them. What follows the last line feed is a line where it is not empty.
pub open spec fn text_lines(text: Seq<char>, start: int) -> Seq<Seq<char>>
    decreases text.len() - start,
{
    if start >= text.len() {
        Seq::empty()
    } else {
        let end = index_from(text, '\n', start);
        if end < start || end >= text.len() {
            seq![text.subrange(start, text.len() as int)]
        } else {
            seq![without_return(text.subrange(start, end))] + text_lines(text, end + 1)
        }
    }
}

/// A copy of characters.
pub fn copy_chars(text: &[char]) -> (result: Vec<char>)
    ensures
        result@ == text@,
{
    let mut result: Vec<char> = Vec::new();
    result.extend_from_slice(text);
    assert(result@ =~= text@);
    result
}

/// Splits a text into lines.
pub fn lines_of(text: &[char]) -> (result: Vec<Vec<char>>)
    ensures
        char_texts(result@) == text_lines(text@, 0),
{
    let mut lines: Vec<Vec<char>> = Vec::new();
    let mut start: usize = 0;
    assert(char_texts(lines@) =~= Seq::<Seq<char>>::empty());
    assert(Seq::<Seq<char>>::empty() + text_lines(text@, 0) =~= text_lines(text@, 0));
    while start < text.len()
        invariant
            start <= text.len(),
            text_lines(text@, 0) == char_texts(lines@) + text_lines(text@, start as int),
        decreases text.len() - start,
    {
        let end: usize = find_char(text, '\n', start);
        let ghost before = char_texts(lines@);
        if end == text.len() {
            let line: Vec<char> = copy_chars(&text[start..end]);
            lines.push(line);
            proof {
                assert(char_texts(lines@) =~= before + seq![line@]);
                assert(char_texts(lines@) + Seq::<Seq<char>>::empty() =~= char_texts(lines@));
            }
            start = end;
        } else {
            let whole: &[char] = &text[start..end];
            let line: Vec<char> = if whole.len() > 0 && whole[whole.len() - 1] == '\r' {
                assert(whole@.subrange(0, whole.len() - 1) =~= whole@.drop_last());
                copy_chars(&whole[0..whole.len() - 1])
            } else {
                copy_chars(whole)
            };
            lines.push(line);
            proof {
                assert(char_texts(lines@) =~= before + seq![line@]);
                assert(before + (seq![line@] + text_lines(text@, end + 1)) =~= before + seq![
                    line@,
                ] + text_lines(text@, end + 1));
            }
            start = end + 1;
        }
    }
    assert(char_texts(lines@) + Seq::<Seq<char>>::empty() =~= char_texts(lines@));
    lines
}

} // verus!
