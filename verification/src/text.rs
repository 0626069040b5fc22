//! Views and small operations on strings and byte strings.

use vstd::prelude::*;
use vstd::utf8::*;
use crate::ascii::{CARRIAGE_RETURN, LINE_FEED};
use crate::platform;
use crate::platform::{folded_bytes_equal, Platform};

verus! {

/// The byte strings that a vector of byte vectors holds.
pub open spec fn byte_strings(values: Seq<Vec<u8>>) -> Seq<Seq<u8>> {
    Seq::new(values.len(), |i: int| values[i]@)
}

/// The texts that a vector of strings holds.
pub open spec fn texts(values: Seq<String>) -> Seq<Seq<char>> {
    Seq::new(values.len(), |i: int| values[i]@)
}

/// The text that an optional string holds.
pub open spec fn optional_text(value: Option<String>) -> Option<Seq<char>> {
    match value {
        Some(text) => Some(text@),
        None => None,
    }
}

/// The text that `String::from_utf8_lossy` makes of bytes.
pub uninterp spec fn lossy(bytes: Seq<u8>) -> Seq<char>;

/// Calls `String::from_utf8_lossy`. Its result depends on the bytes alone, and well-formed UTF-8
/// comes out as it is.
#[verifier::external_body]
pub(crate) fn lossy_text(bytes: &[u8]) -> (result: String)
    ensures
        result@ == lossy(bytes@),
        valid_utf8(bytes@) ==> result@ == decode_utf8(bytes@),
{
    String::from_utf8_lossy(bytes).into_owned()
}

/// Whether the bytes of half a surrogate pair stand at a place. Windows lets names hold such halves, which
/// no text does.
pub open spec fn is_surrogate_at(bytes: Seq<u8>, at: int) -> bool {
    &&& 0 <= at
    &&& at + 2 < bytes.len()
    &&& bytes[at] == 0xed
    &&& 0xa0 <= bytes[at + 1] <= 0xbf
    &&& 0x80 <= bytes[at + 2] <= 0xbf
}

/// The bytes from a place on with the bytes of one replacement character for each half of a surrogate
/// pair.
pub open spec fn surrogates_replaced(bytes: Seq<u8>, from: int) -> Seq<u8>
    decreases bytes.len() - from,
{
    if from < 0 || from >= bytes.len() {
        Seq::empty()
    } else if is_surrogate_at(bytes, from) {
        seq![0xefu8, 0xbfu8, 0xbdu8] + surrogates_replaced(bytes, from + 3)
    } else {
        seq![bytes[from]] + surrogates_replaced(bytes, from + 1)
    }
}

/// A path as text, with a replacement character for what is not text.
pub open spec fn path_shown(platform: Platform, bytes: Seq<u8>) -> Seq<char> {
    match platform {
        Platform::Windows => lossy(surrogates_replaced(bytes, 0)),
        Platform::Other => lossy(bytes),
    }
}

/// Puts the bytes of a replacement character in the place of each half of a surrogate pair.
fn replace_surrogates(bytes: &[u8]) -> (result: Vec<u8>)
    ensures
        result@ == surrogates_replaced(bytes@, 0),
{
    let mut result: Vec<u8> = Vec::new();
    let mut index: usize = 0;
    assert(result@ + surrogates_replaced(bytes@, 0) =~= surrogates_replaced(bytes@, 0));
    while index < bytes.len()
        invariant
            index <= bytes.len(),
            result@ + surrogates_replaced(bytes@, index as int) == surrogates_replaced(bytes@, 0),
        decreases bytes.len() - index,
    {
        let ghost before = result@;
        if bytes.len() - index > 2 && bytes[index] == 0xed && 0xa0 <= bytes[index + 1] && bytes[index
            + 1] <= 0xbf && 0x80 <= bytes[index + 2] && bytes[index + 2] <= 0xbf {
            result.push(0xef);
            result.push(0xbf);
            result.push(0xbd);
            assert(before + (seq![0xefu8, 0xbfu8, 0xbdu8] + surrogates_replaced(bytes@, index + 3))
                =~= result@ + surrogates_replaced(bytes@, index + 3));
            index += 3;
        } else {
            result.push(bytes[index]);
            assert(before + (seq![bytes@[index as int]] + surrogates_replaced(bytes@, index + 1))
                =~= result@ + surrogates_replaced(bytes@, index + 1));
            index += 1;
        }
    }
    assert(result@ + Seq::<u8>::empty() =~= result@);
    result
}

/// A path as text.
pub fn path_text(bytes: &[u8], platform: Platform) -> (result: String)
    ensures
        result@ == path_shown(platform, bytes@),
        platform is Other && valid_utf8(bytes@) ==> result@ == decode_utf8(bytes@),
        platform is Windows && valid_utf8(surrogates_replaced(bytes@, 0)) ==> result@
            == decode_utf8(surrogates_replaced(bytes@, 0)),
{
    match platform {
        Platform::Windows => lossy_text(replace_surrogates(bytes).as_slice()),
        Platform::Other => lossy_text(bytes),
    }
}

/// The message of the error that `std::str::from_utf8` gives for bytes that are not UTF-8.
pub uninterp spec fn utf8_error(bytes: Seq<u8>) -> Seq<char>;

/// Calls `std::str::from_utf8`: well-formed bytes give their text, and any others an error whose
/// message depends on the bytes alone.
#[verifier::external_body]
pub(crate) fn utf8_text(bytes: &[u8]) -> (result: Result<String, String>)
    ensures
        match result {
            Ok(text) => valid_utf8(bytes@) && text@ == decode_utf8(bytes@),
            Err(message) => !valid_utf8(bytes@) && message@ == utf8_error(bytes@),
        },
{
    match std::str::from_utf8(bytes) {
        Ok(text) => Ok(text.to_owned()),
        Err(error) => Err(error.to_string()),
    }
}

/// The text that `str::to_lowercase` makes of a text.
pub uninterp spec fn lower_case(text: Seq<char>) -> Seq<char>;

/// Calls `str::to_lowercase`, whose result depends on the text alone.
#[verifier::external_body]
pub(crate) fn lower_case_text(text: &str) -> (result: String)
    ensures
        result@ == lower_case(text@),
{
    text.to_lowercase()
}

/// A copy of a byte string.
pub fn copy_bytes(bytes: &[u8]) -> (result: Vec<u8>)
    ensures
        result@ == bytes@,
{
    let mut result: Vec<u8> = Vec::new();
    result.extend_from_slice(bytes);
    assert(result@ =~= bytes@);
    result
}

/// Whether `needle` occurs in `bytes`.
pub fn contains_byte(bytes: &[u8], needle: u8) -> (result: bool)
    ensures
        result == bytes@.contains(needle),
{
    let mut index: usize = 0;
    while index < bytes.len()
        invariant
            index <= bytes.len(),
            forall|i: int| 0 <= i < index ==> bytes[i] != needle,
        decreases bytes.len() - index,
    {
        if bytes[index] == needle {
            assert(bytes@[index as int] == needle);
            return true;
        }
        index += 1;
    }
    false
}

/// Whether two byte strings are the same but for the case of ASCII letters.
pub open spec fn same_ignoring_case(left: Seq<u8>, right: Seq<u8>) -> bool {
    platform::folded_all(Platform::Windows, left) == platform::folded_all(Platform::Windows, right)
}

/// Whether two texts are the same but for the case of ASCII letters.
pub fn equal_ignoring_case(left: &str, right: &str) -> (result: bool)
    ensures
        result == same_ignoring_case(encode_utf8(left@), encode_utf8(right@)),
{
    folded_bytes_equal(left.as_bytes(), right.as_bytes(), Platform::Windows)
}

/// Whether two byte strings are the same.
pub fn byte_strings_equal(left: &[u8], right: &[u8]) -> (result: bool)
    ensures
        result == (left@ == right@),
{
    if left.len() != right.len() {
        return false;
    }
    let mut index: usize = 0;
    while index < left.len()
        invariant
            index <= left.len(),
            left.len() == right.len(),
            forall|i: int| 0 <= i < index ==> left[i] == right[i],
        decreases left.len() - index,
    {
        if left[index] != right[index] {
            assert(left@[index as int] != right@[index as int]);
            return false;
        }
        index += 1;
    }
    assert(left@ =~= right@);
    true
}

/// The index of the first line feed at or behind `from`, or the length.
pub open spec fn line_end(bytes: Seq<u8>, from: int) -> int
    decreases bytes.len() - from,
{
    if from >= bytes.len() || bytes[from] == LINE_FEED {
        from
    } else {
        line_end(bytes, from + 1)
    }
}

/// A line without the carriage return at its end.
pub open spec fn without_carriage_return(line: Seq<u8>) -> Seq<u8> {
    if line.len() > 0 && line.last() == CARRIAGE_RETURN {
        line.drop_last()
    } else {
        line
    }
}

/// The lines of a text from `start` on, without the line feeds and the carriage returns before
/// them. What follows the last line feed is a line where it is not empty.
pub open spec fn lines_from(bytes: Seq<u8>, start: int) -> Seq<Seq<u8>>
    decreases bytes.len() - start,
{
    if start >= bytes.len() {
        Seq::empty()
    } else {
        let end = line_end(bytes, start);
        if end < start || end >= bytes.len() {
            seq![bytes.subrange(start, bytes.len() as int)]
        } else {
            seq![without_carriage_return(bytes.subrange(start, end))] + lines_from(bytes, end + 1)
        }
    }
}

/// Takes a carriage return off the end of a line.
pub fn strip_carriage_return(line: &[u8]) -> (result: &[u8])
    ensures
        result@ == without_carriage_return(line@),
{
    if line.len() > 0 && line[line.len() - 1] == CARRIAGE_RETURN {
        assert(line@.subrange(0, line.len() - 1) =~= line@.drop_last());
        &line[0..line.len() - 1]
    } else {
        line
    }
}

/// Splits a text into lines.
pub fn split_lines(bytes: &[u8]) -> (result: Vec<Vec<u8>>)
    ensures
        byte_strings(result@) == lines_from(bytes@, 0),
{
    let mut lines: Vec<Vec<u8>> = Vec::new();
    let mut start: usize = 0;
    assert(byte_strings(lines@) =~= Seq::<Seq<u8>>::empty());
    assert(Seq::<Seq<u8>>::empty() + lines_from(bytes@, 0) =~= lines_from(bytes@, 0));
    while start < bytes.len()
        invariant
            start <= bytes.len(),
            lines_from(bytes@, 0) == byte_strings(lines@) + lines_from(bytes@, start as int),
        decreases bytes.len() - start,
    {
        let mut end: usize = start;
        while end < bytes.len() && bytes[end] != LINE_FEED
            invariant
                start <= end <= bytes.len(),
                line_end(bytes@, start as int) == line_end(bytes@, end as int),
            decreases bytes.len() - end,
        {
            end += 1;
        }
        let ghost before = byte_strings(lines@);
        if end == bytes.len() {
            let line: Vec<u8> = copy_bytes(&bytes[start..end]);
            lines.push(line);
            proof {
                assert(byte_strings(lines@) =~= before + seq![line@]);
                assert(byte_strings(lines@) + Seq::<Seq<u8>>::empty() =~= byte_strings(lines@));
            }
            start = end;
        } else {
            let line: Vec<u8> = copy_bytes(strip_carriage_return(&bytes[start..end]));
            lines.push(line);
            proof {
                assert(byte_strings(lines@) =~= before + seq![line@]);
                assert(before + (seq![line@] + lines_from(bytes@, end + 1)) =~= before + seq![
                    line@,
                ] + lines_from(bytes@, end + 1));
            }
            start = end + 1;
        }
    }
    assert(byte_strings(lines@) + Seq::<Seq<u8>>::empty() =~= byte_strings(lines@));
    lines
}

} // verus!
