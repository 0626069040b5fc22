//! The lines of files: which of them `sed` prints, and how `cat` and `sed` print them.

use vstd::prelude::*;
use vstd::utf8::*;
use crate::ascii::{CARRIAGE_RETURN, LINE_FEED};
use crate::chars;
use crate::chars::{find_char, parse_number, to_chars, trim};
use crate::text;
use crate::text::lossy_text;

verus! {

/// The lines that `sed` prints; without an end, all from the start on.
#[derive(Clone, Copy, Debug, PartialEq, Eq, Structural)]
pub struct SedLineRange {
    pub start: u64,
    pub end: Option<u64>,
}

/// A number of a line, which is at least 1.
pub open spec fn line_number(text: Seq<char>) -> Option<int> {
    match chars::number(text, u64::MAX as int) {
        Some(value) => if value > 0 {
            Some(value)
        } else {
            None
        },
        None => None,
    }
}

/// Reads the number of a line.
pub fn parse_positive_line_number(value: &[char]) -> (result: Option<u64>)
    ensures
        match result {
            Some(number) => line_number(value@) == Some(number as int),
            None => line_number(value@) is None,
        },
{
    match parse_number(value, u64::MAX) {
        Some(number) => if number > 0 {
            Some(number)
        } else {
            None
        },
        None => None,
    }
}

/// The range from `start` to what `end_text` says, where there is one.
pub open spec fn range_of(start: int, end_text: Option<Seq<char>>) -> Result<
    SedLineRange,
    Seq<char>,
> {
    match end_text {
        None => Ok(SedLineRange { start: start as u64, end: Some(start as u64) }),
        Some(text) => if text.len() == 0 {
            Err("sed の終了行が指定されていません"@)
        } else if text.len() == 1 && text[0] == '$' {
            Ok(SedLineRange { start: start as u64, end: None })
        } else {
            match line_number(text) {
                None => Err("sed の行番号は1以上の整数で指定してください"@),
                Some(end) => if end < start {
                    Err("sed の終了行は開始行以上でなければなりません"@)
                } else {
                    Ok(SedLineRange { start: start as u64, end: Some(end as u64) })
                },
            }
        },
    }
}

/// The range that a script asks for: one line number, or two with a comma between them, the second
/// of which may be `$`, and then a `p`. White space around each is passed over.
pub open spec fn parsed_script(script: Seq<char>) -> Result<SedLineRange, Seq<char>> {
    let whole = chars::trimmed(script);
    let addresses = whole.drop_last();
    let comma = chars::index_from(addresses, ',', 0);
    let second = chars::index_from(addresses, ',', comma + 1);
    let start_text = chars::trimmed(addresses.subrange(0, comma));
    let end_text = if comma >= addresses.len() {
        None
    } else {
        Some(chars::trimmed(addresses.subrange(comma + 1, second)))
    };
    if whole.len() == 0 || whole.last() != 'p' {
        Err("sed が対応するスクリプトは '10p'、'10,20p'、'10,$p' です"@)
    } else if (comma < addresses.len() && second < addresses.len()) || start_text.len() == 0 {
        Err("sed の表示範囲が不正です"@)
    } else {
        match line_number(start_text) {
            None => Err("sed の行番号は1以上の整数で指定してください"@),
            Some(start) => range_of(start, end_text),
        }
    }
}

/// Reads a script for `sed`.
pub fn parse_sed_print_script(script: &str) -> (result: Result<SedLineRange, String>)
    ensures
        match result {
            Ok(range) => parsed_script(script@) == Ok::<SedLineRange, Seq<char>>(range),
            Err(message) => parsed_script(script@) == Err::<SedLineRange, Seq<char>>(message@),
        },
{
    let characters: Vec<char> = to_chars(script);
    let whole: &[char] = trim(characters.as_slice());
    if whole.len() == 0 || whole[whole.len() - 1] != 'p' {
        return Err(
            "sed が対応するスクリプトは '10p'、'10,20p'、'10,$p' です".to_owned(),
        );
    }
    assert(whole@.subrange(0, whole.len() - 1) =~= whole@.drop_last());
    let addresses: &[char] = &whole[0..whole.len() - 1];
    let comma: usize = find_char(addresses, ',', 0);
    let start_text: &[char] = trim(&addresses[0..comma]);
    let end_text: Option<&[char]> = if comma < addresses.len() {
        let second: usize = find_char(addresses, ',', comma + 1);
        if second < addresses.len() {
            return Err("sed の表示範囲が不正です".to_owned());
        }
        Some(trim(&addresses[comma + 1..second]))
    } else {
        None
    };
    if start_text.len() == 0 {
        return Err("sed の表示範囲が不正です".to_owned());
    }
    let start: u64 = match parse_positive_line_number(start_text) {
        Some(start) => start,
        None => {
            return Err("sed の行番号は1以上の整数で指定してください".to_owned());
        },
    };
    match end_text {
        None => Ok(SedLineRange { start, end: Some(start) }),
        Some(text) => {
            if text.len() == 0 {
                return Err("sed の終了行が指定されていません".to_owned());
            }
            if text.len() == 1 && text[0] == '$' {
                return Ok(SedLineRange { start, end: None });
            }
            match parse_positive_line_number(text) {
                None => Err("sed の行番号は1以上の整数で指定してください".to_owned()),
                Some(end) => if end < start {
                    Err("sed の終了行は開始行以上でなければなりません".to_owned())
                } else {
                    Ok(SedLineRange { start, end: Some(end) })
                },
            }
        },
    }
}

/// A range that `sed` accepts starts at line 1 or later and does not end before it starts.
pub proof fn accepted_ranges_are_in_order(script: Seq<char>)
    ensures
        parsed_script(script) matches Ok(range) ==> range.start >= 1 && (
        range.end matches Some(end) ==> range.start <= end),
{
}

/// The positions of a byte in order.
pub open spec fn positions_of(bytes: Seq<u8>, needle: u8, positions: Seq<int>) -> bool {
    &&& forall|i: int|
        0 <= i < positions.len() ==> 0 <= #[trigger] positions[i] < bytes.len()
            && bytes[positions[i]] == needle
    &&& forall|i: int, j: int|
        0 <= i < j < positions.len() ==> #[trigger] positions[i] < #[trigger] positions[j]
    &&& forall|k: int|
        0 <= k < bytes.len() && #[trigger] bytes[k] == needle ==> positions.contains(k)
}

/// Machine positions as mathematical ones.
pub open spec fn as_positions(values: Seq<usize>) -> Seq<int> {
    Seq::new(values.len(), |i: int| values[i] as int)
}

/// Calls `memchr::memchr_iter`, which gives every position of a byte, from the first to the last.
#[verifier::external_body]
pub(crate) fn byte_positions(needle: u8, bytes: &[u8]) -> (result: Vec<usize>)
    ensures
        positions_of(bytes@, needle, as_positions(result@)),
{
    memchr::memchr_iter(needle, bytes).collect()
}

/// The number of line feeds.
pub open spec fn line_feeds(bytes: Seq<u8>) -> nat
    decreases bytes.len(),
{
    if bytes.len() == 0 {
        0
    } else {
        line_feeds(bytes.drop_last()) + if bytes.last() == LINE_FEED {
            1nat
        } else {
            0
        }
    }
}

/// What skipping lines in a part of a file comes to.
#[derive(Clone, Copy, Debug, PartialEq, Eq, Structural)]
pub struct SkipStep {
    /// The number of bytes that are done with.
    pub consumed: usize,
    /// The number of lines that are still to be skipped.
    pub left: u64,
}

/// Whether `consumed` bytes are those up to and with the line feed that ends the last of `count`
/// lines or, where there are fewer, all bytes.
pub open spec fn skipped(bytes: Seq<u8>, count: int, step: SkipStep) -> bool {
    if line_feeds(bytes) < count {
        &&& step.consumed == bytes.len()
        &&& step.left == count - line_feeds(bytes)
    } else {
        &&& step.left == 0
        &&& 0 < step.consumed <= bytes.len()
        &&& bytes[step.consumed - 1] == LINE_FEED
        &&& line_feeds(bytes.subrange(0, step.consumed as int)) == count
    }
}

/// The number of line feeds before the one at a position is its number among them.
proof fn lemma_feeds_before(bytes: Seq<u8>, positions: Seq<int>, index: int)
    requires
        positions_of(bytes, LINE_FEED, positions),
        0 <= index <= positions.len(),
    ensures
        index < positions.len() ==> line_feeds(bytes.subrange(0, positions[index])) == index,
        index == positions.len() ==> line_feeds(bytes) == index,
    decreases index,
{
    let end = if index < positions.len() {
        positions[index]
    } else {
        bytes.len() as int
    };
    let start = if index == 0 {
        0
    } else {
        positions[index - 1] + 1
    };
    assert(bytes.subrange(0, bytes.len() as int) =~= bytes);
    if index > 0 {
        lemma_feeds_before(bytes, positions, index - 1);
        let upto = bytes.subrange(0, start);
        assert(upto.drop_last() =~= bytes.subrange(0, positions[index - 1]));
        assert(upto.last() == LINE_FEED);
    } else {
        assert(bytes.subrange(0, 0) =~= Seq::<u8>::empty());
    }
    assert forall|k: int| start <= k < end implies #[trigger] bytes[k] != LINE_FEED by {
        if bytes[k] == LINE_FEED {
            assert(positions.contains(k));
            let j = choose|j: int| 0 <= j < positions.len() && positions[j] == k;
            assert(positions[j] == k);
            if index < positions.len() && j > index {
                assert(positions[index] < positions[j]);
            }
            if index > 0 && j < index - 1 {
                assert(positions[j] < positions[index - 1]);
            }
        }
    }
    lemma_no_feeds(bytes, start, end);
}

proof fn lemma_no_feeds(bytes: Seq<u8>, start: int, end: int)
    requires
        0 <= start <= end <= bytes.len(),
        forall|k: int| start <= k < end ==> #[trigger] bytes[k] != LINE_FEED,
    ensures
        line_feeds(bytes.subrange(0, end)) == line_feeds(bytes.subrange(0, start)),
    decreases end - start,
{
    if start < end {
        lemma_no_feeds(bytes, start, end - 1);
        let here = bytes.subrange(0, end);
        assert(here.drop_last() =~= bytes.subrange(0, end - 1));
        assert(here.last() == bytes[end - 1]);
    }
}

/// Skips lines in a part of a file.
pub fn skip_lines(available: &[u8], count: u64) -> (result: SkipStep)
    requires
        count > 0,
    ensures
        skipped(available@, count as int, result),
{
    let positions: Vec<usize> = byte_positions(LINE_FEED, available);
    let ghost places = as_positions(positions@);
    proof {
        lemma_feeds_before(available@, places, places.len() as int);
    }
    let total: usize = available.len();
    if (positions.len() as u64) < count {
        return SkipStep { consumed: total, left: count - positions.len() as u64 };
    }
    let index: usize = (count - 1) as usize;
    assert(places[index as int] == positions[index as int] < total);
    let consumed: usize = positions[index] + 1;
    proof {
        lemma_feeds_before(available@, places, index as int);
        let upto = available@.subrange(0, consumed as int);
        assert(upto.drop_last() =~= available@.subrange(0, places[index as int]));
        assert(upto.last() == available[places[index as int]]);
    }
    SkipStep { consumed, left: 0 }
}

/// Where a file is cut into parts does not matter: skipping what is left in the second of two parts
/// ends where skipping in both together ends.
pub proof fn cuts_do_not_matter(
    first: Seq<u8>,
    second: Seq<u8>,
    count: int,
    step: SkipStep,
    next: SkipStep,
    whole: SkipStep,
)
    requires
        skipped(first, count, step),
        step.left > 0,
        skipped(second, step.left as int, next),
        skipped(first + second, count, whole),
    ensures
        whole.left == next.left,
        whole.consumed == first.len() + next.consumed,
{
    lemma_feeds_add(first, second);
    let both = first + second;
    if next.left == 0 && line_feeds(second) >= step.left {
        let end = first.len() + next.consumed;
        let tail = second.subrange(0, next.consumed as int);
        assert(both.subrange(0, end) =~= first + tail);
        lemma_feeds_add(first, tail);
        assert(both[end - 1] == LINE_FEED);
        let other = whole.consumed as int;
        if other < end {
            lemma_feeds_grow(both, other, end);
        } else if end < other {
            lemma_feeds_grow(both, end, other);
        }
    }
}

proof fn lemma_feeds_add(first: Seq<u8>, second: Seq<u8>)
    ensures
        line_feeds(first + second) == line_feeds(first) + line_feeds(second),
    decreases second.len(),
{
    let both = first + second;
    if second.len() == 0 {
        assert(both =~= first);
    } else {
        lemma_feeds_add(first, second.drop_last());
        assert(both.drop_last() =~= first + second.drop_last());
        assert(both.last() == second.last());
    }
}

/// A longer beginning that ends in a line feed holds more of them.
proof fn lemma_feeds_grow(bytes: Seq<u8>, shorter: int, longer: int)
    requires
        0 <= shorter < longer <= bytes.len(),
        bytes[longer - 1] == LINE_FEED,
    ensures
        line_feeds(bytes.subrange(0, shorter)) < line_feeds(bytes.subrange(0, longer)),
{
    let upto = bytes.subrange(0, longer);
    let middle = bytes.subrange(shorter, longer - 1);
    assert(upto.drop_last() =~= bytes.subrange(0, shorter) + middle);
    lemma_feeds_add(bytes.subrange(0, shorter), middle);
}

/// Whether this is how long the whole lines at the start of bytes are: up to and with the last line feed.
pub open spec fn ends_whole_lines(bytes: Seq<u8>, length: int) -> bool {
    &&& 0 <= length <= bytes.len()
    &&& length > 0 ==> bytes[length - 1] == LINE_FEED
    &&& forall|i: int| length <= i < bytes.len() ==> bytes[i] != LINE_FEED
}

/// How long the whole lines at the start of bytes are, behind which a line is cut off.
pub fn whole_lines_length(bytes: &[u8]) -> (result: usize)
    ensures
        ends_whole_lines(bytes@, result as int),
{
    let mut length: usize = bytes.len();
    while length > 0 && bytes[length - 1] != LINE_FEED
        invariant
            length <= bytes.len(),
            forall|i: int| length <= i < bytes.len() ==> bytes[i] != LINE_FEED,
        decreases length,
    {
        length -= 1;
    }
    length
}

/// A line without the line feed at its end and the carriage return before that.
pub open spec fn without_line_ending(line: Seq<u8>) -> Seq<u8> {
    if line.len() > 0 && line.last() == LINE_FEED {
        text::without_carriage_return(line.drop_last())
    } else {
        line
    }
}

/// Takes the ending off a line.
pub fn strip_line_ending(bytes: &mut Vec<u8>)
    ensures
        final(bytes)@ == without_line_ending(old(bytes)@),
{
    if bytes.len() > 0 && bytes[bytes.len() - 1] == LINE_FEED {
        bytes.pop();
        assert(bytes@ =~= old(bytes)@.drop_last());
        if bytes.len() > 0 && bytes[bytes.len() - 1] == CARRIAGE_RETURN {
            let ghost before = bytes@;
            bytes.pop();
            assert(bytes@ =~= before.drop_last());
        }
    }
}

/// What is still to be printed of a file.
#[derive(Clone, Copy, Debug, PartialEq, Eq, Structural)]
pub struct LinePrinter {
    pub remaining: Option<u64>,
}

impl LinePrinter {
    /// Prints all lines.
    pub fn all() -> (result: Self)
        ensures
            result.remaining is None,
    {
        LinePrinter { remaining: None }
    }

    /// Prints the lines of a range, once those before it were skipped.
    pub fn for_range(range: &SedLineRange) -> (result: Self)
        requires
            range.start >= 1,
            range.end matches Some(end) ==> range.start <= end,
        ensures
            match range.end {
                Some(end) => result.remaining == Some((end - range.start + 1) as u64),
                None => result.remaining is None,
            },
    {
        match range.end {
            Some(end) => LinePrinter { remaining: Some(end - range.start + 1) },
            None => LinePrinter { remaining: None },
        }
    }

    /// Whether no line is left to print.
    pub fn is_finished(&self) -> (result: bool)
        ensures
            result == (self.remaining == Some(0u64)),
    {
        match self.remaining {
            Some(left) => left == 0,
            None => false,
        }
    }

    /// The text of the next line, whose bytes come with their ending.
    pub fn line(&mut self, bytes: Vec<u8>) -> (result: String)
        requires
            old(self).remaining != Some(0u64),
        ensures
            result@ == text::lossy(without_line_ending(bytes@)),
            valid_utf8(without_line_ending(bytes@)) ==> result@ == decode_utf8(
                without_line_ending(bytes@),
            ),
            match old(self).remaining {
                Some(left) => final(self).remaining == Some((left - 1) as u64),
                None => final(self).remaining is None,
            },
    {
        let mut bytes: Vec<u8> = bytes;
        strip_line_ending(&mut bytes);
        match self.remaining {
            Some(left) => {
                self.remaining = Some(left - 1);
            },
            None => {},
        }
        lossy_text(bytes.as_slice())
    }
}

/// The lines of a file, each with the line feed that ends it; the last may have none.
pub open spec fn file_lines(bytes: Seq<u8>) -> Seq<Seq<u8>>
    decreases bytes.len(),
{
    let end = text::line_end(bytes, 0);
    if bytes.len() == 0 {
        Seq::empty()
    } else if end < 0 || end >= bytes.len() {
        seq![bytes]
    } else {
        seq![bytes.subrange(0, end + 1)] + file_lines(bytes.skip(end + 1))
    }
}

/// The texts of the first of lines, up to a number of them where there is one.
pub open spec fn printed(lines: Seq<Seq<u8>>, remaining: Option<u64>) -> Seq<Seq<char>> {
    let count = match remaining {
        Some(left) => if left < lines.len() {
            left as nat
        } else {
            lines.len()
        },
        None => lines.len(),
    };
    Seq::new(count, |i: int| text::lossy(without_line_ending(lines[i])))
}

/// The texts of the lines of a file that are in a range.
pub open spec fn range_texts(bytes: Seq<u8>, range: SedLineRange) -> Seq<Seq<char>> {
    let lines = file_lines(bytes);
    let end = match range.end {
        Some(end) => if end < lines.len() {
            end as int
        } else {
            lines.len() as int
        },
        None => lines.len() as int,
    };
    if end < range.start {
        Seq::empty()
    } else {
        Seq::new(
            (end - range.start + 1) as nat,
            |i: int| text::lossy(without_line_ending(lines[range.start - 1 + i])),
        )
    }
}

/// Printing lines one by one prints what is printed of all of them.
pub proof fn lines_are_printed_one_by_one(lines: Seq<Seq<u8>>, remaining: Option<u64>)
    requires
        lines.len() > 0,
        remaining != Some(0u64),
    ensures
        printed(lines, remaining) == seq![text::lossy(without_line_ending(lines[0]))] + printed(
            lines.skip(1),
            match remaining {
                Some(left) => Some((left - 1) as u64),
                None => None,
            },
        ),
        printed(lines, Some(0)) == Seq::<Seq<char>>::empty(),
{
}

/// What is printed of a file behind the lines before a range is what the file holds in the range; where
/// the file ends before the range begins, it holds nothing in it.
pub proof fn range_prints_its_lines(
    bytes: Seq<u8>,
    range: SedLineRange,
    step: SkipStep,
    printer: LinePrinter,
)
    requires
        range.start >= 1,
        range.end matches Some(end) ==> range.start <= end,
        range.start == 1 ==> step == (SkipStep { consumed: 0, left: 0 }),
        range.start > 1 ==> skipped(bytes, range.start - 1, step),
        printer.remaining == match range.end {
            Some(end) => Some((end - range.start + 1) as u64),
            None => None,
        },
    ensures
        step.left > 0 ==> range_texts(bytes, range).len() == 0,
        step.left == 0 ==> range_texts(bytes, range) == printed(
            file_lines(bytes.skip(step.consumed as int)),
            printer.remaining,
        ),
{
    if range.start == 1 {
        assert(bytes.skip(0) =~= bytes);
    } else {
        lemma_skipped_lines(bytes, range.start - 1, step);
    }
    assert(step.left == 0 ==> range_texts(bytes, range) =~= printed(
        file_lines(bytes.skip(step.consumed as int)),
        printer.remaining,
    ));
}

proof fn lemma_line_end(bytes: Seq<u8>, from: int)
    requires
        0 <= from <= bytes.len(),
    ensures
        from <= text::line_end(bytes, from) <= bytes.len(),
        text::line_end(bytes, from) < bytes.len() ==> bytes[text::line_end(bytes, from)]
            == LINE_FEED,
        forall|k: int|
            from <= k < text::line_end(bytes, from) ==> #[trigger] bytes[k] != LINE_FEED,
    decreases bytes.len() - from,
{
    if from < bytes.len() && bytes[from] != LINE_FEED {
        lemma_line_end(bytes, from + 1);
    }
}

/// Behind the first line, one line fewer is skipped.
proof fn lemma_first_line_skipped(bytes: Seq<u8>, end: int, count: int, step: SkipStep)
    requires
        count > 0,
        skipped(bytes, count, step),
        0 <= end < bytes.len(),
        bytes[end] == LINE_FEED,
        forall|k: int| 0 <= k < end ==> #[trigger] bytes[k] != LINE_FEED,
    ensures
        step.left == 0 ==> end < step.consumed,
        step.left == 0 && count == 1 ==> step.consumed == end + 1,
        count == 1 ==> step.left == 0,
        count > 1 ==> skipped(
            bytes.skip(end + 1),
            count - 1,
            SkipStep { consumed: (step.consumed - end - 1) as usize, left: step.left },
        ),
{
    let first = bytes.subrange(0, end + 1);
    let rest = bytes.skip(end + 1);
    assert(bytes.subrange(0, 0) =~= Seq::<u8>::empty());
    lemma_no_feeds(bytes, 0, end);
    assert(first.drop_last() =~= bytes.subrange(0, end));
    assert(line_feeds(first) == 1);
    assert(bytes =~= first + rest);
    lemma_feeds_add(first, rest);
    if step.left == 0 {
        let consumed = step.consumed as int;
        if consumed <= end {
            lemma_feeds_grow(bytes, consumed, end + 1);
        }
        let part = rest.subrange(0, consumed - end - 1);
        assert(bytes.subrange(0, consumed) =~= first + part);
        lemma_feeds_add(first, part);
        if count == 1 && consumed > end + 1 {
            lemma_feeds_grow(bytes, end + 1, consumed);
        }
        if consumed == end + 1 {
            assert(part =~= Seq::<u8>::empty());
        }
    }
}

/// Skipping lines leaves the lines behind them.
proof fn lemma_skipped_lines(bytes: Seq<u8>, count: int, step: SkipStep)
    requires
        count > 0,
        skipped(bytes, count, step),
    ensures
        step.left > 0 ==> file_lines(bytes).len() <= count,
        step.left == 0 ==> file_lines(bytes).len() >= count && file_lines(bytes).skip(count)
            == file_lines(bytes.skip(step.consumed as int)),
    decreases count,
{
    let end = text::line_end(bytes, 0);
    lemma_line_end(bytes, 0);
    if end >= bytes.len() {
        assert(bytes.subrange(0, bytes.len() as int) =~= bytes);
        assert(bytes.subrange(0, 0) =~= Seq::<u8>::empty());
        lemma_no_feeds(bytes, 0, bytes.len() as int);
    } else {
        let rest = bytes.skip(end + 1);
        let behind = file_lines(rest);
        lemma_first_line_skipped(bytes, end, count, step);
        assert(file_lines(bytes) == seq![bytes.subrange(0, end + 1)] + behind);
        if count == 1 {
            assert(file_lines(bytes).skip(1) =~= behind);
        } else {
            let consumed = (step.consumed - end - 1) as usize;
            lemma_skipped_lines(rest, count - 1, SkipStep { consumed, left: step.left });
            if step.left == 0 {
                assert(rest.skip(consumed as int) =~= bytes.skip(step.consumed as int));
                assert(file_lines(bytes).skip(count) =~= behind.skip(count - 1));
            }
        }
    }
}

} // verus!
