//! Brace expansion and validation of command-line globs.

use vstd::prelude::*;
use vstd::utf8::*;
use crate::ascii::{
    CLOSE_BRACE, CLOSE_BRACKET, COMMA, EXCLAMATION, NUL, OPEN_BRACE, OPEN_BRACKET,
};
use crate::glob;
use crate::glob::{
    glob_requires_general_engine, is_escaped_at, CompiledGlob, GlobError, GlobFault, GlobModel,
    MAX_BRACE_EXPANSIONS, MAX_GENERAL_GLOB_BYTES, MAX_USER_GLOB_BYTES,
};
use crate::text;
use crate::text::{contains_byte, copy_bytes};

verus! {

/// Whether a comma that no backslash escapes stands at `index`.
pub open spec fn comma_at(value: Seq<u8>, index: int) -> bool {
    0 <= index < value.len() && value[index] == COMMA && !glob::escaped(value, index)
}

/// Whether a comma that no backslash escapes stands anywhere.
pub open spec fn has_comma(value: Seq<u8>) -> bool {
    exists|index: int| comma_at(value, index)
}

/// Whether `value` holds a comma that no backslash escapes.
pub fn contains_unescaped_comma(value: &[u8]) -> (result: bool)
    ensures
        result == has_comma(value@),
{
    let mut index: usize = 0;
    while index < value.len()
        invariant
            index <= value.len(),
            forall|i: int| 0 <= i < index ==> !comma_at(value@, i),
        decreases value.len() - index,
    {
        if value[index] == COMMA && !is_escaped_at(value, index) {
            assert(comma_at(value@, index as int));
            return true;
        }
        index += 1;
    }
    false
}

/// The parts of `value` between its commas, where the part that is being read began at `start`
/// and `index` is the next byte to look at.
pub open spec fn parts_from(value: Seq<u8>, start: int, index: int) -> Seq<Seq<u8>>
    decreases value.len() - index,
{
    if index >= value.len() {
        seq![value.subrange(start, value.len() as int)]
    } else if comma_at(value, index) {
        seq![value.subrange(start, index)] + parts_from(value, index + 1, index + 1)
    } else {
        parts_from(value, start, index + 1)
    }
}

/// The parts of `value` between the commas that no backslash escapes.
pub open spec fn brace_parts(value: Seq<u8>) -> Seq<Seq<u8>> {
    parts_from(value, 0, 0)
}

/// Splits the inside of a brace at its commas.
pub fn split_brace_parts(value: &[u8]) -> (result: Vec<Vec<u8>>)
    ensures
        text::byte_strings(result@) == brace_parts(value@),
{
    let mut parts: Vec<Vec<u8>> = Vec::new();
    let mut start: usize = 0;
    let mut index: usize = 0;
    while index < value.len()
        invariant
            start <= index <= value.len(),
            brace_parts(value@) == text::byte_strings(parts@) + parts_from(
                value@,
                start as int,
                index as int,
            ),
        decreases value.len() - index,
    {
        if value[index] == COMMA && !is_escaped_at(value, index) {
            let ghost before = text::byte_strings(parts@);
            let part: Vec<u8> = copy_bytes(&value[start..index]);
            parts.push(part);
            proof {
                let piece = value@.subrange(start as int, index as int);
                assert(text::byte_strings(parts@) =~= before.push(piece));
                assert(before + (seq![piece] + parts_from(
                    value@,
                    index + 1,
                    index + 1,
                )) =~= before.push(piece) + parts_from(value@, index + 1, index + 1));
            }
            start = index + 1;
        }
        index += 1;
    }
    let ghost before = text::byte_strings(parts@);
    let part: Vec<u8> = copy_bytes(&value[start..value.len()]);
    parts.push(part);
    proof {
        let piece = value@.subrange(start as int, value.len() as int);
        assert(text::byte_strings(parts@) =~= before + seq![piece]);
    }
    parts
}

/// A comma at or behind `index` makes at least two parts.
pub proof fn comma_makes_two_parts(value: Seq<u8>, start: int, index: int, comma: int)
    requires
        0 <= index <= comma,
        comma_at(value, comma),
    ensures
        parts_from(value, start, index).len() >= 2,
    decreases value.len() - index,
{
    if comma_at(value, index) {
        lemma_parts_not_empty(value, index + 1, index + 1);
    } else {
        comma_makes_two_parts(value, start, index + 1, comma);
    }
}

proof fn lemma_parts_not_empty(value: Seq<u8>, start: int, index: int)
    ensures
        parts_from(value, start, index).len() >= 1,
    decreases value.len() - index,
{
    if index < value.len() && !comma_at(value, index) {
        lemma_parts_not_empty(value, start, index + 1);
    }
}

/// Parts with a comma between each two of them.
pub open spec fn joined_parts(parts: Seq<Seq<u8>>) -> Seq<u8>
    decreases parts.len(),
{
    if parts.len() == 0 {
        Seq::empty()
    } else if parts.len() == 1 {
        parts[0]
    } else {
        parts[0].push(COMMA) + joined_parts(parts.drop_first())
    }
}

/// The parts of the inside of a brace, with commas between them, give the inside back.
pub proof fn joined_parts_give_the_value_back(value: Seq<u8>)
    ensures
        joined_parts(brace_parts(value)) == value,
{
    lemma_joined_parts(value, 0, 0);
    assert(value.subrange(0, value.len() as int) =~= value);
}

proof fn lemma_joined_parts(value: Seq<u8>, start: int, index: int)
    requires
        0 <= start <= index <= value.len(),
    ensures
        joined_parts(parts_from(value, start, index)) == value.subrange(
            start,
            value.len() as int,
        ),
    decreases value.len() - index,
{
    if index < value.len() {
        if comma_at(value, index) {
            let piece = value.subrange(start, index);
            let rest = parts_from(value, index + 1, index + 1);
            let parts = seq![piece] + rest;
            lemma_joined_parts(value, index + 1, index + 1);
            lemma_parts_not_empty(value, index + 1, index + 1);
            assert(parts.drop_first() =~= rest);
            assert(parts[0] == piece);
            assert(piece.push(COMMA) + value.subrange(index + 1, value.len() as int)
                =~= value.subrange(start, value.len() as int));
        } else {
            lemma_joined_parts(value, start, index + 1);
        }
    }
}

/// The first closing brace behind `index` whose brace holds a comma, with its opening brace, where
/// `openings` are the braces still open and `in_class` says whether a `[` is open. Braces inside a
/// class are literal.
pub open spec fn brace_from(
    pattern: Seq<u8>,
    index: int,
    openings: Seq<int>,
    in_class: bool,
) -> Result<Option<(int, int)>, GlobFault>
    decreases pattern.len() - index,
{
    if index >= pattern.len() {
        if openings.len() > 0 {
            Err(GlobFault::UnclosedBrace)
        } else {
            Ok(None)
        }
    } else if glob::escaped(pattern, index) {
        brace_from(pattern, index + 1, openings, in_class)
    } else if pattern[index] == OPEN_BRACKET {
        brace_from(pattern, index + 1, openings, true)
    } else if pattern[index] == CLOSE_BRACKET {
        brace_from(pattern, index + 1, openings, false)
    } else if pattern[index] == OPEN_BRACE && !in_class {
        brace_from(pattern, index + 1, openings.push(index), in_class)
    } else if pattern[index] == CLOSE_BRACE && !in_class {
        if openings.len() == 0 {
            Err(GlobFault::UnmatchedBrace)
        } else if has_comma(pattern.subrange(openings.last() + 1, index)) {
            Ok(Some((openings.last(), index)))
        } else {
            brace_from(pattern, index + 1, openings.drop_last(), in_class)
        }
    } else {
        brace_from(pattern, index + 1, openings, in_class)
    }
}

/// The brace of `pattern` that is expanded next.
pub open spec fn expandable_brace(pattern: Seq<u8>) -> Result<Option<(int, int)>, GlobFault> {
    brace_from(pattern, 0, Seq::empty(), false)
}

/// The brace that is expanded next is a pair in order around at least one comma.
pub proof fn expandable_brace_holds_a_comma(pattern: Seq<u8>, index: int, openings: Seq<int>, in_class: bool)
    requires
        0 <= index,
        forall|i: int| 0 <= i < openings.len() ==> 0 <= #[trigger] openings[i] < index,
    ensures
        brace_from(pattern, index, openings, in_class) matches Ok(Some((open, close))) ==> 0 <= open
            < close < pattern.len() && has_comma(pattern.subrange(open + 1, close)),
    decreases pattern.len() - index,
{
    if index < pattern.len() {
        expandable_brace_holds_a_comma(pattern, index + 1, openings, in_class);
        expandable_brace_holds_a_comma(pattern, index + 1, openings, true);
        expandable_brace_holds_a_comma(pattern, index + 1, openings, false);
        expandable_brace_holds_a_comma(pattern, index + 1, openings.push(index), in_class);
        if openings.len() > 0 {
            assert(openings.last() == openings[openings.len() - 1]);
            expandable_brace_holds_a_comma(pattern, index + 1, openings.drop_last(), in_class);
        }
    }
}

/// Whether braces are open in order before `index`: none of them is escaped.
spec fn open_before(pattern: Seq<u8>, index: int, openings: Seq<int>) -> bool {
    &&& forall|i: int|
        0 <= i < openings.len() ==> {
            &&& 0 <= #[trigger] openings[i] < index
            &&& pattern[openings[i]] == OPEN_BRACE
            &&& !glob::escaped(pattern, openings[i])
        }
    &&& forall|i: int, j: int|
        0 <= i < j < openings.len() ==> #[trigger] openings[i] < #[trigger] openings[j]
}

/// The brace that is found is one of those that are open, or opens later.
proof fn lemma_found_brace(pattern: Seq<u8>, index: int, openings: Seq<int>, in_class: bool)
    requires
        0 <= index <= pattern.len(),
        open_before(pattern, index, openings),
    ensures
        brace_from(pattern, index, openings, in_class) matches Ok(Some((open, close))) ==> {
            &&& openings.contains(open) || open >= index
            &&& index <= close < pattern.len()
            &&& 0 <= open < close
            &&& pattern[open] == OPEN_BRACE && !glob::escaped(pattern, open)
            &&& pattern[close] == CLOSE_BRACE && !glob::escaped(pattern, close)
        },
    decreases pattern.len() - index,
{
    if index < pattern.len() {
        if glob::escaped(pattern, index) {
            lemma_found_brace(pattern, index + 1, openings, in_class);
        } else if pattern[index] == OPEN_BRACKET {
            lemma_found_brace(pattern, index + 1, openings, true);
        } else if pattern[index] == CLOSE_BRACKET {
            lemma_found_brace(pattern, index + 1, openings, false);
        } else if pattern[index] == OPEN_BRACE && !in_class {
            let more = openings.push(index);
            lemma_found_brace(pattern, index + 1, more, in_class);
            if let Ok(Some((open, _))) = brace_from(pattern, index + 1, more, in_class) {
                if more.contains(open) && open != index {
                    let i = choose|i: int| 0 <= i < more.len() && more[i] == open;
                    assert(openings[i] == open);
                }
            }
        } else if pattern[index] == CLOSE_BRACE && !in_class {
            if openings.len() > 0 {
                let fewer = openings.drop_last();
                assert(openings.contains(openings.last()));
                lemma_found_brace(pattern, index + 1, fewer, in_class);
                if let Ok(Some((open, _))) = brace_from(pattern, index + 1, fewer, in_class) {
                    if fewer.contains(open) {
                        let i = choose|i: int| 0 <= i < fewer.len() && fewer[i] == open;
                        assert(openings[i] == open);
                    }
                }
            }
        } else {
            lemma_found_brace(pattern, index + 1, openings, in_class);
        }
    }
}

/// A byte behind a brace is escaped in the brace's inside exactly where it is in the pattern.
proof fn lemma_escaped_inside(pattern: Seq<u8>, open: int, close: int, index: int)
    requires
        0 <= open < index <= close <= pattern.len(),
        pattern[open] == OPEN_BRACE,
    ensures
        glob::escaped(pattern.subrange(open + 1, close), index - open - 1) == glob::escaped(
            pattern,
            index,
        ),
    decreases index,
{
    if index > open + 1 {
        lemma_escaped_inside(pattern, open, close, index - 1);
    }
}

/// The braces that are open inside of another, by their places in its inside.
spec fn places_inside(openings: Seq<int>, from: int, open: int) -> Seq<int> {
    Seq::new((openings.len() - from) as nat, |i: int| openings[from + i] - open - 1)
}

/// The search goes through the inside of the brace that it finds as it goes through the pattern, and
/// finds no brace there.
proof fn lemma_inside(
    pattern: Seq<u8>,
    index: int,
    openings: Seq<int>,
    in_class: bool,
    place: int,
    close: int,
)
    requires
        0 <= index <= pattern.len(),
        open_before(pattern, index, openings),
        0 <= place < openings.len(),
        brace_from(pattern, index, openings, in_class) == Ok::<Option<(int, int)>, GlobFault>(
            Some((openings[place], close)),
        ),
    ensures
        index <= close < pattern.len(),
        brace_from(
            pattern.subrange(openings[place] + 1, close),
            index - openings[place] - 1,
            places_inside(openings, place + 1, openings[place]),
            in_class,
        ) == Ok::<Option<(int, int)>, GlobFault>(None),
    decreases pattern.len() - index,
{
    lemma_found_brace(pattern, index, openings, in_class);
    let open = openings[place];
    let inside = pattern.subrange(open + 1, close);
    let inner = places_inside(openings, place + 1, open);
    let at = index - open - 1;
    if index == close {
        assert(at == inside.len());
        assert(openings.last() == openings[openings.len() - 1]);
        lemma_found_brace(pattern, index + 1, openings, in_class);
        lemma_found_brace(pattern, index + 1, openings.drop_last(), in_class);
        assert(openings.last() == open);
        if place + 1 < openings.len() {
            assert(openings[place] < openings[openings.len() - 1]);
        }
        assert(inner.len() == 0);
    } else {
        lemma_escaped_inside(pattern, open, close, index);
        assert(inside[at] == pattern[index]);
        if glob::escaped(pattern, index) {
            lemma_inside(pattern, index + 1, openings, in_class, place, close);
        } else if pattern[index] == OPEN_BRACKET {
            lemma_inside(pattern, index + 1, openings, true, place, close);
        } else if pattern[index] == CLOSE_BRACKET {
            lemma_inside(pattern, index + 1, openings, false, place, close);
        } else if pattern[index] == OPEN_BRACE && !in_class {
            let more = openings.push(index);
            lemma_inside(pattern, index + 1, more, in_class, place, close);
            assert(places_inside(more, place + 1, open) =~= inner.push(at));
        } else if pattern[index] == CLOSE_BRACE && !in_class {
            let fewer = openings.drop_last();
            let last = openings.last();
            if place + 1 == openings.len() {
                lemma_found_brace(pattern, index + 1, fewer, in_class);
                if fewer.contains(open) {
                    let i = choose|i: int| 0 <= i < fewer.len() && fewer[i] == open;
                    assert(openings[i] < openings[place]);
                }
                assert(false);
            }
            assert(openings[place] < openings[openings.len() - 1]);
            assert(inner.last() == last - open - 1);
            assert(inside.subrange(inner.last() + 1, at) =~= pattern.subrange(last + 1, index));
            lemma_inside(pattern, index + 1, fewer, in_class, place, close);
            assert(places_inside(fewer, place + 1, open) =~= inner.drop_last());
        } else {
            lemma_inside(pattern, index + 1, openings, in_class, place, close);
        }
    }
}

/// The search comes to the brace that it finds.
proof fn lemma_reached(
    pattern: Seq<u8>,
    index: int,
    openings: Seq<int>,
    in_class: bool,
    open: int,
    close: int,
)
    requires
        0 <= index <= open,
        index <= pattern.len(),
        open_before(pattern, index, openings),
        brace_from(pattern, index, openings, in_class) == Ok::<Option<(int, int)>, GlobFault>(
            Some((open, close)),
        ),
    ensures
        expandable_brace(pattern.subrange(open + 1, close)) == Ok::<
            Option<(int, int)>,
            GlobFault,
        >(None),
    decreases pattern.len() - index, 1int,
{
    lemma_found_brace(pattern, index, openings, in_class);
    if glob::escaped(pattern, index) {
        lemma_reached_step(pattern, index, openings, in_class, open, close);
    } else if pattern[index] == OPEN_BRACKET {
        lemma_reached_step(pattern, index, openings, true, open, close);
    } else if pattern[index] == CLOSE_BRACKET {
        lemma_reached_step(pattern, index, openings, false, open, close);
    } else if pattern[index] == OPEN_BRACE && !in_class {
        let more = openings.push(index);
        if index == open {
            lemma_inside(pattern, index + 1, more, in_class, openings.len() as int, close);
            assert(places_inside(more, more.len() as int, open) =~= Seq::<int>::empty());
        } else {
            lemma_reached(pattern, index + 1, more, in_class, open, close);
        }
    } else if pattern[index] == CLOSE_BRACE && !in_class {
        assert(openings.last() == openings[openings.len() - 1]);
        lemma_reached_step(pattern, index, openings.drop_last(), in_class, open, close);
    } else {
        lemma_reached_step(pattern, index, openings, in_class, open, close);
    }
}

proof fn lemma_reached_step(
    pattern: Seq<u8>,
    index: int,
    openings: Seq<int>,
    in_class: bool,
    open: int,
    close: int,
)
    requires
        0 <= index <= open,
        index < pattern.len(),
        open_before(pattern, index, openings),
        brace_from(pattern, index + 1, openings, in_class) == Ok::<
            Option<(int, int)>,
            GlobFault,
        >(Some((open, close))),
    ensures
        expandable_brace(pattern.subrange(open + 1, close)) == Ok::<
            Option<(int, int)>,
            GlobFault,
        >(None),
    decreases pattern.len() - index, 0int,
{
    lemma_found_brace(pattern, index + 1, openings, in_class);
    if openings.contains(open) {
        let i = choose|i: int| 0 <= i < openings.len() && openings[i] == open;
        assert(openings[i] < index);
    }
    lemma_reached(pattern, index + 1, openings, in_class, open, close);
}

/// The brace that is expanded next is innermost: neither of its two braces is escaped, a comma stands
/// between them, and what stands between them holds no brace that could be expanded.
pub proof fn next_brace_is_innermost(pattern: Seq<u8>)
    ensures
        expandable_brace(pattern) matches Ok(Some((open, close))) ==> {
            &&& 0 <= open < close < pattern.len()
            &&& pattern[open] == OPEN_BRACE && !glob::escaped(pattern, open)
            &&& pattern[close] == CLOSE_BRACE && !glob::escaped(pattern, close)
            &&& has_comma(pattern.subrange(open + 1, close))
            &&& expandable_brace(pattern.subrange(open + 1, close)) == Ok::<
                Option<(int, int)>,
                GlobFault,
            >(None)
        },
{
    expandable_brace_holds_a_comma(pattern, 0, Seq::empty(), false);
    lemma_found_brace(pattern, 0, Seq::empty(), false);
    if let Ok(Some((open, close))) = expandable_brace(pattern) {
        lemma_reached(pattern, 0, Seq::empty(), false, open, close);
    }
}

/// Finds the brace that is to be expanded next; the first one that closes.
pub fn find_expandable_brace(pattern: &[u8], original: &str) -> (result: Result<
    Option<(usize, usize)>,
    GlobError,
>)
    ensures
        match result {
            Ok(Some((open, close))) => {
                &&& expandable_brace(pattern@) == Ok::<Option<(int, int)>, GlobFault>(
                    Some((open as int, close as int)),
                )
                &&& open < close < pattern.len()
            },
            Ok(None) => expandable_brace(pattern@) == Ok::<Option<(int, int)>, GlobFault>(None),
            Err(error) => expandable_brace(pattern@) matches Err(fault) && error.reports(
                fault,
                original@,
            ),
        },
{
    let mut openings: Vec<usize> = Vec::new();
    let mut in_class: bool = false;
    let mut index: usize = 0;
    let ghost mut open_indices: Seq<int> = Seq::empty();
    while index < pattern.len()
        invariant
            index <= pattern.len(),
            open_indices.len() == openings.len(),
            forall|i: int|
                0 <= i < openings.len() ==> open_indices[i] == #[trigger] openings[i] < index,
            expandable_brace(pattern@) == brace_from(
                pattern@,
                index as int,
                open_indices,
                in_class,
            ),
        decreases pattern.len() - index,
    {
        let byte: u8 = pattern[index];
        if is_escaped_at(pattern, index) {
        } else if byte == OPEN_BRACKET {
            in_class = true;
        } else if byte == CLOSE_BRACKET {
            in_class = false;
        } else if byte == OPEN_BRACE && !in_class {
            openings.push(index);
            proof {
                open_indices = open_indices.push(index as int);
            }
        } else if byte == CLOSE_BRACE && !in_class {
            match openings.pop() {
                None => {
                    return Err(GlobError::fault(GlobFault::UnmatchedBrace, original));
                },
                Some(open) => {
                    if contains_unescaped_comma(&pattern[open + 1..index]) {
                        return Ok(Some((open, index)));
                    }
                    proof {
                        open_indices = open_indices.drop_last();
                    }
                },
            }
        }
        index += 1;
    }
    if openings.len() > 0 {
        return Err(GlobError::fault(GlobFault::UnclosedBrace, original));
    }
    Ok(None)
}

/// `pattern` with the brace from `open` to `close` replaced by `part`.
pub open spec fn with_part(pattern: Seq<u8>, open: int, close: int, part: Seq<u8>) -> Seq<u8> {
    pattern.subrange(0, open) + part + pattern.subrange(close + 1, pattern.len() as int)
}

/// `pattern` with its brace replaced by each of `parts` in turn.
pub open spec fn with_each_part(
    pattern: Seq<u8>,
    open: int,
    close: int,
    parts: Seq<Seq<u8>>,
) -> Seq<Seq<u8>> {
    Seq::new(parts.len(), |i: int| with_part(pattern, open, close, parts[i]))
}

/// What a list of patterns expands to, front first, when `generated` counts the patterns that
/// there are so far.
pub open spec fn expansion(pending: Seq<Seq<u8>>, generated: int) -> Result<
    Seq<Seq<u8>>,
    GlobFault,
>
    decreases MAX_BRACE_EXPANSIONS + 1 - generated, pending.len(),
{
    if pending.len() == 0 {
        Ok(Seq::empty())
    } else {
        let rest = pending.drop_first();
        match expandable_brace(pending[0]) {
            Err(fault) => Err(fault),
            Ok(None) => match expansion(rest, generated) {
                Ok(tail) => Ok(seq![pending[0]] + tail),
                Err(fault) => Err(fault),
            },
            Ok(Some((open, close))) => {
                let parts = brace_parts(pending[0].subrange(open + 1, close));
                let total = generated + parts.len() - 1;
                if total > MAX_BRACE_EXPANSIONS {
                    Err(GlobFault::TooManyExpansions)
                } else {
                    proof {
                        expandable_brace_holds_a_comma(pending[0], 0, Seq::empty(), false);
                        let inside = pending[0].subrange(open + 1, close);
                        comma_makes_two_parts(
                            inside,
                            0,
                            0,
                            choose|i: int| comma_at(inside, i),
                        );
                    }
                    expansion(with_each_part(pending[0], open, close, parts) + rest, total)
                }
            },
        }
    }
}

/// What one pattern expands to: its first closing brace with a comma gives way to each of its
/// parts in turn, until no pattern holds such a brace.
pub open spec fn brace_expansion(pattern: Seq<u8>) -> Result<Seq<Seq<u8>>, GlobFault> {
    expansion(seq![pattern], 1)
}

/// `head` in front of what comes out, if anything does.
pub open spec fn after_expanded(
    head: Seq<Seq<u8>>,
    tail: Result<Seq<Seq<u8>>, GlobFault>,
) -> Result<Seq<Seq<u8>>, GlobFault> {
    match tail {
        Ok(values) => Ok(head + values),
        Err(fault) => Err(fault),
    }
}

/// Replaces the brace from `open` to `close` by `part`.
fn replace_brace(pattern: &[u8], open: usize, close: usize, part: &[u8]) -> (result: Vec<u8>)
    requires
        open < close < pattern.len(),
    ensures
        result@ == with_part(pattern@, open as int, close as int, part@),
{
    let mut value: Vec<u8> = copy_bytes(&pattern[0..open]);
    value.extend_from_slice(part);
    value.extend_from_slice(&pattern[close + 1..pattern.len()]);
    assert(value@ =~= with_part(pattern@, open as int, close as int, part@));
    value
}

/// Expands every brace that holds a comma, in the order in which the parts are written.
pub fn expand_braces(pattern: &[u8], original: &str) -> (result: Result<Vec<Vec<u8>>, GlobError>)
    ensures
        match result {
            Ok(patterns) => brace_expansion(pattern@) == Ok::<Seq<Seq<u8>>, GlobFault>(
                text::byte_strings(patterns@),
            ),
            Err(error) => brace_expansion(pattern@) matches Err(fault) && error.reports(
                fault,
                original@,
            ),
        },
{
    let mut pending: Vec<Vec<u8>> = Vec::new();
    pending.push(copy_bytes(pattern));
    let mut expanded: Vec<Vec<u8>> = Vec::new();
    let mut generated: usize = 1;
    proof {
        assert(text::byte_strings(pending@).reverse() =~= seq![pattern@]);
        assert(text::byte_strings(expanded@) =~= Seq::<Seq<u8>>::empty());
        lemma_after_nothing(brace_expansion(pattern@));
    }
    while pending.len() > 0
        invariant
            1 <= generated <= MAX_BRACE_EXPANSIONS,
            brace_expansion(pattern@) == after_expanded(
                text::byte_strings(expanded@),
                expansion(text::byte_strings(pending@).reverse(), generated as int),
            ),
        decreases MAX_BRACE_EXPANSIONS + 1 - generated, pending.len(),
    {
        let ghost whole = pending@;
        let candidate: Vec<u8> = pending.pop().unwrap();
        let ghost rest = text::byte_strings(pending@).reverse();
        let ghost queue = seq![candidate@] + rest;
        proof {
            assert(text::byte_strings(whole).reverse() =~= queue);
            assert(queue[0] == candidate@);
            assert(queue.drop_first() =~= rest);
        }
        match find_expandable_brace(candidate.as_slice(), original) {
            Err(error) => {
                return Err(error);
            },
            Ok(None) => {
                let ghost before = text::byte_strings(expanded@);
                let ghost value = candidate@;
                expanded.push(candidate);
                proof {
                    assert(text::byte_strings(expanded@) =~= before.push(value));
                    assert(expansion(queue, generated as int) == after_expanded(
                        seq![value],
                        expansion(rest, generated as int),
                    ));
                    lemma_move_to_expanded(
                        before,
                        value,
                        expansion(rest, generated as int),
                    );
                }
            },
            Ok(Some((open, close))) => {
                let inside: &[u8] = &candidate.as_slice()[open + 1..close];
                let parts: Vec<Vec<u8>> = split_brace_parts(inside);
                let ghost pieces = brace_parts(inside@);
                proof {
                    expandable_brace_holds_a_comma(candidate@, 0, Seq::empty(), false);
                    comma_makes_two_parts(
                        inside@,
                        0,
                        0,
                        choose|i: int| comma_at(inside@, i),
                    );
                    assert(pieces.len() == parts.len());
                }
                if parts.len() - 1 > MAX_BRACE_EXPANSIONS - generated {
                    return Err(GlobError::fault(GlobFault::TooManyExpansions, original));
                }
                let ghost before_generated = generated as int;
                generated = generated + (parts.len() - 1);
                let ghost kept = pending@;
                let mut left: usize = parts.len();
                while left > 0
                    invariant
                        left <= parts.len(),
                        parts.len() == pieces.len(),
                        pieces == text::byte_strings(parts@),
                        open < close < candidate.len(),
                        rest == text::byte_strings(kept).reverse(),
                        text::byte_strings(pending@).reverse() == with_each_part(
                            candidate@,
                            open as int,
                            close as int,
                            pieces,
                        ).subrange(left as int, pieces.len() as int) + rest,
                    decreases left,
                {
                    left -= 1;
                    let ghost before = text::byte_strings(pending@);
                    let value: Vec<u8> = replace_brace(
                        candidate.as_slice(),
                        open,
                        close,
                        parts[left].as_slice(),
                    );
                    pending.push(value);
                    proof {
                        let all = with_each_part(candidate@, open as int, close as int, pieces);
                        assert(all[left as int] == value@);
                        assert(text::byte_strings(pending@) =~= before.push(value@));
                        assert(before.push(value@).reverse() =~= seq![value@] + before.reverse());
                        assert(seq![value@] + (all.subrange(left + 1, pieces.len() as int) + rest)
                            =~= all.subrange(left as int, pieces.len() as int) + rest);
                    }
                }
                proof {
                    let all = with_each_part(candidate@, open as int, close as int, pieces);
                    assert(all.subrange(0, pieces.len() as int) =~= all);
                    assert(expansion(queue, before_generated) == expansion(
                        all + rest,
                        generated as int,
                    ));
                }
            },
        }
    }
    proof {
        assert(text::byte_strings(pending@).reverse() =~= Seq::<Seq<u8>>::empty());
        assert(text::byte_strings(expanded@) + Seq::<Seq<u8>>::empty() =~= text::byte_strings(
            expanded@,
        ));
    }
    Ok(expanded)
}

proof fn lemma_after_nothing(tail: Result<Seq<Seq<u8>>, GlobFault>)
    ensures
        after_expanded(Seq::empty(), tail) == tail,
{
    if let Ok(values) = tail {
        assert(Seq::<Seq<u8>>::empty() + values =~= values);
    }
}

proof fn lemma_move_to_expanded(
    head: Seq<Seq<u8>>,
    value: Seq<u8>,
    tail: Result<Seq<Seq<u8>>, GlobFault>,
)
    ensures
        after_expanded(head, after_expanded(seq![value], tail)) == after_expanded(
            head.push(value),
            tail,
        ),
{
    if let Ok(values) = tail {
        assert(head + (seq![value] + values) =~= head.push(value) + values);
    }
}

/// Expansion is complete and bounded: none of the patterns that come out holds a brace with a
/// comma, there is at least one of them, and there are no more than `MAX_BRACE_EXPANSIONS`.
pub proof fn brace_expansion_is_complete_and_bounded(pattern: Seq<u8>)
    ensures
        brace_expansion(pattern) matches Ok(patterns) ==> {
            &&& 1 <= patterns.len() <= MAX_BRACE_EXPANSIONS
            &&& forall|i: int|
                0 <= i < patterns.len() ==> expandable_brace(#[trigger] patterns[i]) == Ok::<
                    Option<(int, int)>,
                    GlobFault,
                >(None)
        },
{
    lemma_expansion(seq![pattern], 1);
}

proof fn lemma_expansion(pending: Seq<Seq<u8>>, generated: int)
    requires
        generated <= MAX_BRACE_EXPANSIONS,
        pending.len() <= generated,
    ensures
        expansion(pending, generated) matches Ok(patterns) ==> {
            &&& pending.len() <= patterns.len() <= MAX_BRACE_EXPANSIONS + pending.len() - generated
            &&& forall|i: int|
                0 <= i < patterns.len() ==> expandable_brace(#[trigger] patterns[i]) == Ok::<
                    Option<(int, int)>,
                    GlobFault,
                >(None)
        },
    decreases MAX_BRACE_EXPANSIONS + 1 - generated, pending.len(),
{
    if pending.len() > 0 {
        let rest = pending.drop_first();
        match expandable_brace(pending[0]) {
            Err(_) => {},
            Ok(None) => {
                lemma_expansion(rest, generated);
            },
            Ok(Some((open, close))) => {
                let inside = pending[0].subrange(open + 1, close);
                let parts = brace_parts(inside);
                let total = generated + parts.len() - 1;
                expandable_brace_holds_a_comma(pending[0], 0, Seq::empty(), false);
                comma_makes_two_parts(inside, 0, 0, choose|i: int| comma_at(inside, i));
                if total <= MAX_BRACE_EXPANSIONS {
                    lemma_expansion(
                        with_each_part(pending[0], open, close, parts) + rest,
                        total,
                    );
                }
            },
        }
    }
}

/// A pattern without braces stands for itself.
pub proof fn pattern_without_braces_expands_to_itself(pattern: Seq<u8>)
    requires
        !pattern.contains(OPEN_BRACE),
        !pattern.contains(CLOSE_BRACE),
    ensures
        brace_expansion(pattern) == Ok::<Seq<Seq<u8>>, GlobFault>(seq![pattern]),
{
    lemma_no_brace(pattern, 0, false);
    reveal_with_fuel(expansion, 2);
    assert(seq![pattern].drop_first() =~= Seq::<Seq<u8>>::empty());
    assert(seq![pattern] + Seq::<Seq<u8>>::empty() =~= seq![pattern]);
}

proof fn lemma_no_brace(pattern: Seq<u8>, index: int, in_class: bool)
    requires
        0 <= index,
        !pattern.contains(OPEN_BRACE),
        !pattern.contains(CLOSE_BRACE),
    ensures
        brace_from(pattern, index, Seq::empty(), in_class) == Ok::<Option<(int, int)>, GlobFault>(
            None,
        ),
    decreases pattern.len() - index,
{
    if index < pattern.len() {
        assert(pattern.contains(pattern[index]));
        lemma_no_brace(pattern, index + 1, in_class);
        lemma_no_brace(pattern, index + 1, true);
        lemma_no_brace(pattern, index + 1, false);
    }
}

/// The index of the first `]` at or behind `index` that no backslash escapes, or the length.
pub open spec fn next_class_close(pattern: Seq<u8>, index: int) -> int
    decreases pattern.len() - index,
{
    if index >= pattern.len() || (pattern[index] == CLOSE_BRACKET && !glob::escaped(
        pattern,
        index,
    )) {
        index
    } else {
        next_class_close(pattern, index + 1)
    }
}

/// Whether every class that opens at or behind `index` is closed.
pub open spec fn classes_closed(pattern: Seq<u8>, index: int) -> bool
    decreases pattern.len() - index,
{
    if index >= pattern.len() {
        true
    } else if pattern[index] != OPEN_BRACKET || glob::escaped(pattern, index) {
        classes_closed(pattern, index + 1)
    } else {
        let close = next_class_close(pattern, index + 1);
        close < pattern.len() && index < close && classes_closed(pattern, close + 1)
    }
}

/// What is wrong with a pattern, its braces apart.
pub open spec fn pattern_fault(pattern: Seq<u8>) -> Option<GlobFault> {
    if pattern.contains(NUL) {
        Some(GlobFault::Nul)
    } else if pattern.len() > MAX_GENERAL_GLOB_BYTES && glob::needs_general_engine(pattern) {
        Some(GlobFault::TooComplex)
    } else if !classes_closed(pattern, 0) {
        Some(GlobFault::UnclosedClass)
    } else {
        None
    }
}

/// Refuses a pattern with a NUL, a long pattern for the general engine, and an open class.
pub fn validate_user_glob(pattern: &[u8], original: &str) -> (result: Result<(), GlobError>)
    ensures
        match result {
            Ok(()) => pattern_fault(pattern@) is None,
            Err(error) => pattern_fault(pattern@) matches Some(fault) && error.reports(
                fault,
                original@,
            ),
        },
{
    if contains_byte(pattern, NUL) {
        return Err(GlobError::fault(GlobFault::Nul, original));
    }
    if pattern.len() > MAX_GENERAL_GLOB_BYTES && glob_requires_general_engine(pattern) {
        return Err(GlobError::fault(GlobFault::TooComplex, original));
    }
    let mut index: usize = 0;
    while index < pattern.len()
        invariant
            index <= pattern.len(),
            !pattern@.contains(NUL),
            !(pattern@.len() > MAX_GENERAL_GLOB_BYTES && glob::needs_general_engine(pattern@)),
            classes_closed(pattern@, 0) == classes_closed(pattern@, index as int),
        decreases pattern.len() - index,
    {
        if pattern[index] != OPEN_BRACKET || is_escaped_at(pattern, index) {
            index += 1;
            continue;
        }
        let mut close: usize = index + 1;
        while close < pattern.len() && (pattern[close] != CLOSE_BRACKET || is_escaped_at(
            pattern,
            close,
        ))
            invariant
                index < close <= pattern.len(),
                next_class_close(pattern@, index + 1) == next_class_close(pattern@, close as int),
            decreases pattern.len() - close,
        {
            close += 1;
        }
        if close == pattern.len() {
            return Err(GlobError::fault(GlobFault::UnclosedClass, original));
        }
        index = close + 1;
    }
    Ok(())
}

/// The globs that patterns of the command line compile to.
pub open spec fn user_globs(patterns: Seq<Seq<u8>>) -> Seq<GlobModel> {
    Seq::new(patterns.len(), |i: int| glob::user_glob(patterns[i]))
}

/// What one `-g` value stands for: whether it includes, and its globs. A leading `!` excludes.
pub open spec fn parsed_user_glob(raw: Seq<u8>) -> Result<(bool, Seq<GlobModel>), GlobFault> {
    let includes = raw[0] != EXCLAMATION;
    let pattern = if includes {
        raw
    } else {
        raw.subrange(1, raw.len() as int)
    };
    if raw.len() == 0 {
        Err(GlobFault::Empty)
    } else if raw.len() > MAX_USER_GLOB_BYTES {
        Err(GlobFault::TooLong)
    } else if pattern.len() == 0 {
        Err(GlobFault::EmptyPattern)
    } else {
        match pattern_fault(pattern) {
            Some(fault) => Err(fault),
            None => match brace_expansion(pattern) {
                Err(fault) => Err(fault),
                Ok(patterns) => Ok((includes, user_globs(patterns))),
            },
        }
    }
}

/// What compiled globs stand for.
pub open spec fn glob_models(globs: Seq<CompiledGlob>) -> Seq<GlobModel> {
    Seq::new(globs.len(), |i: int| globs[i]@)
}

/// Parses one `-g` value.
pub fn parse_user_glob(raw: &str) -> (result: Result<(bool, Vec<CompiledGlob>), GlobError>)
    ensures
        match result {
            Ok((includes, globs)) => {
                &&& parsed_user_glob(encode_utf8(raw@)) == Ok::<(bool, Seq<GlobModel>), GlobFault>(
                    (includes, glob_models(globs@)),
                )
                &&& forall|i: int| 0 <= i < globs.len() ==> (#[trigger] globs[i]).wf()
            },
            Err(error) => parsed_user_glob(encode_utf8(raw@)) matches Err(fault) && error.reports(
                fault,
                raw@,
            ),
        },
{
    let bytes: &[u8] = raw.as_bytes();
    if bytes.len() == 0 {
        return Err(GlobError::fault(GlobFault::Empty, raw));
    }
    if bytes.len() > MAX_USER_GLOB_BYTES {
        return Err(GlobError::fault(GlobFault::TooLong, raw));
    }
    let includes: bool = bytes[0] != EXCLAMATION;
    let pattern: &[u8] = if includes {
        bytes
    } else {
        &bytes[1..bytes.len()]
    };
    if pattern.len() == 0 {
        return Err(GlobError::fault(GlobFault::EmptyPattern, raw));
    }
    match validate_user_glob(pattern, raw) {
        Err(error) => {
            return Err(error);
        },
        Ok(()) => {},
    }
    let patterns: Vec<Vec<u8>> = match expand_braces(pattern, raw) {
        Err(error) => {
            return Err(error);
        },
        Ok(patterns) => patterns,
    };
    let mut globs: Vec<CompiledGlob> = Vec::new();
    let mut index: usize = 0;
    while index < patterns.len()
        invariant
            index <= patterns.len(),
            globs.len() == index,
            forall|i: int|
                0 <= i < index ==> (#[trigger] globs[i]).wf() && globs[i]@ == glob::user_glob(
                    patterns[i]@,
                ),
        decreases patterns.len() - index,
    {
        globs.push(CompiledGlob::for_user(patterns[index].as_slice()));
        index += 1;
    }
    assert(glob_models(globs@) =~= user_globs(text::byte_strings(patterns@)));
    Ok((includes, globs))
}

} // verus!
