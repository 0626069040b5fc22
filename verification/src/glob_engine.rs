//! The glob matcher behind ignore files and `-g`: `*`, `?`, `**`, character classes and
//! backslash escapes, over UTF-8 bytes.

use std::collections::HashMap;
use vstd::prelude::*;
use vstd::utf8::*;
use crate::ascii::{
    BACKSLASH, CARET, CLOSE_BRACKET, EXCLAMATION, HYPHEN, OPEN_BRACKET, QUESTION, SLASH, STAR,
};
use crate::platform;
use crate::platform::{fold_ascii, folded_bytes_equal, Platform};

verus! {

/// The most states that one match may record before it gives up.
pub const MAX_GLOB_MEMO_STATES: usize = 262_144;

/// The position behind the character that starts at `index`, judged by its first byte alone.
pub open spec fn boundary_after(bytes: Seq<u8>, index: int) -> int {
    if index >= bytes.len() {
        index
    } else {
        let width: int = if 0xc0 <= bytes[index] <= 0xdf {
            2
        } else if 0xe0 <= bytes[index] <= 0xef {
            3
        } else if 0xf0 <= bytes[index] <= 0xf7 {
            4
        } else {
            1
        };
        if index + width <= bytes.len() {
            index + width
        } else {
            bytes.len() as int
        }
    }
}

/// The position behind the character that starts at `index`; `index` itself past the end.
pub fn next_utf8_boundary(bytes: &[u8], index: usize) -> (result: usize)
    ensures
        result == boundary_after(bytes@, index as int),
{
    if index >= bytes.len() {
        return index;
    }
    let byte: u8 = bytes[index];
    let width: usize = if 0xc0 <= byte && byte <= 0xdf {
        2
    } else if 0xe0 <= byte && byte <= 0xef {
        3
    } else if 0xf0 <= byte && byte <= 0xf7 {
        4
    } else {
        1
    };
    if bytes.len() - index >= width {
        index + width
    } else {
        bytes.len()
    }
}

/// The positions behind one pattern character and the text character that equals it, or `None`.
pub open spec fn literal_step(
    platform: Platform,
    pattern: Seq<u8>,
    p: int,
    text: Seq<u8>,
    t: int,
) -> Option<(int, int)> {
    if p >= pattern.len() || t >= text.len() {
        None
    } else {
        let p_end = boundary_after(pattern, p);
        let t_end = boundary_after(text, t);
        if platform::folded_all(platform, pattern.subrange(p, p_end)) == platform::folded_all(
            platform,
            text.subrange(t, t_end),
        ) {
            Some((p_end, t_end))
        } else {
            None
        }
    }
}

/// A pair of machine positions as a pair of mathematical ones.
pub open spec fn positions(pair: Option<(usize, usize)>) -> Option<(int, int)> {
    match pair {
        Some(found) => Some((found.0 as int, found.1 as int)),
        None => None,
    }
}

/// Matches one literal pattern character at `pattern_index` against the text at `text_index`.
pub fn literal_char_matches(
    pattern: &[u8],
    pattern_index: usize,
    text: &[u8],
    text_index: usize,
    platform: Platform,
) -> (result: Option<(usize, usize)>)
    ensures
        positions(result) == literal_step(
            platform,
            pattern@,
            pattern_index as int,
            text@,
            text_index as int,
        ),
{
    if pattern_index >= pattern.len() || text_index >= text.len() {
        return None;
    }
    let pattern_end: usize = next_utf8_boundary(pattern, pattern_index);
    let text_end: usize = next_utf8_boundary(text, text_index);
    if folded_bytes_equal(
        &pattern[pattern_index..pattern_end],
        &text[text_index..text_end],
        platform,
    ) {
        Some((pattern_end, text_end))
    } else {
        None
    }
}

/// The position of the first `]` at or after `from`, or the pattern's length.
pub open spec fn class_close(pattern: Seq<u8>, from: int) -> int
    decreases pattern.len() - from,
{
    if from >= pattern.len() {
        pattern.len() as int
    } else if pattern[from] == CLOSE_BRACKET {
        from
    } else {
        class_close(pattern, from + 1)
    }
}

/// Whether the class items in `pattern[item..close]` hold the folded byte `actual`.
pub open spec fn class_holds(
    platform: Platform,
    pattern: Seq<u8>,
    item: int,
    close: int,
    actual: u8,
) -> bool
    decreases close - item,
{
    if item >= close {
        false
    } else if item + 2 < close && pattern[item + 1] == HYPHEN {
        ||| platform::folded(platform, pattern[item]) <= actual <= platform::folded(platform, pattern[item + 2])
        ||| class_holds(platform, pattern, item + 3, close, actual)
    } else {
        ||| platform::folded(platform, pattern[item]) == actual
        ||| class_holds(platform, pattern, item + 1, close, actual)
    }
}

/// Whether the class that opens at `start` is negated by `!` or `^`.
pub open spec fn class_negated(pattern: Seq<u8>, start: int) -> bool {
    start + 1 < pattern.len() && (pattern[start + 1] == EXCLAMATION || pattern[start + 1] == CARET)
}

/// Where the items of the class that opens at `start` begin.
pub open spec fn class_first_item(pattern: Seq<u8>, start: int) -> int {
    if class_negated(pattern, start) {
        start + 2
    } else {
        start + 1
    }
}

/// Where the class that opens at `start` closes: a `]` in first place is an item.
pub open spec fn class_end(pattern: Seq<u8>, start: int) -> int {
    let first = class_first_item(pattern, start);
    if first < pattern.len() && pattern[first] == CLOSE_BRACKET {
        class_close(pattern, first + 1)
    } else {
        class_close(pattern, first)
    }
}

/// The positions behind the class that opens at `start` and the text character that it holds.
///
/// A class never matches `/`, and a `[` that nothing closes stands for itself.
pub open spec fn class_step(
    platform: Platform,
    pattern: Seq<u8>,
    start: int,
    text: Seq<u8>,
    t: int,
) -> Option<(int, int)> {
    if t >= text.len() || text[t] == SLASH {
        None
    } else if class_end(pattern, start) >= pattern.len() {
        literal_step(platform, pattern, start, text, t)
    } else {
        let held = class_holds(
            platform,
            pattern,
            class_first_item(pattern, start),
            class_end(pattern, start),
            platform::folded(platform, text[t]),
        );
        if held != class_negated(pattern, start) {
            Some((class_end(pattern, start) + 1, boundary_after(text, t)))
        } else {
            None
        }
    }
}

proof fn lemma_class_close_bounds(pattern: Seq<u8>, from: int)
    requires
        0 <= from,
    ensures
        from <= class_close(pattern, from) || class_close(pattern, from) == pattern.len(),
        class_close(pattern, from) <= pattern.len(),
    decreases pattern.len() - from,
{
    if from < pattern.len() && pattern[from] != CLOSE_BRACKET {
        lemma_class_close_bounds(pattern, from + 1);
    }
}

/// Matches the character class that opens at `start` against the text at `text_index`.
pub fn character_class_matches(
    pattern: &[u8],
    start: usize,
    text: &[u8],
    text_index: usize,
    platform: Platform,
) -> (result: Option<(usize, usize)>)
    requires
        start < pattern.len(),
    ensures
        positions(result) == class_step(
            platform,
            pattern@,
            start as int,
            text@,
            text_index as int,
        ),
{
    if text_index >= text.len() || text[text_index] == SLASH {
        return None;
    }
    let mut cursor: usize = start + 1;
    let negated: bool = cursor < pattern.len() && (pattern[cursor] == EXCLAMATION || pattern[cursor]
        == CARET);
    if negated {
        cursor += 1;
    }
    let class_start: usize = cursor;
    assert(class_start == class_first_item(pattern@, start as int));
    if cursor < pattern.len() && pattern[cursor] == CLOSE_BRACKET {
        cursor += 1;
    }
    while cursor < pattern.len() && pattern[cursor] != CLOSE_BRACKET
        invariant
            class_start <= cursor <= pattern.len(),
            class_end(pattern@, start as int) == class_close(pattern@, cursor as int),
        decreases pattern.len() - cursor,
    {
        cursor += 1;
    }
    if cursor == pattern.len() {
        return literal_char_matches(pattern, start, text, text_index, platform);
    }
    let actual: u8 = fold_ascii(text[text_index], platform);
    let mut matched: bool = false;
    let mut item: usize = class_start;
    while item < cursor
        invariant
            class_start <= item <= cursor < pattern.len(),
            class_holds(platform, pattern@, class_start as int, cursor as int, actual) == (matched
                || class_holds(platform, pattern@, item as int, cursor as int, actual)),
        decreases cursor - item,
    {
        let first: u8 = pattern[item];
        if cursor - item > 2 && pattern[item + 1] == HYPHEN {
            let low: u8 = fold_ascii(first, platform);
            let high: u8 = fold_ascii(pattern[item + 2], platform);
            if low <= actual && actual <= high {
                matched = true;
            }
            item += 3;
        } else {
            if fold_ascii(first, platform) == actual {
                matched = true;
            }
            item += 1;
        }
    }
    if matched != negated {
        Some((cursor + 1, next_utf8_boundary(text, text_index)))
    } else {
        None
    }
}

/// Whether `pattern[p..]` matches exactly `text[t..]`.
///
/// `?` takes one character other than `/`, `*` any number of them, `**` any number of any
/// characters, and `**/` nothing or a prefix that ends in `/`.
pub open spec fn glob_at(
    platform: Platform,
    pattern: Seq<u8>,
    text: Seq<u8>,
    p: int,
    t: int,
) -> bool
    decreases pattern.len() - p, text.len() - t, 0int,
{
    if p >= pattern.len() {
        t == text.len()
    } else if pattern[p] == STAR {
        if p + 1 < pattern.len() && pattern[p + 1] == STAR {
            if p + 2 < pattern.len() && pattern[p + 2] == SLASH {
                ||| glob_at(platform, pattern, text, p + 3, t)
                ||| glob_after_slash(platform, pattern, text, p + 3, t)
            } else {
                glob_star(platform, pattern, text, p + 2, t, true)
            }
        } else {
            glob_star(platform, pattern, text, p + 1, t, false)
        }
    } else if pattern[p] == QUESTION && t < text.len() && text[t] != SLASH {
        glob_at(platform, pattern, text, p + 1, boundary_after(text, t))
    } else {
        match single_step(platform, pattern, p, text, t) {
            Some((next_p, next_t)) => next_p > p && glob_at(
                platform,
                pattern,
                text,
                next_p,
                next_t,
            ),
            None => false,
        }
    }
}

/// Whether `pattern[after..]` matches the text behind some run of characters that starts at `t`.
pub open spec fn glob_star(
    platform: Platform,
    pattern: Seq<u8>,
    text: Seq<u8>,
    after: int,
    t: int,
    across_slashes: bool,
) -> bool
    decreases pattern.len() - after, text.len() - t, 1int,
{
    ||| glob_at(platform, pattern, text, after, t)
    ||| t < text.len() && (across_slashes || text[t] != SLASH) && glob_star(
        platform,
        pattern,
        text,
        after,
        boundary_after(text, t),
        across_slashes,
    )
}

/// Whether `pattern[next..]` matches the text behind some `/` at or after `t`.
pub open spec fn glob_after_slash(
    platform: Platform,
    pattern: Seq<u8>,
    text: Seq<u8>,
    next: int,
    t: int,
) -> bool
    decreases pattern.len() - next, text.len() - t, 1int,
{
    t < text.len() && {
        ||| text[t] == SLASH && glob_at(platform, pattern, text, next, t + 1)
        ||| glob_after_slash(platform, pattern, text, next, boundary_after(text, t))
    }
}

/// The step over one pattern element that is neither a star nor a matching `?`.
pub open spec fn single_step(
    platform: Platform,
    pattern: Seq<u8>,
    p: int,
    text: Seq<u8>,
    t: int,
) -> Option<(int, int)> {
    if pattern[p] == OPEN_BRACKET {
        class_step(platform, pattern, p, text, t)
    } else if pattern[p] == BACKSLASH && p + 1 < pattern.len() {
        literal_step(platform, pattern, p + 1, text, t)
    } else {
        literal_step(platform, pattern, p, text, t)
    }
}

proof fn lemma_single_step_bounds(
    platform: Platform,
    pattern: Seq<u8>,
    p: int,
    text: Seq<u8>,
    t: int,
)
    requires
        0 <= p < pattern.len(),
        0 <= t <= text.len(),
    ensures
        single_step(platform, pattern, p, text, t) matches Some((next_p, next_t)) ==> p < next_p
            <= pattern.len() && t < next_t <= text.len(),
{
    lemma_class_close_bounds(pattern, class_first_item(pattern, p));
    lemma_class_close_bounds(pattern, class_first_item(pattern, p) + 1);
}

/// The number under which the state of pattern position `p` and text position `t` is recorded.
pub open spec fn state_key(text_len: nat, p: int, t: int) -> u128 {
    (p * (text_len + 1) + t) as u128
}

/// What a match from (`p`, `t`) returns, and the record that it leaves, where it starts from the
/// record `memo` and gives up once the record holds [`MAX_GLOB_MEMO_STATES`] states.
pub open spec fn bounded_match(
    platform: Platform,
    pattern: Seq<u8>,
    text: Seq<u8>,
    p: int,
    t: int,
    memo: Map<u128, bool>,
) -> (bool, Map<u128, bool>)
    decreases pattern.len() - p, text.len() - t, 1int,
{
    let key = state_key(text.len(), p, t);
    if memo.contains_key(key) {
        (memo[key], memo)
    } else if memo.len() >= MAX_GLOB_MEMO_STATES {
        (false, memo)
    } else {
        let (matched, left) = bounded_body(platform, pattern, text, p, t, memo);
        (matched, left.insert(key, matched))
    }
}

/// [`bounded_match`] on a state that is not recorded yet.
pub open spec fn bounded_body(
    platform: Platform,
    pattern: Seq<u8>,
    text: Seq<u8>,
    p: int,
    t: int,
    memo: Map<u128, bool>,
) -> (bool, Map<u128, bool>)
    decreases pattern.len() - p, text.len() - t, 0int,
{
    if p >= pattern.len() {
        (t == text.len(), memo)
    } else if pattern[p] == STAR {
        if p + 1 < pattern.len() && pattern[p + 1] == STAR {
            if p + 2 < pattern.len() && pattern[p + 2] == SLASH {
                let (matched, left) = bounded_match(platform, pattern, text, p + 3, t, memo);
                if matched {
                    (true, left)
                } else {
                    bounded_after_slash(platform, pattern, text, p + 3, t, left)
                }
            } else {
                bounded_star(platform, pattern, text, p + 2, t, true, memo)
            }
        } else {
            bounded_star(platform, pattern, text, p + 1, t, false, memo)
        }
    } else if pattern[p] == QUESTION && t < text.len() && text[t] != SLASH {
        bounded_match(platform, pattern, text, p + 1, boundary_after(text, t), memo)
    } else {
        match single_step(platform, pattern, p, text, t) {
            Some((next_p, next_t)) => if next_p > p {
                bounded_match(platform, pattern, text, next_p, next_t, memo)
            } else {
                (false, memo)
            },
            None => (false, memo),
        }
    }
}

/// [`glob_star`] with the record threaded through.
pub open spec fn bounded_star(
    platform: Platform,
    pattern: Seq<u8>,
    text: Seq<u8>,
    after: int,
    t: int,
    across_slashes: bool,
    memo: Map<u128, bool>,
) -> (bool, Map<u128, bool>)
    decreases pattern.len() - after, text.len() - t, 2int,
{
    let (matched, left) = bounded_match(platform, pattern, text, after, t, memo);
    if matched {
        (true, left)
    } else if t >= text.len() || (!across_slashes && text[t] == SLASH) {
        (false, left)
    } else {
        bounded_star(
            platform,
            pattern,
            text,
            after,
            boundary_after(text, t),
            across_slashes,
            left,
        )
    }
}

/// [`glob_after_slash`] with the record threaded through.
pub open spec fn bounded_after_slash(
    platform: Platform,
    pattern: Seq<u8>,
    text: Seq<u8>,
    next: int,
    t: int,
    memo: Map<u128, bool>,
) -> (bool, Map<u128, bool>)
    decreases pattern.len() - next, text.len() - t, 2int,
{
    if t >= text.len() {
        (false, memo)
    } else if text[t] == SLASH {
        let (matched, left) = bounded_match(platform, pattern, text, next, t + 1, memo);
        if matched {
            (true, left)
        } else {
            bounded_after_slash(platform, pattern, text, next, boundary_after(text, t), left)
        }
    } else {
        bounded_after_slash(platform, pattern, text, next, boundary_after(text, t), memo)
    }
}

proof fn lemma_state_key(pattern_len: nat, text_len: nat, p: int, t: int)
    requires
        0 <= p <= pattern_len,
        0 <= t <= text_len,
        pattern_len <= usize::MAX,
        text_len <= usize::MAX,
    ensures
        p * (text_len + 1) + t == state_key(text_len, p, t),
        0 <= p * (text_len + 1) + t < (pattern_len + 1) * (text_len + 1),
        (p * (text_len + 1) + t) / (text_len + 1) as int == p,
        (p * (text_len + 1) + t) % (text_len + 1) as int == t,
        p * (text_len + 1) <= u128::MAX,
{
    assert(0 <= p * (text_len + 1)) by (nonlinear_arith)
        requires
            0 <= p,
    ;
    assert(p * (text_len + 1) + t < (pattern_len + 1) * (text_len + 1)) by (nonlinear_arith)
        requires
            0 <= p <= pattern_len,
            0 <= t <= text_len,
    ;
    assert((pattern_len + 1) * (text_len + 1) <= u128::MAX + 1) by (nonlinear_arith)
        requires
            pattern_len <= 0xffff_ffff_ffff_ffff,
            text_len <= 0xffff_ffff_ffff_ffff,
    ;
    vstd::arithmetic::div_mod::lemma_fundamental_div_mod_converse(
        p * (text_len + 1) + t,
        (text_len + 1) as int,
        p,
        t,
    );
}

/// Matches `pattern[pattern_index..]` against `text[text_index..]`, recording every state that
/// it decides in `memo` so that wildcard alternatives share the work on a common suffix.
pub fn glob_matches_from(
    pattern: &[u8],
    text: &[u8],
    pattern_index: usize,
    text_index: usize,
    memo: &mut HashMap<u128, bool>,
    platform: Platform,
) -> (result: bool)
    requires
        pattern_index <= pattern.len(),
        text_index <= text.len(),
    ensures
        (result, final(memo)@) == bounded_match(
            platform,
            pattern@,
            text@,
            pattern_index as int,
            text_index as int,
            old(memo)@,
        ),
    decreases pattern.len() - pattern_index,
{
    broadcast use vstd::std_specs::hash::group_hash_axioms;

    let ghost before = memo@;
    proof {
        lemma_state_key(
            pattern@.len(),
            text@.len(),
            pattern_index as int,
            text_index as int,
        );
    }
    let key: u128 = pattern_index as u128 * (text.len() as u128 + 1) + text_index as u128;
    if let Some(result) = memo.get(&key) {
        return *result;
    }
    if memo.len() >= MAX_GLOB_MEMO_STATES {
        return false;
    }
    let result: bool = if pattern_index == pattern.len() {
        text_index == text.len()
    } else if pattern[pattern_index] == STAR {
        let double_star: bool = pattern.len() - pattern_index > 1 && pattern[pattern_index + 1]
            == STAR;
        let after_star: usize = pattern_index + if double_star {
            2
        } else {
            1
        };
        if double_star && after_star < pattern.len() && pattern[after_star] == SLASH {
            let next_pattern: usize = after_star + 1;
            if glob_matches_from(pattern, text, next_pattern, text_index, memo, platform) {
                true
            } else {
                let ghost expected = bounded_after_slash(
                    platform,
                    pattern@,
                    text@,
                    next_pattern as int,
                    text_index as int,
                    memo@,
                );
                let mut cursor: usize = text_index;
                let mut matched: bool = false;
                while !matched && cursor < text.len()
                    invariant
                        text_index <= cursor <= text.len(),
                        pattern_index < next_pattern <= pattern.len(),
                        matched ==> expected == (true, memo@),
                        !matched ==> expected == bounded_after_slash(
                            platform,
                            pattern@,
                            text@,
                            next_pattern as int,
                            cursor as int,
                            memo@,
                        ),
                    decreases text.len() - cursor, if matched { 0int } else { 1 },
                {
                    if text[cursor] == SLASH && glob_matches_from(
                        pattern,
                        text,
                        next_pattern,
                        cursor + 1,
                        memo,
                        platform,
                    ) {
                        matched = true;
                    } else {
                        cursor = next_utf8_boundary(text, cursor);
                    }
                }
                matched
            }
        } else {
            let ghost expected = bounded_star(
                platform,
                pattern@,
                text@,
                after_star as int,
                text_index as int,
                double_star,
                memo@,
            );
            let mut cursor: usize = text_index;
            let mut matched: bool = glob_matches_from(
                pattern,
                text,
                after_star,
                cursor,
                memo,
                platform,
            );
            while !matched && cursor < text.len() && (double_star || text[cursor] != SLASH)
                invariant
                    text_index <= cursor <= text.len(),
                    pattern_index < after_star <= pattern.len(),
                    matched ==> expected == (true, memo@),
                    !matched ==> expected == if cursor >= text.len() || (!double_star
                        && text[cursor as int] == SLASH) {
                        (false, memo@)
                    } else {
                        bounded_star(
                            platform,
                            pattern@,
                            text@,
                            after_star as int,
                            boundary_after(text@, cursor as int),
                            double_star,
                            memo@,
                        )
                    },
                decreases text.len() - cursor, if matched { 0int } else { 1 },
            {
                cursor = next_utf8_boundary(text, cursor);
                matched = glob_matches_from(pattern, text, after_star, cursor, memo, platform);
            }
            matched
        }
    } else if pattern[pattern_index] == QUESTION && text_index < text.len() && text[text_index]
        != SLASH {
        let next_text: usize = next_utf8_boundary(text, text_index);
        glob_matches_from(pattern, text, pattern_index + 1, next_text, memo, platform)
    } else {
        proof {
            lemma_single_step_bounds(
                platform,
                pattern@,
                pattern_index as int,
                text@,
                text_index as int,
            );
        }
        let step: Option<(usize, usize)> = if pattern[pattern_index] == OPEN_BRACKET {
            character_class_matches(pattern, pattern_index, text, text_index, platform)
        } else if pattern[pattern_index] == BACKSLASH && pattern.len() - pattern_index > 1 {
            literal_char_matches(pattern, pattern_index + 1, text, text_index, platform)
        } else {
            literal_char_matches(pattern, pattern_index, text, text_index, platform)
        };
        match step {
            Some((next_pattern, next_text)) => glob_matches_from(
                pattern,
                text,
                next_pattern,
                next_text,
                memo,
                platform,
            ),
            None => false,
        }
    };
    memo.insert(key, result);
    assert((result, memo@) == bounded_match(
        platform,
        pattern@,
        text@,
        pattern_index as int,
        text_index as int,
        before,
    ));
    result
}

/// Whether every state of a match of `pattern` against `text` fits into one record.
pub open spec fn states_fit(pattern: Seq<u8>, text: Seq<u8>) -> bool {
    (pattern.len() + 1) * (text.len() + 1) <= MAX_GLOB_MEMO_STATES
}

/// What the state recorded under `key` really decides.
spec fn state_matches(platform: Platform, pattern: Seq<u8>, text: Seq<u8>, key: u128) -> bool {
    glob_at(
        platform,
        pattern,
        text,
        key as int / (text.len() + 1) as int,
        key as int % (text.len() + 1) as int,
    )
}

/// A record that claims no match falsely, and denies none falsely where all states fit.
spec fn faithful(
    platform: Platform,
    pattern: Seq<u8>,
    text: Seq<u8>,
    memo: Map<u128, bool>,
) -> bool {
    &&& memo.dom().finite()
    &&& forall|key: u128| #[trigger]
        memo.contains_key(key) ==> {
            &&& key < (pattern.len() + 1) * (text.len() + 1)
            &&& memo[key] ==> state_matches(platform, pattern, text, key)
            &&& states_fit(pattern, text) && state_matches(platform, pattern, text, key)
                ==> memo[key]
        }
}

/// The outcome of a bounded match of which `truth` is the unbounded answer.
spec fn faithful_outcome(
    platform: Platform,
    pattern: Seq<u8>,
    text: Seq<u8>,
    outcome: (bool, Map<u128, bool>),
    truth: bool,
) -> bool {
    &&& outcome.0 ==> truth
    &&& states_fit(pattern, text) && truth ==> outcome.0
    &&& faithful(platform, pattern, text, outcome.1)
}

/// A record with a gap among the first `count` keys holds fewer than `count` states.
proof fn lemma_record_has_room(memo: Map<u128, bool>, key: u128, count: nat)
    requires
        memo.dom().finite(),
        !memo.contains_key(key),
        key < count <= u128::MAX,
        forall|k: u128| #[trigger] memo.contains_key(k) ==> k < count,
    ensures
        memo.len() < count,
{
    let keys = memo.dom().insert(key);
    let numbers = keys.map(|k: u128| k as int);
    let range = vstd::set_lib::set_int_range(0, count as int);
    vstd::set_lib::lemma_int_range(0, count as int);
    assert(numbers.subset_of(range)) by {
        assert forall|n: int| numbers.contains(n) implies range.contains(n) by {
            let k = choose|k: u128| keys.contains(k) && k as int == n;
            if k != key {
                assert(memo.contains_key(k));
            }
        }
    }
    vstd::set_lib::lemma_map_size(keys, numbers, |k: u128| k as int);
    vstd::set_lib::lemma_len_subset(numbers, range);
}

proof fn lemma_bounded_match(
    platform: Platform,
    pattern: Seq<u8>,
    text: Seq<u8>,
    p: int,
    t: int,
    memo: Map<u128, bool>,
)
    requires
        0 <= p <= pattern.len() <= usize::MAX,
        0 <= t <= text.len() <= usize::MAX,
        faithful(platform, pattern, text, memo),
    ensures
        faithful_outcome(
            platform,
            pattern,
            text,
            bounded_match(platform, pattern, text, p, t, memo),
            glob_at(platform, pattern, text, p, t),
        ),
    decreases pattern.len() - p, text.len() - t, 1int,
{
    let key = state_key(text.len(), p, t);
    lemma_state_key(pattern.len(), text.len(), p, t);
    if !memo.contains_key(key) {
        if states_fit(pattern, text) {
            lemma_record_has_room(memo, key, ((pattern.len() + 1) * (text.len() + 1)) as nat);
        }
        if memo.len() < MAX_GLOB_MEMO_STATES {
            lemma_bounded_body(platform, pattern, text, p, t, memo);
        }
    }
}

proof fn lemma_bounded_body(
    platform: Platform,
    pattern: Seq<u8>,
    text: Seq<u8>,
    p: int,
    t: int,
    memo: Map<u128, bool>,
)
    requires
        0 <= p <= pattern.len() <= usize::MAX,
        0 <= t <= text.len() <= usize::MAX,
        faithful(platform, pattern, text, memo),
    ensures
        faithful_outcome(
            platform,
            pattern,
            text,
            bounded_body(platform, pattern, text, p, t, memo),
            glob_at(platform, pattern, text, p, t),
        ),
    decreases pattern.len() - p, text.len() - t, 0int,
{
    if p < pattern.len() {
        if pattern[p] == STAR {
            if p + 1 < pattern.len() && pattern[p + 1] == STAR {
                if p + 2 < pattern.len() && pattern[p + 2] == SLASH {
                    lemma_bounded_match(platform, pattern, text, p + 3, t, memo);
                    let first = bounded_match(platform, pattern, text, p + 3, t, memo);
                    lemma_bounded_after_slash(platform, pattern, text, p + 3, t, first.1);
                } else {
                    lemma_bounded_star(platform, pattern, text, p + 2, t, true, memo);
                }
            } else {
                lemma_bounded_star(platform, pattern, text, p + 1, t, false, memo);
            }
        } else if pattern[p] == QUESTION && t < text.len() && text[t] != SLASH {
            lemma_bounded_match(platform, pattern, text, p + 1, boundary_after(text, t), memo);
        } else {
            lemma_single_step_bounds(platform, pattern, p, text, t);
            if let Some((next_p, next_t)) = single_step(platform, pattern, p, text, t) {
                lemma_bounded_match(platform, pattern, text, next_p, next_t, memo);
            }
        }
    }
}

proof fn lemma_bounded_star(
    platform: Platform,
    pattern: Seq<u8>,
    text: Seq<u8>,
    after: int,
    t: int,
    across_slashes: bool,
    memo: Map<u128, bool>,
)
    requires
        0 <= after <= pattern.len() <= usize::MAX,
        0 <= t <= text.len() <= usize::MAX,
        faithful(platform, pattern, text, memo),
    ensures
        faithful_outcome(
            platform,
            pattern,
            text,
            bounded_star(platform, pattern, text, after, t, across_slashes, memo),
            glob_star(platform, pattern, text, after, t, across_slashes),
        ),
    decreases pattern.len() - after, text.len() - t, 2int,
{
    lemma_bounded_match(platform, pattern, text, after, t, memo);
    let first = bounded_match(platform, pattern, text, after, t, memo);
    if t < text.len() {
        lemma_bounded_star(
            platform,
            pattern,
            text,
            after,
            boundary_after(text, t),
            across_slashes,
            first.1,
        );
    }
}

proof fn lemma_bounded_after_slash(
    platform: Platform,
    pattern: Seq<u8>,
    text: Seq<u8>,
    next: int,
    t: int,
    memo: Map<u128, bool>,
)
    requires
        0 <= next <= pattern.len() <= usize::MAX,
        0 <= t <= text.len() <= usize::MAX,
        faithful(platform, pattern, text, memo),
    ensures
        faithful_outcome(
            platform,
            pattern,
            text,
            bounded_after_slash(platform, pattern, text, next, t, memo),
            glob_after_slash(platform, pattern, text, next, t),
        ),
    decreases pattern.len() - next, text.len() - t, 2int,
{
    if t < text.len() {
        if text[t] == SLASH {
            lemma_bounded_match(platform, pattern, text, next, t + 1, memo);
            let first = bounded_match(platform, pattern, text, next, t + 1, memo);
            lemma_bounded_after_slash(
                platform,
                pattern,
                text,
                next,
                boundary_after(text, t),
                first.1,
            );
        } else {
            lemma_bounded_after_slash(
                platform,
                pattern,
                text,
                next,
                boundary_after(text, t),
                memo,
            );
        }
    }
}

/// What a match of a whole pattern against a whole text returns.
pub open spec fn glob_result(platform: Platform, pattern: Seq<u8>, text: Seq<u8>) -> bool {
    bounded_match(platform, pattern, text, 0, 0, Map::empty()).0
}

/// A match that the engine reports is one, and where all states fit into the record the engine
/// reports every one.
pub proof fn glob_result_is_exact_where_states_fit(
    platform: Platform,
    pattern: Seq<u8>,
    text: Seq<u8>,
)
    requires
        pattern.len() <= usize::MAX,
        text.len() <= usize::MAX,
    ensures
        glob_result(platform, pattern, text) ==> glob_at(platform, pattern, text, 0, 0),
        states_fit(pattern, text) ==> glob_result(platform, pattern, text) == glob_at(
            platform,
            pattern,
            text,
            0,
            0,
        ),
{
    lemma_bounded_match(platform, pattern, text, 0, 0, Map::empty());
}

/// Whether every state that a record holds is one of a match of `pattern` against `text`, and is
/// recorded with what a match from it returns.
pub open spec fn record_is_right(
    platform: Platform,
    pattern: Seq<u8>,
    text: Seq<u8>,
    memo: Map<u128, bool>,
) -> bool {
    &&& memo.dom().finite()
    &&& forall|key: u128| #[trigger]
        memo.contains_key(key) ==> {
            let p = key as int / (text.len() + 1) as int;
            let t = key as int % (text.len() + 1) as int;
            &&& 0 <= p <= pattern.len()
            &&& 0 <= t <= text.len()
            &&& key == state_key(text.len(), p, t)
            &&& memo[key] == bounded_match(platform, pattern, text, p, t, Map::empty()).0
        }
}

/// Where all states fit, a match from any state and any record that is right returns what a match with
/// an empty record returns, and leaves a record that is right. The empty record is right.
pub proof fn recorded_states_are_right(
    platform: Platform,
    pattern: Seq<u8>,
    text: Seq<u8>,
    p: int,
    t: int,
    memo: Map<u128, bool>,
)
    requires
        0 <= p <= pattern.len() <= usize::MAX,
        0 <= t <= text.len() <= usize::MAX,
        states_fit(pattern, text),
        record_is_right(platform, pattern, text, memo),
    ensures
        bounded_match(platform, pattern, text, p, t, memo).0 == bounded_match(
            platform,
            pattern,
            text,
            p,
            t,
            Map::empty(),
        ).0,
        bounded_match(platform, pattern, text, p, t, memo).0 == glob_at(
            platform,
            pattern,
            text,
            p,
            t,
        ),
        record_is_right(
            platform,
            pattern,
            text,
            bounded_match(platform, pattern, text, p, t, memo).1,
        ),
        record_is_right(platform, pattern, text, Map::empty()),
{
    assert forall|key: u128| #[trigger] memo.contains_key(key) implies {
        &&& key < (pattern.len() + 1) * (text.len() + 1)
        &&& memo[key] == state_matches(platform, pattern, text, key)
    } by {
        let q = key as int / (text.len() + 1) as int;
        let s = key as int % (text.len() + 1) as int;
        lemma_state_key(pattern.len(), text.len(), q, s);
        lemma_bounded_match(platform, pattern, text, q, s, Map::empty());
    }
    lemma_bounded_match(platform, pattern, text, p, t, memo);
    lemma_bounded_match(platform, pattern, text, p, t, Map::empty());
    let left = bounded_match(platform, pattern, text, p, t, memo).1;
    assert forall|key: u128| #[trigger] left.contains_key(key) implies {
        let q = key as int / (text.len() + 1) as int;
        let s = key as int % (text.len() + 1) as int;
        &&& 0 <= q <= pattern.len()
        &&& 0 <= s <= text.len()
        &&& key == state_key(text.len(), q, s)
        &&& left[key] == bounded_match(platform, pattern, text, q, s, Map::empty()).0
    } by {
        let q = key as int / (text.len() + 1) as int;
        let s = key as int % (text.len() + 1) as int;
        lemma_key_is_a_state(pattern.len(), text.len(), key);
        lemma_bounded_match(platform, pattern, text, q, s, Map::empty());
    }
}

proof fn lemma_key_is_a_state(pattern_len: nat, text_len: nat, key: u128)
    requires
        key < (pattern_len + 1) * (text_len + 1),
    ensures
        0 <= key as int / (text_len + 1) as int <= pattern_len,
        0 <= key as int % (text_len + 1) as int <= text_len,
        key == state_key(
            text_len,
            key as int / (text_len + 1) as int,
            key as int % (text_len + 1) as int,
        ),
{
    let width = (text_len + 1) as int;
    let p = key as int / width;
    let t = key as int % width;
    vstd::arithmetic::div_mod::lemma_fundamental_div_mod(key as int, width);
    assert(p * width == width * p) by (nonlinear_arith);
    assert(0 <= p <= pattern_len) by (nonlinear_arith)
        requires
            width > 0,
            key as int == width * p + t,
            0 <= t < width,
            0 <= key,
            (key as int) < (pattern_len + 1) * width,
    ;
}

/// Where all states fit, only the rest of the pattern and the rest of the text count for a match from
/// positions in them.
pub proof fn only_the_rest_counts(
    platform: Platform,
    pattern: Seq<u8>,
    text: Seq<u8>,
    p: int,
    t: int,
)
    requires
        0 <= p <= pattern.len() <= usize::MAX,
        0 <= t <= text.len() <= usize::MAX,
        states_fit(pattern, text),
    ensures
        bounded_match(platform, pattern, text, p, t, Map::empty()).0 == bounded_match(
            platform,
            pattern.skip(p),
            text.skip(t),
            0,
            0,
            Map::empty(),
        ).0,
{
    assert((pattern.skip(p).len() + 1) * (text.skip(t).len() + 1) <= (pattern.len() + 1) * (
    text.len() + 1)) by (nonlinear_arith)
        requires
            pattern.skip(p).len() <= pattern.len(),
            text.skip(t).len() <= text.len(),
    ;
    lemma_bounded_match(platform, pattern, text, p, t, Map::empty());
    lemma_bounded_match(platform, pattern.skip(p), text.skip(t), 0, 0, Map::empty());
    lemma_rest_at(platform, pattern, text, p, t, p, t);
}

proof fn lemma_rest_boundary(bytes: Seq<u8>, cut: int, index: int)
    requires
        0 <= cut <= index <= bytes.len(),
    ensures
        boundary_after(bytes.skip(cut), index - cut) == boundary_after(bytes, index) - cut,
        index <= boundary_after(bytes, index) <= bytes.len(),
{
}

/// A pair of positions moved back by a pair of cuts.
spec fn moved(pair: Option<(int, int)>, a: int, b: int) -> Option<(int, int)> {
    match pair {
        Some((p, t)) => Some((p - a, t - b)),
        None => None,
    }
}

proof fn lemma_rest_literal(
    platform: Platform,
    pattern: Seq<u8>,
    text: Seq<u8>,
    a: int,
    b: int,
    p: int,
    t: int,
)
    requires
        0 <= a <= p <= pattern.len(),
        0 <= b <= t <= text.len(),
    ensures
        literal_step(platform, pattern.skip(a), p - a, text.skip(b), t - b) == moved(
            literal_step(platform, pattern, p, text, t),
            a,
            b,
        ),
{
    lemma_rest_boundary(pattern, a, p);
    lemma_rest_boundary(text, b, t);
    let p_end = boundary_after(pattern, p);
    let t_end = boundary_after(text, t);
    assert(pattern.skip(a).subrange(p - a, p_end - a) =~= pattern.subrange(p, p_end));
    assert(text.skip(b).subrange(t - b, t_end - b) =~= text.subrange(t, t_end));
}

proof fn lemma_rest_close(pattern: Seq<u8>, a: int, from: int)
    requires
        0 <= a <= pattern.len(),
        a <= from,
    ensures
        class_close(pattern.skip(a), from - a) == class_close(pattern, from) - a,
    decreases pattern.len() - from,
{
    if from < pattern.len() && pattern[from] != CLOSE_BRACKET {
        lemma_rest_close(pattern, a, from + 1);
    }
}

proof fn lemma_rest_holds(
    platform: Platform,
    pattern: Seq<u8>,
    a: int,
    item: int,
    close: int,
    actual: u8,
)
    requires
        0 <= a <= item,
        close <= pattern.len(),
        a <= pattern.len(),
    ensures
        class_holds(platform, pattern.skip(a), item - a, close - a, actual) == class_holds(
            platform,
            pattern,
            item,
            close,
            actual,
        ),
    decreases close - item,
{
    if item < close {
        lemma_rest_holds(platform, pattern, a, item + 1, close, actual);
        if item + 2 < close {
            lemma_rest_holds(platform, pattern, a, item + 3, close, actual);
        }
    }
}

proof fn lemma_rest_class(
    platform: Platform,
    pattern: Seq<u8>,
    text: Seq<u8>,
    a: int,
    b: int,
    p: int,
    t: int,
)
    requires
        0 <= a <= p < pattern.len(),
        0 <= b <= t <= text.len(),
    ensures
        class_step(platform, pattern.skip(a), p - a, text.skip(b), t - b) == moved(
            class_step(platform, pattern, p, text, t),
            a,
            b,
        ),
{
    let first = class_first_item(pattern, p);
    assert(class_negated(pattern.skip(a), p - a) == class_negated(pattern, p));
    assert(class_first_item(pattern.skip(a), p - a) == first - a);
    lemma_rest_close(pattern, a, first);
    lemma_rest_close(pattern, a, first + 1);
    lemma_class_close_bounds(pattern, first);
    lemma_class_close_bounds(pattern, first + 1);
    let end = class_end(pattern, p);
    assert(class_end(pattern.skip(a), p - a) == end - a);
    lemma_rest_boundary(text, b, t);
    lemma_rest_literal(platform, pattern, text, a, b, p, t);
    if t < text.len() {
        lemma_rest_holds(platform, pattern, a, first, end, platform::folded(platform, text[t]));
    }
}

proof fn lemma_rest_single(
    platform: Platform,
    pattern: Seq<u8>,
    text: Seq<u8>,
    a: int,
    b: int,
    p: int,
    t: int,
)
    requires
        0 <= a <= p < pattern.len(),
        0 <= b <= t <= text.len(),
    ensures
        single_step(platform, pattern.skip(a), p - a, text.skip(b), t - b) == moved(
            single_step(platform, pattern, p, text, t),
            a,
            b,
        ),
{
    lemma_rest_class(platform, pattern, text, a, b, p, t);
    lemma_rest_literal(platform, pattern, text, a, b, p, t);
    lemma_rest_literal(platform, pattern, text, a, b, p + 1, t);
}

/// What was cut off before both positions does not count.
proof fn lemma_rest_at(
    platform: Platform,
    pattern: Seq<u8>,
    text: Seq<u8>,
    a: int,
    b: int,
    p: int,
    t: int,
)
    requires
        0 <= a <= p <= pattern.len(),
        0 <= b <= t <= text.len(),
    ensures
        glob_at(platform, pattern.skip(a), text.skip(b), p - a, t - b) == glob_at(
            platform,
            pattern,
            text,
            p,
            t,
        ),
    decreases pattern.len() - p, text.len() - t, 0int,
{
    if p < pattern.len() {
        lemma_rest_boundary(text, b, t);
        if pattern[p] == STAR {
            if p + 1 < pattern.len() && pattern[p + 1] == STAR {
                if p + 2 < pattern.len() && pattern[p + 2] == SLASH {
                    lemma_rest_at(platform, pattern, text, a, b, p + 3, t);
                    lemma_rest_after_slash(platform, pattern, text, a, b, p + 3, t);
                } else {
                    lemma_rest_star(platform, pattern, text, a, b, p + 2, t, true);
                }
            } else {
                lemma_rest_star(platform, pattern, text, a, b, p + 1, t, false);
            }
        } else if pattern[p] == QUESTION && t < text.len() && text[t] != SLASH {
            lemma_rest_at(platform, pattern, text, a, b, p + 1, boundary_after(text, t));
        } else {
            lemma_rest_single(platform, pattern, text, a, b, p, t);
            lemma_single_step_bounds(platform, pattern, p, text, t);
            if let Some((next_p, next_t)) = single_step(platform, pattern, p, text, t) {
                lemma_rest_at(platform, pattern, text, a, b, next_p, next_t);
            }
        }
    }
}

proof fn lemma_rest_star(
    platform: Platform,
    pattern: Seq<u8>,
    text: Seq<u8>,
    a: int,
    b: int,
    after: int,
    t: int,
    across_slashes: bool,
)
    requires
        0 <= a <= after <= pattern.len(),
        0 <= b <= t <= text.len(),
    ensures
        glob_star(platform, pattern.skip(a), text.skip(b), after - a, t - b, across_slashes)
            == glob_star(platform, pattern, text, after, t, across_slashes),
    decreases pattern.len() - after, text.len() - t, 1int,
{
    lemma_rest_at(platform, pattern, text, a, b, after, t);
    if t < text.len() {
        let next = boundary_after(text, t);
        lemma_rest_boundary(text, b, t);
        lemma_rest_star(platform, pattern, text, a, b, after, next, across_slashes);
    }
}

proof fn lemma_rest_after_slash(
    platform: Platform,
    pattern: Seq<u8>,
    text: Seq<u8>,
    a: int,
    b: int,
    next: int,
    t: int,
)
    requires
        0 <= a <= next <= pattern.len(),
        0 <= b <= t <= text.len(),
    ensures
        glob_after_slash(platform, pattern.skip(a), text.skip(b), next - a, t - b)
            == glob_after_slash(platform, pattern, text, next, t),
    decreases pattern.len() - next, text.len() - t, 1int,
{
    if t < text.len() {
        lemma_rest_boundary(text, b, t);
        lemma_rest_at(platform, pattern, text, a, b, next, t + 1);
        lemma_rest_after_slash(platform, pattern, text, a, b, next, boundary_after(text, t));
    }
}

/// Matches a whole text against a whole glob pattern.
pub fn glob_matches(pattern: &str, text: &str, platform: Platform) -> (result: bool)
    ensures
        result == glob_result(platform, encode_utf8(pattern@), encode_utf8(text@)),
        result ==> glob_at(platform, encode_utf8(pattern@), encode_utf8(text@), 0, 0),
        states_fit(encode_utf8(pattern@), encode_utf8(text@)) ==> result == glob_at(
            platform,
            encode_utf8(pattern@),
            encode_utf8(text@),
            0,
            0,
        ),
{
    glob_bytes_match(pattern.as_bytes(), text.as_bytes(), platform)
}

/// Matches the bytes of a whole text against the bytes of a whole glob pattern.
pub fn glob_bytes_match(pattern: &[u8], text: &[u8], platform: Platform) -> (result: bool)
    ensures
        result == glob_result(platform, pattern@, text@),
        result ==> glob_at(platform, pattern@, text@, 0, 0),
        states_fit(pattern@, text@) ==> result == glob_at(platform, pattern@, text@, 0, 0),
{
    proof {
        assert(pattern@.len() == pattern.len() <= usize::MAX);
        assert(text@.len() == text.len() <= usize::MAX);
        glob_result_is_exact_where_states_fit(platform, pattern@, text@);
    }
    let mut memo: HashMap<u128, bool> = HashMap::new();
    glob_matches_from(pattern, text, 0, 0, &mut memo, platform)
}

} // verus!
