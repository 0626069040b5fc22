//! The wildcards of `find -name`: `*` for any run of characters and `?` for any one.

use vstd::prelude::*;
use vstd::utf8::*;
use crate::ascii::{QUESTION, STAR};
use crate::chars;
use crate::chars::{chars_equal, copy_chars, ends_with, starts_with, to_chars};
use crate::text::copy_bytes;

verus! {

/// Whether `pattern[p..]` matches `value[v..]`.
pub open spec fn wild<T>(
    pattern: Seq<T>,
    value: Seq<T>,
    star: T,
    question: T,
    p: int,
    v: int,
) -> bool
    decreases pattern.len() - p, value.len() - v,
{
    if p >= pattern.len() {
        v == value.len()
    } else if pattern[p] == star {
        ||| wild(pattern, value, star, question, p + 1, v)
        ||| v < value.len() && wild(pattern, value, star, question, p, v + 1)
    } else {
        v < value.len() && (pattern[p] == question || pattern[p] == value[v]) && wild(
            pattern,
            value,
            star,
            question,
            p + 1,
            v + 1,
        )
    }
}

/// The outcome of a search that goes on from `pattern[p..]` and `value[v..]`: characters are taken
/// as they come, and on a mismatch the last star takes one character more. `last` is the last star
/// and `retry` the place up to which it has taken characters. A star in the value that meets one in
/// the pattern is taken for itself.
pub open spec fn greedy<T>(
    pattern: Seq<T>,
    value: Seq<T>,
    star: T,
    question: T,
    p: int,
    v: int,
    last: Option<int>,
    retry: int,
) -> bool
    decreases value.len() - retry, value.len() - v, pattern.len() - p,
{
    if v >= value.len() || retry > v {
        only_stars(pattern, star, p)
    } else if p < pattern.len() && (pattern[p] == question || pattern[p] == value[v]) {
        greedy(pattern, value, star, question, p + 1, v + 1, last, retry)
    } else if p < pattern.len() && pattern[p] == star {
        greedy(pattern, value, star, question, p + 1, v, Some(p), v)
    } else {
        match last {
            Some(index) => greedy(
                pattern,
                value,
                star,
                question,
                index + 1,
                retry + 1,
                last,
                retry + 1,
            ),
            None => false,
        }
    }
}

/// Whether all of `pattern[p..]` are stars.
pub open spec fn only_stars<T>(pattern: Seq<T>, star: T, p: int) -> bool {
    forall|i: int| p <= i < pattern.len() ==> #[trigger] pattern[i] == star
}

/// Whether `pattern[from..]` and `value[at..]` agree for `length` characters, none of them a star.
spec fn aligned<T>(
    pattern: Seq<T>,
    value: Seq<T>,
    star: T,
    question: T,
    from: int,
    at: int,
    length: int,
) -> bool {
    &&& 0 <= from
    &&& 0 <= at
    &&& 0 <= length
    &&& from + length <= pattern.len()
    &&& at + length <= value.len()
    &&& forall|i: int|
        0 <= i < length ==> #[trigger] pattern[from + i] != star && (pattern[from + i] == question
            || pattern[from + i] == value[at + i])
}

proof fn lemma_aligned<T>(
    pattern: Seq<T>,
    value: Seq<T>,
    star: T,
    question: T,
    from: int,
    at: int,
    length: int,
)
    requires
        aligned(pattern, value, star, question, from, at, length),
    ensures
        wild(pattern, value, star, question, from, at) == wild(
            pattern,
            value,
            star,
            question,
            from + length,
            at + length,
        ),
    decreases length,
{
    if length > 0 {
        assert(pattern[from + 0] != star);
        assert forall|i: int| 0 <= i < length - 1 implies #[trigger] pattern[from + 1 + i] != star
            && (pattern[from + 1 + i] == question || pattern[from + 1 + i] == value[at + 1 + i]) by {
            assert(pattern[from + (i + 1)] != star);
        }
        lemma_aligned(pattern, value, star, question, from + 1, at + 1, length - 1);
    }
}

/// Characters without a star among them can only match as many characters.
proof fn lemma_forced<T>(
    pattern: Seq<T>,
    value: Seq<T>,
    star: T,
    question: T,
    from: int,
    at: int,
    length: int,
)
    requires
        0 <= from,
        0 <= length,
        from + length <= pattern.len(),
        0 <= at <= value.len(),
        forall|i: int| 0 <= i < length ==> #[trigger] pattern[from + i] != star,
        wild(pattern, value, star, question, from, at),
    ensures
        at + length <= value.len(),
        wild(pattern, value, star, question, from + length, at + length),
    decreases length,
{
    if length > 0 {
        assert(pattern[from + 0] != star);
        assert forall|i: int| 0 <= i < length - 1 implies #[trigger] pattern[from + 1 + i]
            != star by {
            assert(pattern[from + (i + 1)] != star);
        }
        lemma_forced(pattern, value, star, question, from + 1, at + 1, length - 1);
    }
}

/// A star that matches from a later place on matches from an earlier one.
proof fn lemma_star_takes<T>(
    pattern: Seq<T>,
    value: Seq<T>,
    star: T,
    question: T,
    p: int,
    from: int,
    to: int,
)
    requires
        0 <= p < pattern.len(),
        pattern[p] == star,
        0 <= from <= to <= value.len(),
        wild(pattern, value, star, question, p, to),
    ensures
        wild(pattern, value, star, question, p, from),
    decreases to - from,
{
    if from < to {
        lemma_star_takes(pattern, value, star, question, p, from + 1, to);
    }
}

/// A star that matches leaves some place from which the rest matches.
proof fn lemma_star_stops<T>(
    pattern: Seq<T>,
    value: Seq<T>,
    star: T,
    question: T,
    p: int,
    from: int,
) -> (to: int)
    requires
        0 <= p < pattern.len(),
        pattern[p] == star,
        0 <= from <= value.len(),
        wild(pattern, value, star, question, p, from),
    ensures
        from <= to <= value.len(),
        wild(pattern, value, star, question, p + 1, to),
    decreases value.len() - from,
{
    if wild(pattern, value, star, question, p + 1, from) {
        from
    } else {
        lemma_star_stops(pattern, value, star, question, p, from + 1)
    }
}

proof fn lemma_only_stars<T>(pattern: Seq<T>, value: Seq<T>, star: T, question: T, p: int)
    requires
        0 <= p <= pattern.len(),
    ensures
        wild(pattern, value, star, question, p, value.len() as int) == only_stars(
            pattern,
            star,
            p,
        ),
    decreases pattern.len() - p,
{
    if p < pattern.len() {
        lemma_only_stars(pattern, value, star, question, p + 1);
    }
}

/// The search finds a match exactly where there is one, if no character of the value is a star.
proof fn lemma_greedy<T>(
    pattern: Seq<T>,
    value: Seq<T>,
    star: T,
    question: T,
    p: int,
    v: int,
    last: Option<int>,
    retry: int,
)
    requires
        star != question,
        !value.contains(star),
        0 <= p <= pattern.len(),
        0 <= retry <= v <= value.len(),
        last matches Some(index) ==> {
            &&& 0 <= index < p
            &&& pattern[index] == star
            &&& p - (index + 1) == v - retry
            &&& aligned(pattern, value, star, question, index + 1, retry, v - retry)
        },
    ensures
        greedy(pattern, value, star, question, p, v, last, retry) == match last {
            Some(index) => wild(pattern, value, star, question, index, retry),
            None => wild(pattern, value, star, question, p, v),
        },
    decreases value.len() - retry, value.len() - v, pattern.len() - p,
{
    if v >= value.len() {
        lemma_only_stars(pattern, value, star, question, p);
        if let Some(index) = last {
            lemma_aligned(pattern, value, star, question, index + 1, retry, v - retry);
            if wild(pattern, value, star, question, index, retry) {
                let to = lemma_star_stops(pattern, value, star, question, index, retry);
                assert forall|i: int| 0 <= i < v - retry implies #[trigger] pattern[index + 1 + i]
                    != star by {}
                lemma_forced(pattern, value, star, question, index + 1, to, v - retry);
                assert(to == retry);
            }
        }
    } else if p < pattern.len() && (pattern[p] == question || pattern[p] == value[v]) {
        assert(value.contains(value[v]));
        assert(pattern[p] != star);
        if let Some(index) = last {
            assert forall|i: int| 0 <= i < v + 1 - retry implies #[trigger] pattern[index + 1 + i]
                != star && (pattern[index + 1 + i] == question || pattern[index + 1 + i]
                == value[retry + i]) by {
                if i == v - retry {
                    assert(index + 1 + i == p);
                }
            }
        }
        lemma_greedy(pattern, value, star, question, p + 1, v + 1, last, retry);
    } else if p < pattern.len() && pattern[p] == star {
        lemma_greedy(pattern, value, star, question, p + 1, v, Some(p), v);
        if let Some(index) = last {
            lemma_aligned(pattern, value, star, question, index + 1, retry, v - retry);
            if wild(pattern, value, star, question, p, v) {
                assert(wild(pattern, value, star, question, index + 1, retry));
            }
            if wild(pattern, value, star, question, index, retry) {
                let to = lemma_star_stops(pattern, value, star, question, index, retry);
                assert forall|i: int| 0 <= i < v - retry implies #[trigger] pattern[index + 1 + i]
                    != star by {}
                lemma_forced(pattern, value, star, question, index + 1, to, v - retry);
                lemma_star_takes(pattern, value, star, question, p, v, to + (v - retry));
            }
        }
    } else {
        if let Some(index) = last {
            lemma_aligned(pattern, value, star, question, index + 1, retry, v - retry);
            lemma_greedy(
                pattern,
                value,
                star,
                question,
                index + 1,
                retry + 1,
                last,
                retry + 1,
            );
            assert(!wild(pattern, value, star, question, p, v));
        }
    }
}

/// The search from the start.
pub open spec fn greedy_match<T>(pattern: Seq<T>, value: Seq<T>, star: T, question: T) -> bool {
    greedy(pattern, value, star, question, 0, 0, None, 0)
}

/// Matches bytes by the search.
pub fn wildcard_matches_slice(pattern: &[u8], value: &[u8], star: u8, question: u8) -> (result:
    bool)
    ensures
        result == greedy_match(pattern@, value@, star, question),
        star != question && !value@.contains(star) ==> result == wild(
            pattern@,
            value@,
            star,
            question,
            0,
            0,
        ),
{
    proof {
        if star != question && !value@.contains(star) {
            lemma_greedy(pattern@, value@, star, question, 0, 0, None, 0);
        }
    }
    let mut pattern_index: usize = 0;
    let mut value_index: usize = 0;
    let mut last_star: Option<usize> = None;
    let mut retry_value_index: usize = 0;
    let ghost mut last: Option<int> = None;
    while value_index < value.len()
        invariant
            retry_value_index <= value_index <= value.len(),
            pattern_index <= pattern.len(),
            match last_star {
                Some(index) => last == Some(index as int) && index < pattern.len(),
                None => last is None,
            },
            star != question && !value@.contains(star) ==> greedy_match(
                pattern@,
                value@,
                star,
                question,
            ) == wild(pattern@, value@, star, question, 0, 0),
            greedy_match(pattern@, value@, star, question) == greedy(
                pattern@,
                value@,
                star,
                question,
                pattern_index as int,
                value_index as int,
                last,
                retry_value_index as int,
            ),
        decreases
                value.len() - retry_value_index,
                value.len() - value_index,
                pattern.len() - pattern_index,
    {
        if pattern_index < pattern.len() && (pattern[pattern_index] == question
            || pattern[pattern_index] == value[value_index]) {
            pattern_index += 1;
            value_index += 1;
        } else if pattern_index < pattern.len() && pattern[pattern_index] == star {
            last_star = Some(pattern_index);
            proof {
                last = Some(pattern_index as int);
            }
            pattern_index += 1;
            retry_value_index = value_index;
        } else {
            match last_star {
                Some(star_index) => {
                    pattern_index = star_index + 1;
                    retry_value_index += 1;
                    value_index = retry_value_index;
                },
                None => {
                    return false;
                },
            }
        }
    }
    let ghost from = pattern_index as int;
    while pattern_index < pattern.len() && pattern[pattern_index] == star
        invariant
            from <= pattern_index <= pattern.len(),
            forall|i: int| from <= i < pattern_index ==> #[trigger] pattern[i] == star,
        decreases pattern.len() - pattern_index,
    {
        pattern_index += 1;
    }
    pattern_index == pattern.len()
}

/// Matches characters by the search.
pub fn wildcard_matches_text(pattern: &[char], value: &str) -> (result: bool)
    ensures
        result == greedy_match(pattern@, value@, '*', '?'),
        !value@.contains('*') ==> result == wild(pattern@, value@, '*', '?', 0, 0),
{
    proof {
        if !value@.contains('*') {
            lemma_greedy(pattern@, value@, '*', '?', 0, 0, None, 0);
        }
    }
    let text: Vec<char> = to_chars(value);
    let mut pattern_index: usize = 0;
    let mut value_index: usize = 0;
    let mut last_star: Option<usize> = None;
    let mut retry_value_index: usize = 0;
    let ghost mut last: Option<int> = None;
    while value_index < text.len()
        invariant
            text@ == value@,
            retry_value_index <= value_index <= text.len(),
            pattern_index <= pattern.len(),
            match last_star {
                Some(index) => last == Some(index as int) && index < pattern.len(),
                None => last is None,
            },
            !value@.contains('*') ==> greedy_match(pattern@, value@, '*', '?') == wild(
                pattern@,
                value@,
                '*',
                '?',
                0,
                0,
            ),
            greedy_match(pattern@, value@, '*', '?') == greedy(
                pattern@,
                value@,
                '*',
                '?',
                pattern_index as int,
                value_index as int,
                last,
                retry_value_index as int,
            ),
        decreases
                text.len() - retry_value_index,
                text.len() - value_index,
                pattern.len() - pattern_index,
    {
        if pattern_index < pattern.len() && (pattern[pattern_index] == '?'
            || pattern[pattern_index] == text[value_index]) {
            pattern_index += 1;
            value_index += 1;
        } else if pattern_index < pattern.len() && pattern[pattern_index] == '*' {
            last_star = Some(pattern_index);
            proof {
                last = Some(pattern_index as int);
            }
            pattern_index += 1;
            retry_value_index = value_index;
        } else {
            match last_star {
                Some(star_index) => {
                    pattern_index = star_index + 1;
                    retry_value_index += 1;
                    value_index = retry_value_index;
                },
                None => {
                    return false;
                },
            }
        }
    }
    let ghost from = pattern_index as int;
    while pattern_index < pattern.len() && pattern[pattern_index] == '*'
        invariant
            from <= pattern_index <= pattern.len(),
            forall|i: int| from <= i < pattern_index ==> #[trigger] pattern[i] == '*',
        decreases pattern.len() - pattern_index,
    {
        pattern_index += 1;
    }
    pattern_index == pattern.len()
}

/// On ASCII texts the search over bytes is the search over characters.
proof fn lemma_ascii_search(
    pattern: Seq<char>,
    value: Seq<char>,
    p: int,
    v: int,
    last: Option<int>,
    retry: int,
)
    requires
        is_ascii_chars(pattern),
        is_ascii_chars(value),
        0 <= p <= pattern.len(),
        0 <= retry <= v <= value.len(),
        last matches Some(index) ==> 0 <= index < pattern.len(),
    ensures
        greedy(encode_utf8(pattern), encode_utf8(value), STAR, QUESTION, p, v, last, retry)
            == greedy(pattern, value, '*', '?', p, v, last, retry),
    decreases value.len() - retry, value.len() - v, pattern.len() - p,
{
    is_ascii_chars_encode_utf8(pattern);
    is_ascii_chars_encode_utf8(value);
    let pattern_bytes = encode_utf8(pattern);
    let value_bytes = encode_utf8(value);
    assert forall|i: int| 0 <= i < pattern.len() implies #[trigger] pattern_bytes[i]
        == pattern[i] as u8 && pattern[i] as u32 <= 0x7f by {}
    assert forall|i: int| 0 <= i < value.len() implies #[trigger] value_bytes[i] == value[i] as u8
        && value[i] as u32 <= 0x7f by {}
    if v >= value.len() {
        if only_stars(pattern, '*', p) {
            assert forall|i: int| p <= i < pattern_bytes.len() implies #[trigger] pattern_bytes[i]
                == STAR by {
                assert(pattern[i] == '*');
            }
        }
        if only_stars(pattern_bytes, STAR, p) {
            assert forall|i: int| p <= i < pattern.len() implies #[trigger] pattern[i] == '*' by {
                assert(pattern_bytes[i] == STAR);
            }
        }
    } else {
        assert(value_bytes[v] == value[v] as u8);
        if p < pattern.len() {
            assert(pattern_bytes[p] == pattern[p] as u8);
            assert((pattern_bytes[p] == QUESTION) == (pattern[p] == '?'));
            assert((pattern_bytes[p] == STAR) == (pattern[p] == '*'));
            assert((pattern_bytes[p] == value_bytes[v]) == (pattern[p] == value[v]));
        }
        if p < pattern.len() && (pattern[p] == '?' || pattern[p] == value[v]) {
            lemma_ascii_search(pattern, value, p + 1, v + 1, last, retry);
        } else if p < pattern.len() && pattern[p] == '*' {
            lemma_ascii_search(pattern, value, p + 1, v, Some(p), v);
        } else if let Some(index) = last {
            lemma_ascii_search(pattern, value, index + 1, retry + 1, last, retry + 1);
        }
    }
}

/// A pattern that is ready to match.
#[derive(Debug)]
pub enum WildcardPattern {
    Any,
    Exact(Vec<char>),
    Prefix(Vec<char>),
    Suffix(Vec<char>),
    General { ascii: Option<Vec<u8>>, characters: Vec<char> },
}

/// Whether a text holds neither `*` nor `?`.
pub open spec fn plain(text: Seq<char>) -> bool {
    !text.contains('*') && !text.contains('?')
}

/// Whether a pattern matches a value: stars alone match anything, a plain pattern itself, a plain
/// text before or behind one star its beginning or end, and any other pattern by the search.
pub open spec fn name_matches(pattern: Seq<char>, value: Seq<char>) -> bool {
    if pattern.len() > 0 && only_stars(pattern, '*', 0) {
        true
    } else if plain(pattern) {
        value == pattern
    } else if pattern.last() == '*' && plain(pattern.drop_last()) {
        chars::begins_with(value, pattern.drop_last())
    } else if pattern[0] == '*' && plain(pattern.drop_first()) {
        chars::finishes_with(value, pattern.drop_first())
    } else {
        greedy_match(pattern, value, '*', '?')
    }
}

fn is_plain(text: &[char]) -> (result: bool)
    ensures
        result == plain(text@),
{
    let mut index: usize = 0;
    while index < text.len()
        invariant
            index <= text.len(),
            forall|i: int| 0 <= i < index ==> #[trigger] text[i] != '*' && text[i] != '?',
        decreases text.len() - index,
    {
        if text[index] == '*' || text[index] == '?' {
            assert(text@.contains(text@[index as int]));
            return false;
        }
        index += 1;
    }
    true
}

fn is_all_stars(text: &[char]) -> (result: bool)
    ensures
        result == only_stars(text@, '*', 0),
{
    let mut index: usize = 0;
    while index < text.len()
        invariant
            index <= text.len(),
            forall|i: int| 0 <= i < index ==> #[trigger] text[i] == '*',
        decreases text.len() - index,
    {
        if text[index] != '*' {
            assert(text@[index as int] != '*');
            return false;
        }
        index += 1;
    }
    true
}

impl WildcardPattern {
    /// Whether this is the form of `pattern`.
    pub open spec fn stands_for(self, pattern: Seq<char>) -> bool {
        let any = pattern.len() > 0 && only_stars(pattern, '*', 0);
        let prefix = pattern.len() > 0 && pattern.last() == '*' && plain(pattern.drop_last());
        let suffix = pattern.len() > 0 && pattern[0] == '*' && plain(pattern.drop_first());
        match self {
            WildcardPattern::Any => any,
            WildcardPattern::Exact(text) => !any && plain(pattern) && text@ == pattern,
            WildcardPattern::Prefix(text) => !any && !plain(pattern) && prefix && text@
                == pattern.drop_last(),
            WildcardPattern::Suffix(text) => !any && !plain(pattern) && !prefix && suffix && text@
                == pattern.drop_first(),
            WildcardPattern::General { ascii, characters } => {
                &&& !any && !plain(pattern) && !prefix && !suffix
                &&& characters@ == pattern
                &&& match ascii {
                    Some(bytes) => is_ascii_chars(pattern) && bytes@ == encode_utf8(pattern),
                    None => !is_ascii_chars(pattern),
                }
            },
        }
    }

    pub fn new(pattern: &str) -> (result: Self)
        ensures
            result.stands_for(pattern@),
    {
        let characters: Vec<char> = to_chars(pattern);
        let text: &[char] = characters.as_slice();
        if text.len() > 0 && is_all_stars(text) {
            return WildcardPattern::Any;
        }
        if is_plain(text) {
            return WildcardPattern::Exact(characters);
        }
        if text.len() > 0 && text[text.len() - 1] == '*' {
            assert(text@.subrange(0, text.len() - 1) =~= text@.drop_last());
            if is_plain(&text[0..text.len() - 1]) {
                return WildcardPattern::Prefix(copy_chars(&text[0..text.len() - 1]));
            }
        }
        if text.len() > 0 && text[0] == '*' {
            assert(text@.subrange(1, text.len() as int) =~= text@.drop_first());
            if is_plain(&text[1..text.len()]) {
                return WildcardPattern::Suffix(copy_chars(&text[1..text.len()]));
            }
        }
        let ascii: Option<Vec<u8>> = if pattern.is_ascii() {
            Some(copy_bytes(pattern.as_bytes()))
        } else {
            None
        };
        WildcardPattern::General { ascii, characters }
    }

    /// Whether the pattern matches a value.
    pub fn is_match(&self, value: &str) -> (result: bool)
        ensures
            forall|pattern: Seq<char>|
                #[trigger] self.stands_for(pattern) ==> {
                    &&& result == name_matches(pattern, value@)
                    &&& !value@.contains('*') ==> result == wild(pattern, value@, '*', '?', 0, 0)
                },
    {
        proof {
            assert forall|pattern: Seq<char>| !value@.contains('*') implies #[trigger] name_matches(
                pattern,
                value@,
            ) == wild(pattern, value@, '*', '?', 0, 0) by {
                matching_is_laying_over(pattern, value@);
            }
        }
        match self {
            WildcardPattern::Any => true,
            WildcardPattern::Exact(text) => {
                let value: Vec<char> = to_chars(value);
                chars_equal(value.as_slice(), text.as_slice())
            },
            WildcardPattern::Prefix(text) => {
                let value: Vec<char> = to_chars(value);
                starts_with(value.as_slice(), text.as_slice())
            },
            WildcardPattern::Suffix(text) => {
                let value: Vec<char> = to_chars(value);
                ends_with(value.as_slice(), text.as_slice())
            },
            WildcardPattern::General { ascii, characters } => {
                match ascii {
                    Some(bytes) => {
                        if value.is_ascii() {
                            proof {
                                if self.stands_for(characters@) {
                                    lemma_ascii_search(characters@, value@, 0, 0, None, 0);
                                }
                            }
                            return wildcard_matches_slice(
                                bytes.as_slice(),
                                value.as_bytes(),
                                STAR,
                                QUESTION,
                            );
                        }
                    },
                    None => {},
                }
                wildcard_matches_text(characters.as_slice(), value)
            },
        }
    }
}

/// Whether a pattern matches a value.
pub fn wildcard_matches(pattern: &str, value: &str) -> (result: bool)
    ensures
        result == name_matches(pattern@, value@),
        !value@.contains('*') ==> result == wild(pattern@, value@, '*', '?', 0, 0),
{
    proof {
        if !value@.contains('*') {
            matching_is_laying_over(pattern@, value@);
        }
    }
    WildcardPattern::new(pattern).is_match(value)
}

/// A pattern matches a value without stars exactly where its parts can be laid over the value: `*`
/// over any run of characters, `?` over any one, and any other character over itself.
pub proof fn matching_is_laying_over(pattern: Seq<char>, value: Seq<char>)
    requires
        !value.contains('*'),
    ensures
        name_matches(pattern, value) == wild(pattern, value, '*', '?', 0, 0),
{
    let length = pattern.len() as int;
    let end = value.len() as int;
    if length > 0 && only_stars(pattern, '*', 0) {
        lemma_only_stars(pattern, value, '*', '?', 0);
        lemma_star_takes(pattern, value, '*', '?', 0, 0, end);
    } else if plain(pattern) {
        assert forall|i: int| 0 <= i < length implies #[trigger] pattern[i] != '*' && pattern[i]
            != '?' by {
            assert(pattern.contains(pattern[i]));
        }
        lemma_plain(pattern, value, 0, length, 0);
        assert(pattern.subrange(0, length) =~= pattern);
        if wild(pattern, value, '*', '?', 0, 0) {
            assert(value.subrange(0, length) =~= value);
        }
        if value == pattern {
            assert(value.subrange(0, length) =~= value);
        }
    } else if pattern.last() == '*' && plain(pattern.drop_last()) {
        assert forall|i: int| 0 <= i < length - 1 implies #[trigger] pattern[i] != '*'
            && pattern[i] != '?' by {
            assert(pattern.drop_last().contains(pattern.drop_last()[i]));
        }
        lemma_plain(pattern, value, 0, length - 1, 0);
        assert(pattern.subrange(0, length - 1) =~= pattern.drop_last());
        assert(pattern[length - 1] == '*');
        assert(wild(pattern, value, '*', '?', length, end));
        assert(wild(pattern, value, '*', '?', length - 1, end));
        if length - 1 <= end {
            lemma_star_takes(pattern, value, '*', '?', length - 1, length - 1, end);
        }
    } else if pattern[0] == '*' && plain(pattern.drop_first()) {
        assert forall|i: int| 1 <= i < length implies #[trigger] pattern[i] != '*' && pattern[i]
            != '?' by {
            assert(pattern.drop_first()[i - 1] == pattern[i]);
            assert(pattern.drop_first().contains(pattern.drop_first()[i - 1]));
        }
        assert(pattern.subrange(1, length) =~= pattern.drop_first());
        let start = end - (length - 1);
        if start >= 0 {
            lemma_plain(pattern, value, 1, length, start);
        }
        if wild(pattern, value, '*', '?', 0, 0) {
            let to = lemma_star_stops(pattern, value, '*', '?', 0, 0);
            lemma_plain(pattern, value, 1, length, to);
            assert(to == start);
        }
        if chars::finishes_with(value, pattern.drop_first()) {
            assert(wild(pattern, value, '*', '?', length, end));
            assert(wild(pattern, value, '*', '?', 1, start));
            assert(wild(pattern, value, '*', '?', 0, start));
            lemma_star_takes(pattern, value, '*', '?', 0, 0, start);
        }
    } else {
        lemma_greedy(pattern, value, '*', '?', 0, 0, None, 0);
    }
}

/// Plain characters match themselves and nothing else.
proof fn lemma_plain(pattern: Seq<char>, value: Seq<char>, from: int, to: int, at: int)
    requires
        0 <= from <= to <= pattern.len(),
        0 <= at <= value.len(),
        forall|i: int| from <= i < to ==> #[trigger] pattern[i] != '*' && pattern[i] != '?',
    ensures
        wild(pattern, value, '*', '?', from, at) == (at + (to - from) <= value.len()
            && value.subrange(at, at + (to - from)) == pattern.subrange(from, to) && wild(
            pattern,
            value,
            '*',
            '?',
            to,
            at + (to - from),
        )),
    decreases to - from,
{
    if from < to {
        if at < value.len() && pattern[from] == value[at] {
            lemma_plain(pattern, value, from + 1, to, at + 1);
            let length = to - from;
            if at + length <= value.len() {
                let left = value.subrange(at, at + length);
                let right = pattern.subrange(from, to);
                assert(left.drop_first() =~= value.subrange(at + 1, at + length));
                assert(right.drop_first() =~= pattern.subrange(from + 1, to));
                if left.drop_first() == right.drop_first() {
                    assert(left =~= seq![left[0]] + left.drop_first());
                    assert(right =~= seq![right[0]] + right.drop_first());
                }
            }
        } else if at + (to - from) <= value.len() {
            assert(value.subrange(at, at + (to - from))[0] != pattern.subrange(from, to)[0]);
        }
    } else {
        assert(value.subrange(at, at) =~= pattern.subrange(from, from));
    }
}

} // verus!
