//! What `find -name` patterns match.

use vstd::prelude::*;
use crate::wildcard;

verus! {

/// Whether a text holds no `*` and no `?`.
pub open spec fn is_plain(text: Seq<char>) -> bool {
    forall|i: int| 0 <= i < text.len() ==> #[trigger] text[i] != '*' && text[i] != '?'
}

/// Whether a part of a text is another text.
pub open spec fn holds_at(text: Seq<char>, place: int, part: Seq<char>) -> bool {
    &&& 0 <= place
    &&& place + part.len() <= text.len()
    &&& forall|i: int| 0 <= i < part.len() ==> #[trigger] text[place + i] == part[i]
}

/// Plain characters are laid over themselves.
proof fn lemma_plain(pattern: Seq<char>, value: Seq<char>, from: int, to: int, at: int)
    requires
        0 <= from <= to <= pattern.len(),
        0 <= at <= value.len(),
        is_plain(pattern.subrange(from, to)),
    ensures
        wildcard::wild(pattern, value, '*', '?', from, at) == (holds_at(
            value,
            at,
            pattern.subrange(from, to),
        ) && wildcard::wild(pattern, value, '*', '?', to, at + (to - from))),
    decreases to - from,
{
    let part = pattern.subrange(from, to);
    if from < to {
        assert(part[0] == pattern[from]);
        let rest = pattern.subrange(from + 1, to);
        assert forall|i: int| 0 <= i < rest.len() implies #[trigger] rest[i] != '*' && rest[i]
            != '?' by {
            assert(rest[i] == part[i + 1]);
        }
        if at < value.len() && pattern[from] == value[at] {
            lemma_plain(pattern, value, from + 1, to, at + 1);
            if holds_at(value, at + 1, rest) {
                assert forall|i: int| 0 <= i < part.len() implies #[trigger] value[at + i]
                    == part[i] by {
                    if i > 0 {
                        assert(value[at + 1 + (i - 1)] == rest[i - 1]);
                    }
                }
            }
            if holds_at(value, at, part) {
                assert forall|i: int| 0 <= i < rest.len() implies #[trigger] value[at + 1 + i]
                    == rest[i] by {
                    assert(value[at + (i + 1)] == part[i + 1]);
                }
            }
        } else if holds_at(value, at, part) {
            assert(value[at + 0] == part[0]);
        }
    }
}

/// A star is laid over any run of characters.
pub proof fn star_is_laid_over_any_run(pattern: Seq<char>, value: Seq<char>, p: int, v: int)
    requires
        0 <= p < pattern.len(),
        0 <= v <= value.len(),
        pattern[p] == '*',
    ensures
        wildcard::wild(pattern, value, '*', '?', p, v) <==> exists|k: int|
            v <= k <= value.len() && #[trigger] wildcard::wild(pattern, value, '*', '?', p + 1, k),
    decreases value.len() - v,
{
    if v < value.len() {
        star_is_laid_over_any_run(pattern, value, p, v + 1);
    }
    assert(wildcard::wild(pattern, value, '*', '?', p, v) == (wildcard::wild(
        pattern,
        value,
        '*',
        '?',
        p + 1,
        v,
    ) || v < value.len() && wildcard::wild(pattern, value, '*', '?', p, v + 1)));
}

/// A question mark is laid over any one character.
pub proof fn question_mark_is_laid_over_one(pattern: Seq<char>, value: Seq<char>, p: int, v: int)
    requires
        0 <= p < pattern.len(),
        0 <= v <= value.len(),
        pattern[p] == '?',
    ensures
        wildcard::wild(pattern, value, '*', '?', p, v) == (v < value.len() && wildcard::wild(
            pattern,
            value,
            '*',
            '?',
            p + 1,
            v + 1,
        )),
{
}

/// A pattern without signs matches itself alone.
pub proof fn plain_pattern_matches_itself(pattern: Seq<char>, value: Seq<char>)
    requires
        is_plain(pattern),
        !value.contains('*'),
    ensures
        wildcard::name_matches(pattern, value) == (pattern == value),
{
    wildcard::matching_is_laying_over(pattern, value);
    let length = pattern.len() as int;
    assert(pattern.subrange(0, length) =~= pattern);
    lemma_plain(pattern, value, 0, length, 0);
    if wildcard::name_matches(pattern, value) {
        assert(holds_at(value, 0, pattern));
        assert(value.len() == length);
        assert forall|i: int| 0 <= i < length implies pattern[i] == value[i] by {
            assert(value[0 + i] == pattern[i]);
        }
        assert(pattern =~= value);
    }
    if pattern == value {
        assert(holds_at(value, 0, pattern));
    }
}

/// A star between two plain texts matches what starts with the first and ends with the second.
pub proof fn star_between_plain_texts(first: Seq<char>, second: Seq<char>, value: Seq<char>)
    requires
        is_plain(first),
        is_plain(second),
        !value.contains('*'),
    ensures
        wildcard::name_matches(first + seq!['*'] + second, value) == {
            &&& first.len() + second.len() <= value.len()
            &&& holds_at(value, 0, first)
            &&& holds_at(value, value.len() - second.len(), second)
        },
{
    let pattern = first + seq!['*'] + second;
    let at = first.len() as int;
    let length = pattern.len() as int;
    let end = value.len() as int;
    wildcard::matching_is_laying_over(pattern, value);
    assert(pattern.subrange(0, at) =~= first);
    assert(pattern.subrange(at + 1, length) =~= second);
    assert(pattern[at] == '*');
    lemma_plain(pattern, value, 0, at, 0);
    if at <= end {
        star_is_laid_over_any_run(pattern, value, at, at);
        assert forall|k: int| at <= k <= end implies #[trigger] wildcard::wild(
            pattern,
            value,
            '*',
            '?',
            at + 1,
            k,
        ) == (k == end - second.len() && holds_at(value, k, second)) by {
            lemma_plain(pattern, value, at + 1, length, k);
        }
        if at + second.len() <= end && holds_at(value, end - second.len(), second) {
            assert(wildcard::wild(pattern, value, '*', '?', at + 1, end - second.len()));
        }
    }
}

/// A question mark between two plain texts matches just what has one character between them.
pub proof fn question_mark_between_plain_texts(
    first: Seq<char>,
    second: Seq<char>,
    value: Seq<char>,
)
    requires
        is_plain(first),
        is_plain(second),
        !value.contains('*'),
    ensures
        wildcard::name_matches(first + seq!['?'] + second, value) == {
            &&& value.len() == first.len() + 1 + second.len()
            &&& holds_at(value, 0, first)
            &&& holds_at(value, first.len() as int + 1, second)
        },
{
    let pattern = first + seq!['?'] + second;
    let at = first.len() as int;
    let length = pattern.len() as int;
    let end = value.len() as int;
    wildcard::matching_is_laying_over(pattern, value);
    assert(pattern.subrange(0, at) =~= first);
    assert(pattern.subrange(at + 1, length) =~= second);
    assert(pattern[at] == '?');
    lemma_plain(pattern, value, 0, at, 0);
    if at <= end {
        question_mark_is_laid_over_one(pattern, value, at, at);
        if at < end {
            lemma_plain(pattern, value, at + 1, length, at + 1);
        }
    }
}

/// Stars alone match every name.
pub proof fn star_matches_every_name(value: Seq<char>)
    ensures
        wildcard::name_matches(seq!['*'], value),
{
}

} // verus!
