//! What the fast paths of compiled globs have in common with the general engine.

use vstd::prelude::*;
use vstd::utf8::*;
use crate::ascii::{BACKSLASH, OPEN_BRACKET, QUESTION, SLASH, STAR};
use crate::glob;
use crate::glob_engine;
use crate::platform;
use crate::platform::Platform;

verus! {

/// The bytes of `bytes` from `index` on.
spec fn tail(bytes: Seq<u8>, index: int) -> Seq<u8> {
    bytes.subrange(index, bytes.len() as int)
}

/// Whether `bytes` is well-formed UTF-8 from `index` on.
spec fn valid_from(bytes: Seq<u8>, index: int) -> bool {
    0 <= index <= bytes.len() && valid_utf8(tail(bytes, index))
}

/// Whether no character of `bytes` runs over `index`.
spec fn starts_at(bytes: Seq<u8>, index: int) -> bool {
    index == bytes.len() || !is_continuation_byte(bytes[index])
}

/// One step goes over one whole character.
proof fn lemma_step(bytes: Seq<u8>, index: int)
    requires
        valid_from(bytes, index),
        index < bytes.len(),
    ensures
        index < glob_engine::boundary_after(bytes, index) <= bytes.len(),
        valid_from(bytes, glob_engine::boundary_after(bytes, index)),
        starts_at(bytes, index),
        forall|u: int|
            index < u <= bytes.len() && #[trigger] starts_at(bytes, u)
                ==> glob_engine::boundary_after(bytes, index) <= u,
        forall|other: Seq<u8>, j: int|
            0 <= j < other.len() && other[j] == bytes[index] ==> (
            #[trigger] glob_engine::boundary_after(other, j)) == vstd::math::min(
                j + glob_engine::boundary_after(bytes, index) - index,
                other.len() as int,
            ),
{
    let rest = tail(bytes, index);
    assert(valid_first_scalar(rest));
    assert(rest[0] == bytes[index]);
    let next = glob_engine::boundary_after(bytes, index);
    assert(next == index + length_of_first_scalar(rest));
    assert(pop_first_scalar(rest) =~= tail(bytes, next));
    assert forall|u: int| index < u <= bytes.len() && #[trigger] starts_at(bytes, u) implies next
        <= u by {
        if u < next {
            assert(rest[u - index] == bytes[u]);
            assert(is_continuation_byte(rest[u - index]));
        }
    }
}

/// Folding keeps the class of a byte, so that equal folded bytes start characters of equal length.
proof fn lemma_fold_keeps_width(platform: Platform, left: Seq<u8>, i: int, right: Seq<u8>, j: int)
    requires
        valid_from(left, i),
        valid_from(right, j),
        i < left.len(),
        j < right.len(),
        platform::folded(platform, left[i]) == platform::folded(platform, right[j]),
    ensures
        glob_engine::boundary_after(left, i) - i == glob_engine::boundary_after(right, j) - j,
{
    lemma_step(left, i);
    lemma_step(right, j);
    assert(valid_first_scalar(tail(left, i)));
    assert(valid_first_scalar(tail(right, j)));
    assert(tail(left, i)[0] == left[i]);
    assert(tail(right, j)[0] == right[j]);
}

/// Whether the bytes of `pattern` from `p` to `end` are those of `text` from `t` on.
spec fn agrees(
    platform: Platform,
    pattern: Seq<u8>,
    p: int,
    end: int,
    text: Seq<u8>,
    t: int,
) -> bool {
    &&& t + (end - p) <= text.len()
    &&& forall|k: int|
        0 <= k < end - p ==> platform::folded(platform, #[trigger] pattern[p + k])
            == platform::folded(platform, text[t + k])
}

spec fn plain(pattern: Seq<u8>, p: int, end: int) -> bool {
    forall|i: int|
        p <= i < end ==> #[trigger] pattern[i] != STAR && pattern[i] != QUESTION && pattern[i]
            != OPEN_BRACKET && pattern[i] != BACKSLASH
}

/// The engine goes over a run of plain characters exactly where the text has the same bytes.
proof fn lemma_plain_run(
    platform: Platform,
    pattern: Seq<u8>,
    p: int,
    end: int,
    text: Seq<u8>,
    t: int,
)
    requires
        valid_from(pattern, p),
        valid_from(text, t),
        p <= end <= pattern.len(),
        starts_at(pattern, end),
        plain(pattern, p, end),
    ensures
        glob_engine::glob_at(platform, pattern, text, p, t) == (agrees(
            platform,
            pattern,
            p,
            end,
            text,
            t,
        ) && glob_engine::glob_at(platform, pattern, text, end, t + (end - p))),
        agrees(platform, pattern, p, end, text, t) ==> valid_from(text, t + (end - p)),
    decreases end - p,
{
    if p < end {
        lemma_step(pattern, p);
        assert(pattern[p] == pattern[p + 0]);
        let next_p = glob_engine::boundary_after(pattern, p);
        assert(next_p <= end);
        if t < text.len() {
            lemma_step(text, t);
            let next_t = glob_engine::boundary_after(text, t);
            let left = pattern.subrange(p, next_p);
            let right = text.subrange(t, next_t);
            let left_folded = platform::folded_all(platform, left);
            let right_folded = platform::folded_all(platform, right);
            if left_folded == right_folded {
                assert(left_folded.len() == right_folded.len());
                lemma_plain_run(platform, pattern, next_p, end, text, next_t);
                assert forall|k: int| 0 <= k < next_p - p implies platform::folded(
                    platform,
                    #[trigger] pattern[p + k],
                ) == platform::folded(platform, text[t + k]) by {
                    assert(left_folded[k] == right_folded[k]);
                }
                if agrees(platform, pattern, next_p, end, text, next_t) {
                    assert forall|k: int| 0 <= k < end - p implies platform::folded(
                        platform,
                        #[trigger] pattern[p + k],
                    ) == platform::folded(platform, text[t + k]) by {
                        if k >= next_p - p {
                            let m = k - (next_p - p);
                            assert(pattern[next_p + m] == pattern[p + k]);
                        }
                    }
                }
                if agrees(platform, pattern, p, end, text, t) {
                    assert forall|m: int| 0 <= m < end - next_p implies platform::folded(
                        platform,
                        #[trigger] pattern[next_p + m],
                    ) == platform::folded(platform, text[next_t + m]) by {
                        let k = m + (next_p - p);
                        assert(pattern[p + k] == pattern[next_p + m]);
                    }
                }
            } else if agrees(platform, pattern, p, end, text, t) {
                assert(pattern[p + 0] == pattern[p]);
                lemma_fold_keeps_width(platform, pattern, p, text, t);
                assert(left_folded =~= right_folded) by {
                    assert forall|k: int| 0 <= k < left.len() implies left_folded[k]
                        == right_folded[k] by {
                        assert(left[k] == pattern[p + k]);
                    }
                }
            }
        }
    }
}

/// A star leads exactly to the positions that no `/` comes before.
proof fn lemma_star_reaches(
    platform: Platform,
    pattern: Seq<u8>,
    text: Seq<u8>,
    after: int,
    t: int,
    target: int,
)
    requires
        valid_from(text, t),
        t <= target <= text.len(),
        starts_at(text, target),
        forall|i: int| t <= i < target ==> text[i] != SLASH,
        glob_engine::glob_at(platform, pattern, text, after, target),
    ensures
        glob_engine::glob_star(platform, pattern, text, after, t, false),
    decreases target - t,
{
    if t < target {
        lemma_step(text, t);
        lemma_star_reaches(
            platform,
            pattern,
            text,
            after,
            glob_engine::boundary_after(text, t),
            target,
        );
    }
}

proof fn lemma_star_stops(
    platform: Platform,
    pattern: Seq<u8>,
    text: Seq<u8>,
    after: int,
    t: int,
) -> (target: int)
    requires
        valid_from(text, t),
        glob_engine::glob_star(platform, pattern, text, after, t, false),
    ensures
        t <= target <= text.len(),
        valid_from(text, target),
        forall|i: int| t <= i < target ==> text[i] != SLASH,
        glob_engine::glob_at(platform, pattern, text, after, target),
    decreases text.len() - t,
{
    if glob_engine::glob_at(platform, pattern, text, after, t) {
        t
    } else {
        lemma_step(text, t);
        let next = glob_engine::boundary_after(text, t);
        let target = lemma_star_stops(platform, pattern, text, after, next);
        assert forall|i: int| t <= i < target implies text[i] != SLASH by {
            if t < i < next {
                assert(valid_first_scalar(tail(text, t)));
                assert(tail(text, t)[i - t] == text[i]);
                assert(is_continuation_byte(tail(text, t)[i - t]));
            }
        }
        target
    }
}

/// A glob gives on well-formed text what the general engine would give for its pattern, whichever
/// way it is matched.
pub proof fn fast_paths_agree_with_engine(platform: Platform, pattern: Seq<u8>, text: Seq<u8>)
    requires
        valid_utf8(pattern),
        valid_utf8(text),
        !glob::needs_general_engine(pattern),
    ensures
        glob::compiled_matches(platform, pattern, text) == glob_engine::glob_at(
            platform,
            pattern,
            text,
            0,
            0,
        ),
{
    assert(tail(pattern, 0) =~= pattern);
    assert(tail(text, 0) =~= text);
    let length = pattern.len() as int;
    if pattern.contains(STAR) {
        let index = pattern.index_of(STAR);
        assert(pattern[index] == STAR);
        assert(plain(pattern, 0, index));
        assert(plain(pattern, index + 1, length));
        lemma_plain_run(platform, pattern, 0, index, text, 0);
        let prefix = pattern.subrange(0, index);
        let suffix = pattern.subrange(index + 1, length);
        lemma_agrees_is_folded_equal(platform, pattern, 0, index, text, 0);
        is_char_boundary_iff_not_is_continuation_byte(pattern, index);
        valid_utf8_split(pattern, index);
        lemma_step(pattern, index);
        assert(glob_engine::boundary_after(pattern, index) == index + 1);
        let end = text.len() - suffix.len();
        if agrees(platform, pattern, 0, index, text, 0) {
            let matched = glob_engine::glob_star(platform, pattern, text, index + 1, index, false);
            assert(matched == glob_engine::glob_at(platform, pattern, text, index, index));
            if matched {
                let target = lemma_star_stops(platform, pattern, text, index + 1, index);
                lemma_plain_run(platform, pattern, index + 1, length, text, target);
                assert(target == end);
                lemma_agrees_is_folded_equal(platform, pattern, index + 1, length, text, end);
                assert(!text.subrange(index, end).contains(SLASH));
                assert(text.subrange(end, end + suffix.len()) =~= text.subrange(
                    end,
                    text.len() as int,
                ));
            }
            if glob::one_star_matches(platform, prefix, suffix, text) {
                assert(text.subrange(end, end + suffix.len()) =~= text.subrange(
                    end,
                    text.len() as int,
                ));
                lemma_agrees_is_folded_equal(platform, pattern, index + 1, length, text, end);
                if suffix.len() > 0 {
                    assert(pattern[index + 1 + 0] == pattern[index + 1]);
                    lemma_step(pattern, index + 1);
                    is_char_boundary_iff_not_is_continuation_byte(text, end);
                } else {
                    is_char_boundary_start_end_of_seq(text);
                }
                assert(starts_at(text, end));
                valid_utf8_split(text, end);
                assert(valid_from(text, end));
                assert forall|i: int| index <= i < end implies text[i] != SLASH by {
                    let middle = text.subrange(index, end);
                    assert(middle[i - index] == text[i]);
                    assert(middle.contains(middle[i - index]));
                }
                lemma_plain_run(platform, pattern, index + 1, length, text, end);
                assert(glob_engine::glob_at(platform, pattern, text, length, text.len() as int));
                lemma_star_reaches(platform, pattern, text, index + 1, index, end);
            }
        }
    } else {
        assert forall|i: int| 0 <= i < length implies #[trigger] pattern[i] != STAR by {
            assert(pattern.contains(pattern[i]));
        }
        assert(plain(pattern, 0, length));
        lemma_plain_run(platform, pattern, 0, length, text, 0);
        lemma_agrees_is_folded_equal(platform, pattern, 0, length, text, 0);
        let left = platform::folded_all(platform, pattern);
        let right = platform::folded_all(platform, text);
        if left == right {
            assert(left.len() == right.len());
        }
        if text.len() == length {
            assert(pattern.subrange(0, length) =~= pattern);
            assert(text.subrange(0, length) =~= text);
        }
    }
}

proof fn lemma_agrees_is_folded_equal(
    platform: Platform,
    pattern: Seq<u8>,
    p: int,
    end: int,
    text: Seq<u8>,
    t: int,
)
    requires
        0 <= p <= end <= pattern.len(),
        0 <= t,
    ensures
        t + (end - p) <= text.len() ==> agrees(platform, pattern, p, end, text, t) == (
        platform::folded_all(platform, pattern.subrange(p, end)) == platform::folded_all(
            platform,
            text.subrange(t, t + (end - p)),
        )),
{
    if t + (end - p) <= text.len() {
        let left = platform::folded_all(platform, pattern.subrange(p, end));
        let right = platform::folded_all(platform, text.subrange(t, t + (end - p)));
        if left == right {
            assert forall|k: int| 0 <= k < end - p implies platform::folded(
                platform,
                #[trigger] pattern[p + k],
            ) == platform::folded(platform, text[t + k]) by {
                assert(left[k] == right[k]);
            }
        }
        if agrees(platform, pattern, p, end, text, t) {
            assert(left =~= right) by {
                assert forall|k: int| 0 <= k < left.len() implies left[k] == right[k] by {
                    assert(pattern.subrange(p, end)[k] == pattern[p + k]);
                }
            }
        }
    }
}

} // verus!
