//! What each sign of a glob stands for.

use vstd::prelude::*;
use crate::glob_engine;
use crate::platform::Platform;

verus! {

/// The byte that stands for another where names are compared: on Windows the lower-case letter for an
/// ASCII letter in upper case, and otherwise the byte itself.
pub open spec fn as_compared(platform: Platform, byte: u8) -> int {
    if platform is Windows && 'A' as int <= byte <= 'Z' as int {
        byte + ('a' as int - 'A' as int)
    } else {
        byte as int
    }
}

/// Whether a text is made of ASCII characters from a place on.
pub open spec fn is_ascii_from(text: Seq<u8>, place: int) -> bool {
    forall|i: int| place <= i < text.len() ==> #[trigger] text[i] < 0x80
}

/// A character is as long as its first byte says, and never goes on behind the end.
pub proof fn characters_are_as_long_as_they_start(bytes: Seq<u8>, index: int)
    requires
        0 <= index < bytes.len(),
    ensures
        ({
            let next = glob_engine::boundary_after(bytes, index);
            let first = bytes[index];
            &&& index < next <= bytes.len()
            &&& first < 0x80 ==> next == index + 1
            &&& 0xc2 <= first <= 0xdf && index + 2 <= bytes.len() ==> next == index + 2
            &&& 0xe0 <= first <= 0xef && index + 3 <= bytes.len() ==> next == index + 3
            &&& 0xf0 <= first <= 0xf4 && index + 4 <= bytes.len() ==> next == index + 4
        }),
{
}

/// The end of a glob matches the end of a text alone.
pub proof fn end_matches_the_end(platform: Platform, pattern: Seq<u8>, text: Seq<u8>, t: int)
    ensures
        glob_engine::glob_at(platform, pattern, text, pattern.len() as int, t) == (t == text.len()),
{
}

proof fn lemma_literal(platform: Platform, pattern: Seq<u8>, p: int, text: Seq<u8>, t: int)
    requires
        0 <= p < pattern.len(),
        0 <= t <= text.len(),
        pattern[p] < 0x80,
    ensures
        glob_engine::literal_step(platform, pattern, p, text, t) == if t < text.len()
            && as_compared(platform, pattern[p]) == as_compared(platform, text[t]) {
            Some((p + 1, t + 1))
        } else {
            None
        },
{
    if t < text.len() {
        let end = glob_engine::boundary_after(text, t);
        let one = crate::platform::folded_all(platform, pattern.subrange(p, p + 1));
        let other = crate::platform::folded_all(platform, text.subrange(t, end));
        assert(one.len() == 1);
        assert(one[0] == as_compared(platform, pattern[p]));
        assert(other[0] == as_compared(platform, text[t]));
        if text[t] < 0x80 {
            if one[0] == other[0] {
                assert(one =~= other);
            }
        } else {
            assert(as_compared(platform, text[t]) >= 0x80);
            assert(one[0] != other[0]);
        }
    }
}

/// An ASCII character without a meaning of its own stands for itself: one that is no `*`, `?`, `[` or
/// backslash. So does any ASCII character behind a backslash.
pub proof fn plain_characters_stand_for_themselves(
    platform: Platform,
    pattern: Seq<u8>,
    text: Seq<u8>,
    p: int,
    t: int,
)
    requires
        0 <= p < pattern.len(),
        0 <= t <= text.len(),
    ensures
        pattern[p] < 0x80 && pattern[p] != '*' as int && pattern[p] != '?' as int && pattern[p]
            != '[' as int && pattern[p] != '\\' as int ==> glob_engine::glob_at(
            platform,
            pattern,
            text,
            p,
            t,
        ) == (t < text.len() && as_compared(platform, pattern[p]) == as_compared(platform, text[t])
            && glob_engine::glob_at(platform, pattern, text, p + 1, t + 1)),
        pattern[p] == '\\' as int && p + 1 < pattern.len() && pattern[p + 1] < 0x80
            ==> glob_engine::glob_at(platform, pattern, text, p, t) == (t < text.len()
            && as_compared(platform, pattern[p + 1]) == as_compared(platform, text[t])
            && glob_engine::glob_at(platform, pattern, text, p + 2, t + 1)),
{
    if pattern[p] < 0x80 {
        lemma_literal(platform, pattern, p, text, t);
    }
    if p + 1 < pattern.len() && pattern[p + 1] < 0x80 {
        lemma_literal(platform, pattern, p + 1, text, t);
    }
}

/// A question mark stands for one character that is no slash.
pub proof fn question_mark_stands_for_one_character(
    platform: Platform,
    pattern: Seq<u8>,
    text: Seq<u8>,
    p: int,
    t: int,
)
    requires
        0 <= p < pattern.len(),
        0 <= t <= text.len(),
        pattern[p] == '?' as int,
    ensures
        glob_engine::glob_at(platform, pattern, text, p, t) == (t < text.len() && text[t]
            != '/' as int && glob_engine::glob_at(
            platform,
            pattern,
            text,
            p + 1,
            glob_engine::boundary_after(text, t),
        )),
{
    lemma_literal(platform, pattern, p, text, t);
}

/// Whether the bytes between two places are there, and are no slashes unless slashes do not matter.
spec fn is_run(text: Seq<u8>, from: int, to: int, across: bool) -> bool {
    &&& from <= to <= text.len()
    &&& across || forall|i: int| from <= i < to ==> #[trigger] text[i] != '/' as int
}

proof fn lemma_star(
    platform: Platform,
    pattern: Seq<u8>,
    text: Seq<u8>,
    after: int,
    t: int,
    across: bool,
)
    requires
        0 <= t <= text.len(),
        is_ascii_from(text, t),
    ensures
        glob_engine::glob_star(platform, pattern, text, after, t, across) <==> exists|k: int|
            is_run(text, t, k, across) && #[trigger] glob_engine::glob_at(
                platform,
                pattern,
                text,
                after,
                k,
            ),
    decreases text.len() - t,
{
    assert(is_run(text, t, t, across));
    let here = glob_engine::glob_at(platform, pattern, text, after, t);
    assert(glob_engine::glob_star(platform, pattern, text, after, t, across) == (here || t
        < text.len() && (across || text[t] != '/' as int) && glob_engine::glob_star(
        platform,
        pattern,
        text,
        after,
        glob_engine::boundary_after(text, t),
        across,
    )));
    if t < text.len() {
        assert(text[t] < 0x80);
        assert(glob_engine::boundary_after(text, t) == t + 1);
        lemma_star(platform, pattern, text, after, t + 1, across);
        let open = across || text[t] != '/' as int;
        assert forall|k: int| t < k implies is_run(text, t, k, across) == (open && is_run(
            text,
            t + 1,
            k,
            across,
        )) by {}
        if glob_engine::glob_star(platform, pattern, text, after, t, across)
            && !glob_engine::glob_at(platform, pattern, text, after, t) {
            let k = choose|k: int|
                is_run(text, t + 1, k, across) && #[trigger] glob_engine::glob_at(
                    platform,
                    pattern,
                    text,
                    after,
                    k,
                );
            assert(is_run(text, t, k, across));
        }
        if exists|k: int|
            is_run(text, t, k, across) && #[trigger] glob_engine::glob_at(
                platform,
                pattern,
                text,
                after,
                k,
            ) {
            let k = choose|k: int|
                is_run(text, t, k, across) && #[trigger] glob_engine::glob_at(
                    platform,
                    pattern,
                    text,
                    after,
                    k,
                );
            if k > t {
                assert(is_run(text, t + 1, k, across));
            }
        }
    } else if exists|k: int|
        is_run(text, t, k, across) && #[trigger] glob_engine::glob_at(
            platform,
            pattern,
            text,
            after,
            k,
        ) {
        let k = choose|k: int|
            is_run(text, t, k, across) && #[trigger] glob_engine::glob_at(
                platform,
                pattern,
                text,
                after,
                k,
            );
        assert(k == t);
    }
}

/// A star stands for any run of characters without a slash.
pub proof fn star_stands_for_a_run_in_a_name(
    platform: Platform,
    pattern: Seq<u8>,
    text: Seq<u8>,
    p: int,
    t: int,
)
    requires
        0 <= p < pattern.len(),
        0 <= t <= text.len(),
        is_ascii_from(text, t),
        pattern[p] == '*' as int,
        p + 1 == pattern.len() || pattern[p + 1] != '*' as int,
    ensures
        glob_engine::glob_at(platform, pattern, text, p, t) <==> exists|k: int|
            {
                &&& t <= k <= text.len()
                &&& forall|i: int| t <= i < k ==> #[trigger] text[i] != '/' as int
                &&& #[trigger] glob_engine::glob_at(platform, pattern, text, p + 1, k)
            },
{
    lemma_star(platform, pattern, text, p + 1, t, false);
    assert forall|k: int| is_run(text, t, k, false) == (t <= k <= text.len() && forall|i: int|
        t <= i < k ==> #[trigger] text[i] != '/' as int) by {}
}

/// Two stars stand for any run of characters.
pub proof fn two_stars_stand_for_any_run(
    platform: Platform,
    pattern: Seq<u8>,
    text: Seq<u8>,
    p: int,
    t: int,
)
    requires
        0 <= p < pattern.len() - 1,
        0 <= t <= text.len(),
        is_ascii_from(text, t),
        pattern[p] == '*' as int,
        pattern[p + 1] == '*' as int,
        p + 2 == pattern.len() || pattern[p + 2] != '/' as int,
    ensures
        glob_engine::glob_at(platform, pattern, text, p, t) <==> exists|k: int|
            t <= k <= text.len() && #[trigger] glob_engine::glob_at(
                platform,
                pattern,
                text,
                p + 2,
                k,
            ),
{
    lemma_star(platform, pattern, text, p + 2, t, true);
    assert forall|k: int| is_run(text, t, k, true) == (t <= k <= text.len()) by {}
}

proof fn lemma_after_slash(platform: Platform, pattern: Seq<u8>, text: Seq<u8>, next: int, t: int)
    requires
        0 <= t <= text.len(),
        is_ascii_from(text, t),
    ensures
        glob_engine::glob_after_slash(platform, pattern, text, next, t) <==> exists|k: int|
            t <= k < text.len() && #[trigger] text[k] == '/' as int && glob_engine::glob_at(
                platform,
                pattern,
                text,
                next,
                k + 1,
            ),
    decreases text.len() - t,
{
    if t < text.len() {
        assert(text[t] < 0x80);
        assert(glob_engine::boundary_after(text, t) == t + 1);
        lemma_after_slash(platform, pattern, text, next, t + 1);
    }
}

/// Two stars with a slash behind them stand for nothing, or for a beginning of the rest that ends with a
/// slash: for any number of directories.
pub proof fn two_stars_and_a_slash_stand_for_directories(
    platform: Platform,
    pattern: Seq<u8>,
    text: Seq<u8>,
    p: int,
    t: int,
)
    requires
        0 <= p < pattern.len() - 2,
        0 <= t <= text.len(),
        is_ascii_from(text, t),
        pattern[p] == '*' as int,
        pattern[p + 1] == '*' as int,
        pattern[p + 2] == '/' as int,
    ensures
        glob_engine::glob_at(platform, pattern, text, p, t) <==> glob_engine::glob_at(
            platform,
            pattern,
            text,
            p + 3,
            t,
        ) || exists|k: int|
            t <= k < text.len() && #[trigger] text[k] == '/' as int && glob_engine::glob_at(
                platform,
                pattern,
                text,
                p + 3,
                k + 1,
            ),
{
    lemma_after_slash(platform, pattern, text, p + 3, t);
}

/// One item between brackets: a character, or two with all between them.
pub enum ClassItem {
    One(u8),
    Range(u8, u8),
}

/// Whether a byte can stand between brackets without a meaning of its own.
pub open spec fn is_plain_in_class(byte: u8) -> bool {
    byte != ']' as int && byte != '-' as int
}

/// Whether an item is made of bytes without a meaning of their own.
pub open spec fn is_plain_item(item: ClassItem) -> bool {
    match item {
        ClassItem::One(byte) => is_plain_in_class(byte),
        ClassItem::Range(low, high) => is_plain_in_class(low) && is_plain_in_class(high),
    }
}

/// How an item is written.
pub open spec fn item_text(item: ClassItem) -> Seq<u8> {
    match item {
        ClassItem::One(byte) => seq![byte],
        ClassItem::Range(low, high) => seq![low, '-' as u8, high],
    }
}

/// How items are written, one behind the other.
pub open spec fn items_text(items: Seq<ClassItem>) -> Seq<u8>
    decreases items.len(),
{
    if items.len() == 0 {
        Seq::empty()
    } else {
        item_text(items[0]) + items_text(items.drop_first())
    }
}

/// How a class is written: with a sign in first place that turns it round, or without one.
pub open spec fn class_text(sign: Option<u8>, items: Seq<ClassItem>) -> Seq<u8> {
    seq!['[' as u8] + (match sign {
        Some(byte) => seq![byte],
        None => Seq::empty(),
    }) + items_text(items) + seq![']' as u8]
}

/// Whether an item stands for a byte, the way names are compared.
pub open spec fn item_holds(platform: Platform, item: ClassItem, byte: u8) -> bool {
    match item {
        ClassItem::One(one) => as_compared(platform, one) == as_compared(platform, byte),
        ClassItem::Range(low, high) => as_compared(platform, low) <= as_compared(platform, byte)
            <= as_compared(platform, high),
    }
}

proof fn lemma_items_plain(items: Seq<ClassItem>)
    requires
        forall|i: int| 0 <= i < items.len() ==> is_plain_item(#[trigger] items[i]),
    ensures
        forall|i: int|
            0 <= i < items_text(items).len() ==> #[trigger] items_text(items)[i] != ']' as int,
    decreases items.len(),
{
    if items.len() > 0 {
        let rest = items.drop_first();
        assert forall|i: int| 0 <= i < rest.len() implies is_plain_item(#[trigger] rest[i]) by {
            assert(rest[i] == items[i + 1]);
        }
        lemma_items_plain(rest);
        let first = item_text(items[0]);
        let all = items_text(items);
        assert(is_plain_item(items[0]));
        assert forall|i: int| 0 <= i < all.len() implies #[trigger] all[i] != ']' as int by {
            if i < first.len() {
                assert(all[i] == first[i]);
            } else {
                assert(all[i] == items_text(rest)[i - first.len()]);
            }
        }
    }
}

proof fn lemma_close(pattern: Seq<u8>, from: int, close: int)
    requires
        0 <= from <= close < pattern.len(),
        pattern[close] == ']' as int,
        forall|i: int| from <= i < close ==> #[trigger] pattern[i] != ']' as int,
    ensures
        glob_engine::class_close(pattern, from) == close,
    decreases close - from,
{
    if from < close {
        lemma_close(pattern, from + 1, close);
    }
}

proof fn lemma_second(items: Seq<ClassItem>)
    requires
        items.len() > 0,
        forall|i: int| 0 <= i < items.len() ==> is_plain_item(#[trigger] items[i]),
    ensures
        items_text(items).len() > 0,
        items_text(items)[0] != '-' as int,
{
    assert(is_plain_item(items[0]));
}

proof fn lemma_holds(
    platform: Platform,
    pattern: Seq<u8>,
    items: Seq<ClassItem>,
    from: int,
    close: int,
    byte: u8,
)
    requires
        0 <= from,
        close == from + items_text(items).len(),
        close < pattern.len(),
        pattern.subrange(from, close) == items_text(items),
        pattern[close] == ']' as int,
        forall|i: int| 0 <= i < items.len() ==> is_plain_item(#[trigger] items[i]),
    ensures
        glob_engine::class_holds(
            platform,
            pattern,
            from,
            close,
            crate::platform::folded(platform, byte),
        ) <==> exists|i: int|
            0 <= i < items.len() && item_holds(platform, #[trigger] items[i], byte),
    decreases items.len(),
{
    if items.len() > 0 {
        let rest = items.drop_first();
        let first = item_text(items[0]);
        let part = pattern.subrange(from, close);
        assert(is_plain_item(items[0]));
        assert forall|i: int| 0 <= i < rest.len() implies is_plain_item(#[trigger] rest[i]) by {
            assert(rest[i] == items[i + 1]);
        }
        let next = from + first.len();
        assert(pattern.subrange(next, close) =~= items_text(rest)) by {
            assert(items_text(items).subrange(first.len() as int, items_text(items).len() as int)
                =~= items_text(rest));
            assert(pattern.subrange(next, close) =~= part.subrange(
                first.len() as int,
                part.len() as int,
            ));
        }
        lemma_holds(platform, pattern, rest, next, close, byte);
        assert(pattern[from] == part[0]);
        if rest.len() > 0 {
            lemma_second(rest);
            assert(pattern[next] == pattern.subrange(next, close)[0]);
        }
        match items[0] {
            ClassItem::One(one) => {
                assert(first[0] == one);
                assert(part[0] == one);
                if rest.len() == 0 {
                    assert(items_text(rest).len() == 0);
                }
                assert(!(from + 2 < close && pattern[from + 1] == '-' as int));
            },
            ClassItem::Range(low, high) => {
                assert(part[0] == low && part[1] == '-' as int && part[2] == high);
                assert(pattern[from + 1] == part[1]);
                assert(pattern[from + 2] == part[2]);
            },
        }
        if exists|i: int| 0 <= i < items.len() && item_holds(platform, #[trigger] items[i], byte) {
            let i = choose|i: int|
                0 <= i < items.len() && item_holds(platform, #[trigger] items[i], byte);
            if i > 0 {
                assert(rest[i - 1] == items[i]);
            }
        }
        if exists|i: int| 0 <= i < rest.len() && item_holds(platform, #[trigger] rest[i], byte) {
            let i = choose|i: int|
                0 <= i < rest.len() && item_holds(platform, #[trigger] rest[i], byte);
            assert(items[i + 1] == rest[i]);
        }
    }
}

/// A class stands for one character that is no slash and that one of its items stands for: the character
/// that is written, or one from the first to the second of two with a hyphen between them. With `!` or
/// `^` in first place it stands for one that no item stands for.
pub proof fn class_stands_for_what_its_items_hold(
    platform: Platform,
    before: Seq<u8>,
    sign: Option<u8>,
    items: Seq<ClassItem>,
    after: Seq<u8>,
    text: Seq<u8>,
    t: int,
)
    requires
        items.len() > 0,
        forall|i: int| 0 <= i < items.len() ==> is_plain_item(#[trigger] items[i]),
        sign matches Some(byte) ==> byte == '!' as int || byte == '^' as int,
        sign is None ==> items_text(items)[0] != '!' as int && items_text(items)[0] != '^' as int,
        0 <= t <= text.len(),
    ensures
        ({
            let pattern = before + class_text(sign, items) + after;
            let p = before.len() as int;
            let behind = p + class_text(sign, items).len();
            let held = exists|i: int|
                0 <= i < items.len() && item_holds(platform, #[trigger] items[i], text[t]);
            glob_engine::glob_at(platform, pattern, text, p, t) == (t < text.len() && text[t]
                != '/' as int && held == (sign is None) && glob_engine::glob_at(
                platform,
                pattern,
                text,
                behind,
                glob_engine::boundary_after(text, t),
            ))
        }),
{
    let class = class_text(sign, items);
    let pattern = before + class + after;
    let p = before.len() as int;
    let offset: int = if sign is Some {
        2
    } else {
        1
    };
    let inner = items_text(items);
    let first = p + offset;
    let close = first + inner.len();
    assert(class.len() == offset + inner.len() + 1);
    assert(pattern[p] == class[0]);
    assert(class[0] == '[' as int);
    assert(pattern[close] == class[offset + inner.len()]);
    assert(class[offset + inner.len()] == ']' as int);
    assert(pattern.subrange(first, close) =~= inner) by {
        assert forall|i: int| 0 <= i < inner.len() implies pattern[first + i] == #[trigger] inner[i] by {
            assert(pattern[first + i] == class[offset + i]);
            assert(class[offset + i] == inner[i]);
        }
    }
    lemma_items_plain(items);
    lemma_second(items);
    assert(pattern[first] == pattern.subrange(first, close)[0]);
    if sign is Some {
        assert(pattern[p + 1] == class[1]);
        assert(class[1] == sign->0);
    }
    assert(glob_engine::class_first_item(pattern, p) == first);
    assert forall|i: int| first <= i < close implies #[trigger] pattern[i] != ']' as int by {
        assert(pattern[i] == pattern.subrange(first, close)[i - first]);
        assert(inner[i - first] != ']' as int);
    }
    lemma_close(pattern, first, close);
    assert(glob_engine::class_end(pattern, p) == close);
    if t < text.len() {
        lemma_holds(platform, pattern, items, first, close, text[t]);
    }
}

/// A class of one range stands for just the characters from its first to its last, and turned round for
/// just the others; a slash is none of either.
pub proof fn range_stands_for_all_between(
    platform: Platform,
    low: u8,
    high: u8,
    byte: u8,
)
    requires
        is_plain_in_class(low),
        is_plain_in_class(high),
        low != '!' as int,
        low != '^' as int,
        byte < 0x80,
    ensures
        ({
            let inside = as_compared(platform, low) <= as_compared(platform, byte) <= as_compared(
                platform,
                high,
            );
            let class = seq!['[' as u8, low, '-' as u8, high, ']' as u8];
            let turned = seq!['[' as u8, '!' as u8, low, '-' as u8, high, ']' as u8];
            &&& glob_engine::glob_at(platform, class, seq![byte], 0, 0) == (byte != '/' as int
                && inside)
            &&& glob_engine::glob_at(platform, turned, seq![byte], 0, 0) == (byte != '/' as int
                && !inside)
        }),
{
    let items = seq![ClassItem::Range(low, high)];
    let none = Seq::<u8>::empty();
    let text = seq![byte];
    assert(items.drop_first().len() == 0);
    assert(items_text(items.drop_first()) =~= none);
    assert(items_text(items) =~= seq![low, '-' as u8, high]);
    assert(is_plain_item(items[0]));
    class_stands_for_what_its_items_hold(platform, none, None, items, none, text, 0);
    class_stands_for_what_its_items_hold(platform, none, Some('!' as u8), items, none, text, 0);
    let class = seq!['[' as u8, low, '-' as u8, high, ']' as u8];
    let turned = seq!['[' as u8, '!' as u8, low, '-' as u8, high, ']' as u8];
    assert(none + class_text(None, items) + none =~= class);
    assert(none + class_text(Some('!' as u8), items) + none =~= turned);
    assert(class_text(None, items).len() == 5);
    assert(class_text(Some('!' as u8), items).len() == 6);
    assert(item_holds(platform, items[0], byte) == (as_compared(platform, low) <= as_compared(
        platform,
        byte,
    ) <= as_compared(platform, high)));
}

} // verus!
