//! What braces in a command-line glob stand for, and which globs are refused.

use vstd::prelude::*;
use crate::braces;
use crate::glob;
use crate::glob::GlobFault;

verus! {

/// Whether bytes hold none of the signs that braces are read by: no brace, bracket or backslash.
pub open spec fn is_open_text(bytes: Seq<u8>) -> bool {
    forall|i: int|
        0 <= i < bytes.len() ==> #[trigger] bytes[i] != '{' as int && bytes[i] != '}' as int
            && bytes[i] != '[' as int && bytes[i] != ']' as int && bytes[i] != '\\' as int
}

/// Whether bytes hold no comma.
pub open spec fn has_no_comma(bytes: Seq<u8>) -> bool {
    forall|i: int| 0 <= i < bytes.len() ==> #[trigger] bytes[i] != ',' as int
}

/// Alternatives, with a comma between each two of them.
pub open spec fn listed(parts: Seq<Seq<u8>>) -> Seq<u8>
    decreases parts.len(),
{
    if parts.len() == 0 {
        Seq::empty()
    } else if parts.len() == 1 {
        parts[0]
    } else {
        parts[0] + seq![',' as u8] + listed(parts.subrange(1, parts.len() as int))
    }
}

/// A pattern with something in braces.
pub open spec fn with_braces(before: Seq<u8>, inside: Seq<u8>, after: Seq<u8>) -> Seq<u8> {
    before + seq!['{' as u8] + inside + seq!['}' as u8] + after
}

proof fn lemma_walked(pattern: Seq<u8>, from: int, to: int, openings: Seq<int>)
    requires
        0 <= from <= to <= pattern.len(),
        forall|i: int| 0 <= i < pattern.len() ==> #[trigger] pattern[i] != '\\' as int,
        is_open_text(pattern.subrange(from, to)),
    ensures
        braces::brace_from(pattern, from, openings, false) == braces::brace_from(
            pattern,
            to,
            openings,
            false,
        ),
    decreases to - from,
{
    if from < to {
        let here = pattern.subrange(from, to);
        let rest = pattern.subrange(from + 1, to);
        assert(here[0] == pattern[from]);
        assert forall|i: int| 0 <= i < rest.len() implies #[trigger] rest[i] != '{' as int && rest[i]
            != '}' as int && rest[i] != '[' as int && rest[i] != ']' as int && rest[i]
            != '\\' as int by {
            assert(rest[i] == here[i + 1]);
        }
        assert(!glob::escaped(pattern, from));
        lemma_walked(pattern, from + 1, to, openings);
    }
}

proof fn lemma_no_brace(pattern: Seq<u8>)
    requires
        is_open_text(pattern),
    ensures
        braces::expandable_brace(pattern) == Ok::<Option<(int, int)>, GlobFault>(None),
{
    assert(pattern.subrange(0, pattern.len() as int) =~= pattern);
    lemma_walked(pattern, 0, pattern.len() as int, Seq::empty());
}

proof fn lemma_all_plain(pending: Seq<Seq<u8>>, generated: int)
    requires
        forall|i: int| 0 <= i < pending.len() ==> is_open_text(#[trigger] pending[i]),
    ensures
        braces::expansion(pending, generated) == Ok::<Seq<Seq<u8>>, GlobFault>(pending),
    decreases pending.len(),
{
    if pending.len() == 0 {
        assert(pending =~= Seq::empty());
    } else {
        let rest = pending.drop_first();
        assert forall|i: int| 0 <= i < rest.len() implies is_open_text(#[trigger] rest[i]) by {
            assert(rest[i] == pending[i + 1]);
        }
        lemma_all_plain(rest, generated);
        lemma_no_brace(pending[0]);
        assert(pending =~= seq![pending[0]] + rest);
    }
}

proof fn lemma_part(value: Seq<u8>, start: int, index: int, to: int)
    requires
        0 <= start <= index <= to <= value.len(),
        forall|i: int| index <= i < to ==> #[trigger] value[i] != ',' as int,
    ensures
        braces::parts_from(value, start, index) == braces::parts_from(value, start, to),
    decreases to - index,
{
    if index < to {
        assert(value[index] != ',' as int);
        assert(!braces::comma_at(value, index));
        lemma_part(value, start, index + 1, to);
    }
}

proof fn lemma_parts(head: Seq<u8>, parts: Seq<Seq<u8>>)
    requires
        parts.len() > 0,
        forall|i: int| 0 <= i < parts.len() ==> has_no_comma(#[trigger] parts[i]),
        forall|i: int|
            0 <= i < (head + listed(parts)).len() ==> #[trigger] (head + listed(parts))[i]
                != '\\' as int,
    ensures
        braces::parts_from(head + listed(parts), head.len() as int, head.len() as int) == parts,
    decreases parts.len(),
{
    let value = head + listed(parts);
    let start = head.len() as int;
    let first = parts[0];
    let end = start + first.len();
    assert(has_no_comma(first));
    if parts.len() == 1 {
        assert forall|i: int| start <= i < end implies #[trigger] value[i] != ',' as int by {
            assert(value[i] == first[i - start]);
        }
        lemma_part(value, start, start, end);
        assert(value.subrange(start, value.len() as int) =~= first);
        assert(seq![first] =~= parts);
    } else {
        let rest = parts.subrange(1, parts.len() as int);
        let longer = head + first + seq![',' as u8];
        assert forall|i: int| start <= i < end implies #[trigger] value[i] != ',' as int by {
            assert(value[i] == first[i - start]);
        }
        lemma_part(value, start, start, end);
        assert(value[end] == ',' as u8);
        assert(value[end] as int == ',' as int);
        assert(!glob::escaped(value, end));
        assert(braces::comma_at(value, end));
        assert(value =~= longer + listed(rest));
        assert forall|i: int| 0 <= i < rest.len() implies has_no_comma(#[trigger] rest[i]) by {
            assert(rest[i] == parts[i + 1]);
        }
        assert forall|i: int| 0 <= i < (longer + listed(rest)).len() implies #[trigger] (longer
            + listed(rest))[i] != '\\' as int by {
            assert(value[i] == (longer + listed(rest))[i]);
        }
        lemma_parts(longer, rest);
        assert(value.subrange(start, end) =~= first);
        assert(longer.len() == end + 1);
        assert(braces::parts_from(value, start, end) == seq![first] + braces::parts_from(
            value,
            end + 1,
            end + 1,
        ));
        assert(seq![first] + rest =~= parts);
    }
}

proof fn lemma_listed_is_open(parts: Seq<Seq<u8>>)
    requires
        forall|i: int| 0 <= i < parts.len() ==> is_open_text(#[trigger] parts[i]),
    ensures
        is_open_text(listed(parts)),
        parts.len() > 1 ==> exists|i: int|
            0 <= i < listed(parts).len() && #[trigger] listed(parts)[i] == ',' as int,
    decreases parts.len(),
{
    if parts.len() == 1 {
        assert(is_open_text(parts[0]));
    } else if parts.len() > 1 {
        let rest = parts.subrange(1, parts.len() as int);
        assert forall|i: int| 0 <= i < rest.len() implies is_open_text(#[trigger] rest[i]) by {
            assert(rest[i] == parts[i + 1]);
        }
        lemma_listed_is_open(rest);
        let all = listed(parts);
        let first = parts[0];
        let tail = listed(rest);
        assert(is_open_text(first));
        assert(all[first.len() as int] == ',' as u8);
        assert forall|i: int| 0 <= i < all.len() implies #[trigger] all[i] != '{' as int && all[i]
            != '}' as int && all[i] != '[' as int && all[i] != ']' as int && all[i]
            != '\\' as int by {
            if i < first.len() {
                assert(all[i] == first[i]);
            } else if i > first.len() {
                assert(all[i] == tail[i - first.len() - 1]);
            }
        }
    }
}

/// What is open text stays so in front of other open text.
proof fn lemma_open_together(first: Seq<u8>, second: Seq<u8>)
    requires
        is_open_text(first),
        is_open_text(second),
    ensures
        is_open_text(first + second),
{
    let all = first + second;
    assert forall|i: int| 0 <= i < all.len() implies #[trigger] all[i] != '{' as int && all[i]
        != '}' as int && all[i] != '[' as int && all[i] != ']' as int && all[i] != '\\' as int by {
        if i < first.len() {
            assert(all[i] == first[i]);
        } else {
            assert(all[i] == second[i - first.len()]);
        }
    }
}

proof fn lemma_to_the_close(before: Seq<u8>, inside: Seq<u8>, after: Seq<u8>)
    requires
        is_open_text(before),
        is_open_text(inside),
        is_open_text(after),
    ensures
        ({
            let pattern = with_braces(before, inside, after);
            let open = before.len() as int;
            let close = open + 1 + inside.len();
            &&& braces::expandable_brace(pattern) == braces::brace_from(
                pattern,
                close,
                seq![open],
                false,
            )
            &&& pattern[close] as int == '}' as int
            &&& !glob::escaped(pattern, close)
            &&& pattern.subrange(open + 1, close) == inside
            &&& forall|i: int| 0 <= i < pattern.len() ==> #[trigger] pattern[i] != '\\' as int
            &&& pattern.subrange(close + 1, pattern.len() as int) == after
            &&& pattern.subrange(0, open) == before
        }),
{
    let pattern = with_braces(before, inside, after);
    let open = before.len() as int;
    let close = open + 1 + inside.len();
    assert forall|i: int| 0 <= i < pattern.len() implies #[trigger] pattern[i] != '\\' as int by {
        if i < open {
            assert(pattern[i] == before[i]);
        } else if open < i < close {
            assert(pattern[i] == inside[i - open - 1]);
        } else if i > close {
            assert(pattern[i] == after[i - close - 1]);
        }
    }
    assert(pattern.subrange(0, open) =~= before);
    assert(pattern.subrange(open + 1, close) =~= inside);
    assert(pattern.subrange(close + 1, pattern.len() as int) =~= after);
    lemma_walked(pattern, 0, open, Seq::empty());
    assert(pattern[open] as int == '{' as int);
    assert(!glob::escaped(pattern, open));
    let openings = Seq::<int>::empty().push(open);
    assert(openings =~= seq![open]);
    assert(braces::brace_from(pattern, open, Seq::empty(), false) == braces::brace_from(
        pattern,
        open + 1,
        openings,
        false,
    ));
    lemma_walked(pattern, open + 1, close, openings);
    assert(!glob::escaped(pattern, close));
}

/// Alternatives in braces stand for the pattern with each of them in the place of the braces, in their
/// order. There are at most 256 of them.
pub proof fn each_alternative_takes_its_turn(before: Seq<u8>, parts: Seq<Seq<u8>>, after: Seq<u8>)
    requires
        is_open_text(before),
        is_open_text(after),
        parts.len() >= 2,
        forall|i: int|
            0 <= i < parts.len() ==> is_open_text(#[trigger] parts[i]) && has_no_comma(parts[i]),
    ensures
        ({
            let expanded = braces::brace_expansion(with_braces(before, listed(parts), after));
            if parts.len() <= 256 {
                expanded matches Ok(patterns) && patterns.len() == parts.len() && forall|i: int|
                    0 <= i < parts.len() ==> #[trigger] patterns[i] == before + parts[i] + after
            } else {
                expanded matches Err(fault) && fault is TooManyExpansions
            }
        }),
{
    let inside = listed(parts);
    let pattern = with_braces(before, inside, after);
    let open = before.len() as int;
    let close = open + 1 + inside.len();
    lemma_listed_is_open(parts);
    lemma_to_the_close(before, inside, after);
    assert(Seq::<u8>::empty() + inside =~= inside);
    lemma_parts(Seq::empty(), parts);
    let comma = choose|i: int| 0 <= i < inside.len() && #[trigger] inside[i] == ',' as int;
    assert(!glob::escaped(inside, comma));
    assert(braces::comma_at(inside, comma));
    assert(braces::has_comma(inside));
    assert(braces::expandable_brace(pattern) == Ok::<Option<(int, int)>, GlobFault>(
        Some((open, close)),
    ));
    let each = braces::with_each_part(pattern, open, close, parts);
    let pending = seq![pattern];
    assert(pending.drop_first() =~= Seq::<Seq<u8>>::empty());
    assert(each + pending.drop_first() =~= each);
    assert forall|i: int| 0 <= i < each.len() implies #[trigger] each[i] == before + parts[i] + after
        && is_open_text(each[i]) by {
        assert(is_open_text(parts[i]));
        lemma_open_together(before, parts[i]);
        lemma_open_together(before + parts[i], after);
    }
    lemma_all_plain(each, parts.len() as int);
}

/// Braces without a comma in them stand for themselves.
pub proof fn braces_without_a_comma_stay(before: Seq<u8>, inside: Seq<u8>, after: Seq<u8>)
    requires
        is_open_text(before),
        is_open_text(inside),
        is_open_text(after),
        has_no_comma(inside),
    ensures
        ({
            let pattern = with_braces(before, inside, after);
            braces::brace_expansion(pattern) == Ok::<Seq<Seq<u8>>, GlobFault>(seq![pattern])
        }),
{
    let pattern = with_braces(before, inside, after);
    let open = before.len() as int;
    let close = open + 1 + inside.len();
    lemma_to_the_close(before, inside, after);
    assert(!braces::has_comma(inside)) by {
        if braces::has_comma(inside) {
            let i = choose|i: int| braces::comma_at(inside, i);
            assert(inside[i] != ',' as int);
        }
    }
    assert(seq![open].drop_last() =~= Seq::<int>::empty());
    assert(braces::brace_from(pattern, close, seq![open], false) == braces::brace_from(
        pattern,
        close + 1,
        Seq::empty(),
        false,
    ));
    lemma_walked(pattern, close + 1, pattern.len() as int, Seq::empty());
    let pending = seq![pattern];
    assert(pending.drop_first() =~= Seq::<Seq<u8>>::empty());
    assert(braces::expandable_brace(pattern) == Ok::<Option<(int, int)>, GlobFault>(None));
    lemma_all_plain(Seq::empty(), 1);
    assert(seq![pattern] + Seq::<Seq<u8>>::empty() =~= seq![pattern]);
}

/// A brace that is not closed is refused, and so is one that was not opened.
pub proof fn braces_come_in_pairs(before: Seq<u8>, after: Seq<u8>)
    requires
        is_open_text(before),
        is_open_text(after),
    ensures
        braces::brace_expansion(before + seq!['{' as u8] + after) == Err::<Seq<Seq<u8>>, GlobFault>(
            GlobFault::UnclosedBrace,
        ),
        braces::brace_expansion(before + seq!['}' as u8] + after) == Err::<Seq<Seq<u8>>, GlobFault>(
            GlobFault::UnmatchedBrace,
        ),
{
    let place = before.len() as int;
    let opened = before + seq!['{' as u8] + after;
    let closed = before + seq!['}' as u8] + after;
    assert forall|i: int| 0 <= i < opened.len() implies #[trigger] opened[i] != '\\' as int by {
        if i < place {
            assert(opened[i] == before[i]);
        } else if i > place {
            assert(opened[i] == after[i - place - 1]);
        }
    }
    assert forall|i: int| 0 <= i < closed.len() implies #[trigger] closed[i] != '\\' as int by {
        if i < place {
            assert(closed[i] == before[i]);
        } else if i > place {
            assert(closed[i] == after[i - place - 1]);
        }
    }
    assert(opened.subrange(0, place) =~= before);
    assert(closed.subrange(0, place) =~= before);
    assert(opened.subrange(place + 1, opened.len() as int) =~= after);
    assert(opened[place] as int == '{' as int);
    assert(closed[place] as int == '}' as int);
    assert(!glob::escaped(opened, place));
    assert(!glob::escaped(closed, place));
    lemma_walked(opened, 0, place, Seq::empty());
    lemma_walked(closed, 0, place, Seq::empty());
    lemma_walked(opened, place + 1, opened.len() as int, Seq::<int>::empty().push(place));
    assert(seq![opened][0] == opened);
    assert(seq![closed][0] == closed);
}

/// A glob of the command line is neither empty nor longer than 16384 bytes, and something stands behind
/// a `!` that it starts with. It holds no zero byte.
pub proof fn unfit_globs_are_refused(raw: Seq<u8>)
    ensures
        raw.len() == 0 ==> (braces::parsed_user_glob(raw) matches Err(fault) && fault is Empty),
        raw.len() > 16_384 ==> (braces::parsed_user_glob(raw) matches Err(fault) && fault is TooLong),
        raw.len() == 1 && raw[0] == '!' as int ==> (braces::parsed_user_glob(raw) matches Err(fault)
            && fault is EmptyPattern),
        2 <= raw.len() <= 16_384 && raw.contains(0u8) ==> (braces::parsed_user_glob(
            raw,
        ) matches Err(fault) && fault is Nul),
{
    if raw.len() >= 2 && raw.contains(0u8) {
        let k = choose|k: int| 0 <= k < raw.len() && raw[k] == 0u8;
        let rest = raw.subrange(1, raw.len() as int);
        if raw[0] == '!' as int {
            assert(rest[k - 1] == 0u8);
            assert(rest.contains(0u8));
        }
    }
}

/// A `!` in front of a glob turns what it says around, and nothing else.
pub proof fn mark_turns_a_glob_around(raw: Seq<u8>)
    requires
        1 <= raw.len() < 16_384,
        raw[0] != '!' as int,
    ensures
        match (braces::parsed_user_glob(raw), braces::parsed_user_glob(seq!['!' as u8] + raw)) {
            (Ok((plain, globs)), Ok((turned, others))) => plain && !turned && globs == others,
            (Err(fault), Err(other)) => fault == other,
            _ => false,
        },
{
    let marked = seq!['!' as u8] + raw;
    assert(marked.subrange(1, marked.len() as int) =~= raw);
    assert(marked[0] as int == '!' as int);
}

proof fn lemma_classes(pattern: Seq<u8>, from: int, to: int)
    requires
        0 <= from <= to <= pattern.len(),
        forall|i: int| from <= i < to ==> #[trigger] pattern[i] != '[' as int,
    ensures
        braces::classes_closed(pattern, from) == braces::classes_closed(pattern, to),
    decreases to - from,
{
    if from < to {
        assert(pattern[from] != '[' as int);
        lemma_classes(pattern, from + 1, to);
    }
}

proof fn lemma_no_close(pattern: Seq<u8>, from: int, to: int)
    requires
        0 <= from <= to <= pattern.len(),
        forall|i: int| from <= i < to ==> #[trigger] pattern[i] != ']' as int,
    ensures
        braces::next_class_close(pattern, from) == braces::next_class_close(pattern, to),
    decreases to - from,
{
    if from < to {
        assert(pattern[from] != ']' as int);
        lemma_no_close(pattern, from + 1, to);
    }
}

/// A class that is closed is taken, and one that is not is refused.
pub proof fn classes_must_be_closed(before: Seq<u8>, inside: Seq<u8>, after: Seq<u8>)
    requires
        is_open_text(before),
        is_open_text(inside),
        is_open_text(after),
    ensures
        !braces::classes_closed(before + seq!['[' as u8] + inside, 0),
        braces::classes_closed(before + seq!['[' as u8] + inside + seq![']' as u8] + after, 0),
{
    let place = before.len() as int;
    let cut = before + seq!['[' as u8] + inside;
    let whole = cut + seq![']' as u8] + after;
    let close = place + 1 + inside.len();
    assert forall|i: int| 0 <= i < place implies #[trigger] cut[i] != '[' as int by {
        assert(cut[i] == before[i]);
    }
    assert forall|i: int| 0 <= i < place implies #[trigger] whole[i] != '[' as int by {
        assert(whole[i] == before[i]);
    }
    assert forall|i: int| place < i < cut.len() implies #[trigger] cut[i] != ']' as int by {
        assert(cut[i] == inside[i - place - 1]);
    }
    assert forall|i: int| place < i < close implies #[trigger] whole[i] != ']' as int by {
        assert(whole[i] == inside[i - place - 1]);
    }
    assert forall|i: int| close < i < whole.len() implies #[trigger] whole[i] != '[' as int by {
        assert(whole[i] == after[i - close - 1]);
    }
    if place > 0 {
        assert(cut[place - 1] == before[place - 1]);
        assert(whole[place - 1] == before[place - 1]);
    }
    if inside.len() > 0 {
        assert(whole[close - 1] == inside[inside.len() - 1]);
    } else {
        assert(whole[close - 1] as int == '[' as int);
    }
    lemma_classes(cut, 0, place);
    lemma_classes(whole, 0, place);
    assert(cut[place] as int == '[' as int);
    assert(whole[place] as int == '[' as int);
    assert(!glob::escaped(cut, place));
    assert(!glob::escaped(whole, place));
    lemma_no_close(cut, place + 1, cut.len() as int);
    lemma_no_close(whole, place + 1, close);
    assert(whole[close] as int == ']' as int);
    assert(!glob::escaped(whole, close));
    assert(braces::next_class_close(whole, close) == close);
    lemma_classes(whole, close + 1, whole.len() as int);
}

} // verus!
