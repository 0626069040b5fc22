//! Which lines of a file a search shows, and under which numbers.

use vstd::prelude::*;
use crate::engine::RegexModel;
use crate::native_matcher;
use crate::native_matcher::MatcherModel;
use crate::scanner;
use crate::scanner::{BinaryDetection, EventModel, ScanState, ScannerOptions};

verus! {

/// A line that is looked at, and whether it matches.
pub struct LookedAt {
    pub bytes: Seq<u8>,
    pub matched: bool,
}

/// How far a search comes by looking at lines, and what is found in them.
pub open spec fn run_from(state: ScanState, lines: Seq<LookedAt>) -> (ScanState, Seq<EventModel>)
    decreases lines.len(),
{
    if lines.len() == 0 {
        (state, Seq::empty())
    } else {
        let (next, events) = scanner::stepped(state, lines[0].bytes, lines[0].matched);
        let (last, rest) = run_from(next, lines.drop_first());
        (last, events + rest)
    }
}

/// How many of lines match.
pub open spec fn match_total(lines: Seq<LookedAt>) -> nat
    decreases lines.len(),
{
    if lines.len() == 0 {
        0
    } else {
        match_total(lines.drop_last()) + if lines.last().matched {
            1nat
        } else {
            0
        }
    }
}

/// Whether a line that matches is among the `after` lines before line `number` or the `before` lines
/// behind it.
pub open spec fn is_near(lines: Seq<LookedAt>, number: int, before: int, after: int) -> bool {
    exists|i: int|
        0 <= i < lines.len() && (#[trigger] lines[i]).matched && (i + 1 < number <= i + 1 + after
            || number < i + 1 <= number + before)
}

/// Whether line `number` holds these bytes.
pub open spec fn is_line(lines: Seq<LookedAt>, number: u64, bytes: Seq<u8>) -> bool {
    1 <= number <= lines.len() && lines[number - 1].bytes == bytes
}

/// The number of the last line that matches, or 0.
spec fn last_match(lines: Seq<LookedAt>) -> int
    decreases lines.len(),
{
    if lines.len() == 0 {
        0
    } else if lines.last().matched {
        lines.len() as int
    } else {
        last_match(lines.drop_last())
    }
}

proof fn lemma_last_match(lines: Seq<LookedAt>)
    ensures
        0 <= last_match(lines) <= lines.len(),
        last_match(lines) > 0 ==> lines[last_match(lines) - 1].matched,
        forall|i: int| last_match(lines) <= i < lines.len() ==> !(#[trigger] lines[i]).matched,
    decreases lines.len(),
{
    if lines.len() > 0 && !lines.last().matched {
        lemma_last_match(lines.drop_last());
        assert forall|i: int| last_match(lines) <= i < lines.len() implies !(
        #[trigger] lines[i]).matched by {
            if i < lines.len() - 1 {
                assert(lines.drop_last()[i] == lines[i]);
            }
        }
    }
}

proof fn lemma_run_back(state: ScanState, lines: Seq<LookedAt>)
    requires
        lines.len() > 0,
    ensures
        ({
            let (middle, events) = run_from(state, lines.drop_last());
            let (last, more) = scanner::stepped(
                middle,
                lines.last().bytes,
                lines.last().matched,
            );
            run_from(state, lines) == (last, events + more)
        }),
    decreases lines.len(),
{
    let (next, first) = scanner::stepped(state, lines[0].bytes, lines[0].matched);
    if lines.len() == 1 {
        assert(lines.drop_first().len() == 0);
        assert(lines.drop_last().len() == 0);
        assert(lines.last() == lines[0]);
        assert(run_from(next, lines.drop_first()) == (next, Seq::<EventModel>::empty()));
        assert(run_from(state, lines.drop_last()) == (state, Seq::<EventModel>::empty()));
        assert(first + Seq::<EventModel>::empty() =~= first);
        assert(Seq::<EventModel>::empty() + first =~= first);
    } else {
        let rest = lines.drop_first();
        lemma_run_back(next, rest);
        assert(rest.drop_last() =~= lines.drop_last().drop_first());
        assert(rest.last() == lines.last());
        assert(lines.drop_last()[0] == lines[0]);
        let (middle, events) = run_from(next, rest.drop_last());
        let (last, more) = scanner::stepped(middle, lines.last().bytes, lines.last().matched);
        assert(first + (events + more) =~= (first + events) + more);
    }
}

proof fn lemma_contains(left: Seq<EventModel>, right: Seq<EventModel>, event: EventModel)
    ensures
        (left + right).contains(event) == (left.contains(event) || right.contains(event)),
{
    let both = left + right;
    if left.contains(event) {
        let i = choose|i: int| 0 <= i < left.len() && left[i] == event;
        assert(both[i] == event);
    }
    if right.contains(event) {
        let i = choose|i: int| 0 <= i < right.len() && right[i] == event;
        assert(both[left.len() + i] == event);
    }
    if both.contains(event) {
        let i = choose|i: int| 0 <= i < both.len() && both[i] == event;
        if i < left.len() {
            assert(left[i] == event);
        } else {
            assert(right[i - left.len()] == event);
        }
    }
}

/// How far a search for lines comes that has no limit.
spec fn is_reached(options: ScannerOptions, lines: Seq<LookedAt>, state: ScanState) -> bool {
    let last = last_match(lines);
    let total = lines.len() as int;
    let before = options.before_context as int;
    let after = options.after_context as int;
    &&& state.options == options
    &&& state.lines == total
    &&& state.match_count == match_total(lines)
    &&& !state.done
    &&& state.after_left == if last > 0 && last + after > total {
        last + after - total
    } else {
        0
    }
    &&& state.last_shown == if last == 0 {
        0
    } else if last + after > total {
        total
    } else {
        last + after
    }
    &&& state.pending.len() == if total - state.last_shown > before {
        before
    } else {
        total - state.last_shown
    }
    &&& forall|i: int|
        0 <= i < state.pending.len() ==> #[trigger] state.pending[i] == lines[total
            - state.pending.len() + i].bytes
}

proof fn lemma_match_total(lines: Seq<LookedAt>)
    ensures
        match_total(lines) <= lines.len(),
    decreases lines.len(),
{
    if lines.len() > 0 {
        lemma_match_total(lines.drop_last());
    }
}

proof fn lemma_reached(options: ScannerOptions, lines: Seq<LookedAt>)
    requires
        options.mode is Standard,
        options.max_matches is None,
        lines.len() < u64::MAX,
    ensures
        is_reached(options, lines, run_from(scanner::scan_start(options), lines).0),
    decreases lines.len(),
{
    let start = scanner::scan_start(options);
    if lines.len() > 0 {
        let shorter = lines.drop_last();
        lemma_reached(options, shorter);
        lemma_run_back(start, lines);
        lemma_last_match(shorter);
        lemma_last_match(lines);
        lemma_match_total(shorter);
        let middle = run_from(start, shorter).0;
        let last = run_from(start, lines).0;
        let bytes = lines.last().bytes;
        assert(forall|i: int| 0 <= i < shorter.len() ==> #[trigger] shorter[i] == lines[i]);
        if !lines.last().matched && middle.after_left == 0 {
            let all = middle.pending.push(bytes);
            assert forall|i: int| 0 <= i < last.pending.len() implies #[trigger] last.pending[i]
                == lines[lines.len() - last.pending.len() + i].bytes by {
                let k = i + all.len() - last.pending.len();
                assert(last.pending[i] == all[k]);
                if k < middle.pending.len() {
                    assert(middle.pending[k] == shorter[shorter.len() - middle.pending.len()
                        + k].bytes);
                }
            }
        }
    }
}

/// What is found in a search for lines that has no limit.
spec fn is_found(options: ScannerOptions, lines: Seq<LookedAt>, events: Seq<EventModel>) -> bool {
    &&& forall|number: u64, bytes: Seq<u8>|
        #[trigger] events.contains(EventModel::Matched(number, bytes)) <==> is_line(
            lines,
            number,
            bytes,
        ) && lines[number - 1].matched
    &&& forall|number: u64, bytes: Seq<u8>|
        #[trigger] events.contains(EventModel::Context(number, bytes)) <==> is_line(
            lines,
            number,
            bytes,
        ) && !lines[number - 1].matched && is_near(
            lines,
            number as int,
            options.before_context as int,
            options.after_context as int,
        )
}

proof fn lemma_near(lines: Seq<LookedAt>, number: int, before: int, after: int)
    requires
        lines.len() > 0,
    ensures
        is_near(lines, number, before, after) == (is_near(
            lines.drop_last(),
            number,
            before,
            after,
        ) || lines.last().matched && (lines.len() < number <= lines.len() + after || number
            < lines.len() <= number + before)),
{
    let shorter = lines.drop_last();
    if is_near(lines, number, before, after) {
        let i = choose|i: int|
            0 <= i < lines.len() && (#[trigger] lines[i]).matched && (i + 1 < number <= i + 1
                + after || number < i + 1 <= number + before);
        if i < shorter.len() {
            assert(shorter[i].matched);
        }
    }
    if is_near(shorter, number, before, after) {
        let i = choose|i: int|
            0 <= i < shorter.len() && (#[trigger] shorter[i]).matched && (i + 1 < number <= i + 1
                + after || number < i + 1 <= number + before);
        assert(lines[i].matched);
    }
    if lines.last().matched {
        assert(lines[lines.len() - 1].matched);
    }
}

proof fn lemma_found_by_match(
    options: ScannerOptions,
    lines: Seq<LookedAt>,
    middle: ScanState,
    event: EventModel,
)
    requires
        lines.len() > 0,
        lines.len() < u64::MAX,
        is_reached(options, lines.drop_last(), middle),
    ensures
        ({
            let more = scanner::match_events(middle, lines.last().bytes);
            more.contains(event) == match event {
                EventModel::Break => (options.before_context > 0 || options.after_context > 0)
                    && middle.last_shown > 0 && lines.len() - middle.pending.len()
                    > middle.last_shown + 1,
                EventModel::Matched(number, bytes) => number == lines.len() && bytes
                    == lines.last().bytes,
                EventModel::Context(number, bytes) => {
                    &&& lines.len() - middle.pending.len() <= number < lines.len()
                    &&& lines[number - 1].bytes == bytes
                },
            }
        }),
{
    let number = lines.len() as int;
    let shorter = lines.drop_last();
    let more = scanner::match_events(middle, lines.last().bytes);
    let pending = scanner::pending_events(middle.pending, number - 1);
    let apart = (options.before_context > 0 || options.after_context > 0) && middle.last_shown > 0
        && number - middle.pending.len() > middle.last_shown + 1;
    let first: Seq<EventModel> = if apart {
        seq![EventModel::Break]
    } else {
        Seq::empty()
    };
    let tail = seq![EventModel::Matched(number as u64, lines.last().bytes)];
    assert(more == first + pending + tail);
    lemma_contains(first + pending, tail, event);
    lemma_contains(first, pending, event);
    assert(tail[0] == EventModel::Matched(number as u64, lines.last().bytes));
    assert(apart ==> first[0] == EventModel::Break);
    assert forall|i: int| 0 <= i < pending.len() implies #[trigger] pending[i]
        == EventModel::Context((number - pending.len() + i) as u64, lines[number - pending.len() + i
        - 1].bytes) by {
        assert(middle.pending[i] == shorter[shorter.len() - middle.pending.len() + i].bytes);
    }
    match event {
        EventModel::Context(place, bytes) => {
            if number - pending.len() <= place < number && lines[place - 1].bytes == bytes {
                assert(pending[place - (number - pending.len())] == event);
            }
        },
        _ => {},
    }
}

proof fn lemma_found(options: ScannerOptions, lines: Seq<LookedAt>)
    requires
        options.mode is Standard,
        options.max_matches is None,
        lines.len() < u64::MAX,
    ensures
        is_found(options, lines, run_from(scanner::scan_start(options), lines).1),
    decreases lines.len(),
{
    let start = scanner::scan_start(options);
    let events = run_from(start, lines).1;
    let before = options.before_context as int;
    let after = options.after_context as int;
    if lines.len() > 0 {
        let shorter = lines.drop_last();
        let total = lines.len() as int;
        lemma_found(options, shorter);
        lemma_reached(options, shorter);
        lemma_run_back(start, lines);
        lemma_last_match(shorter);
        let (middle, sofar) = run_from(start, shorter);
        let bytes = lines.last().bytes;
        let more = scanner::stepped(middle, bytes, lines.last().matched).1;
        assert(events == sofar + more);
        assert(forall|i: int| 0 <= i < shorter.len() ==> #[trigger] shorter[i] == lines[i]);
        let one = seq![EventModel::Context(total as u64, bytes)];
        assert(one[0] == EventModel::Context(total as u64, bytes));
        assert forall|number: u64, bytes: Seq<u8>|
            #[trigger] events.contains(EventModel::Matched(number, bytes)) <==> is_line(
                lines,
                number,
                bytes,
            ) && lines[number - 1].matched by {
            let event = EventModel::Matched(number, bytes);
            lemma_contains(sofar, more, event);
            lemma_found_by_match(options, lines, middle, event);
            assert(sofar.contains(event) <==> is_line(shorter, number, bytes) && shorter[number
                - 1].matched);
        }
        assert forall|number: u64, bytes: Seq<u8>|
            #[trigger] events.contains(EventModel::Context(number, bytes)) <==> is_line(
                lines,
                number,
                bytes,
            ) && !lines[number - 1].matched && is_near(lines, number as int, before, after) by {
            let event = EventModel::Context(number, bytes);
            lemma_contains(sofar, more, event);
            lemma_found_by_match(options, lines, middle, event);
            lemma_near(lines, number as int, before, after);
            assert(sofar.contains(event) <==> is_line(shorter, number, bytes) && !shorter[number
                - 1].matched && is_near(shorter, number as int, before, after));
            let last = last_match(shorter);
            if last > 0 {
                assert(shorter[last - 1].matched);
                assert(last < number <= last + after ==> is_near(
                    shorter,
                    number as int,
                    before,
                    after,
                ));
                assert(number < last <= number + before ==> is_near(
                    shorter,
                    number as int,
                    before,
                    after,
                ));
            }
            if number == total && is_near(shorter, number as int, before, after) {
                let i = choose|i: int|
                    0 <= i < shorter.len() && (#[trigger] shorter[i]).matched && (i + 1 < number
                        <= i + 1 + after || number < i + 1 <= number + before);
                assert(i < last);
            }
        }
    } else {
        assert(events =~= Seq::<EventModel>::empty());
    }
}

/// In a search for lines without a limit, the lines that match are shown as such, under their numbers.
/// Of the others just those are shown, around them, that have a match among the lines before them, as
/// many as are asked for behind a match, or among the lines behind them, as many as are asked for before
/// one.
pub proof fn matches_are_shown_with_the_lines_around(options: ScannerOptions, lines: Seq<LookedAt>)
    requires
        options.mode is Standard,
        options.max_matches is None,
        lines.len() < u64::MAX,
    ensures
        ({
            let events = run_from(scanner::scan_start(options), lines).1;
            let count = run_from(scanner::scan_start(options), lines).0.match_count;
            &&& count == match_total(lines)
            &&& forall|number: u64, bytes: Seq<u8>|
                #[trigger] events.contains(EventModel::Matched(number, bytes)) <==> is_line(
                    lines,
                    number,
                    bytes,
                ) && lines[number - 1].matched
            &&& forall|number: u64, bytes: Seq<u8>|
                #[trigger] events.contains(EventModel::Context(number, bytes)) <==> is_line(
                    lines,
                    number,
                    bytes,
                ) && !lines[number - 1].matched && is_near(
                    lines,
                    number as int,
                    options.before_context as int,
                    options.after_context as int,
                )
        }),
{
    lemma_found(options, lines);
    lemma_reached(options, lines);
}

/// Whether lines are shown one behind the other, with a mark just where lines between two of them are
/// left out, and none where no lines around matches are asked for.
pub open spec fn is_in_order(options: ScannerOptions, events: Seq<EventModel>) -> bool {
    let around = options.before_context > 0 || options.after_context > 0;
    &&& forall|i: int, j: int|
        0 <= i < j < events.len() && !((#[trigger] events[i]) is Break) && !((
        #[trigger] events[j]) is Break) ==> scanner::event_line(events[i]) < scanner::event_line(
            events[j],
        )
    &&& forall|i: int|
        0 <= i < events.len() && (#[trigger] events[i]) is Break ==> {
            &&& around
            &&& 0 < i < events.len() - 1
            &&& !(events[i - 1] is Break)
            &&& !(events[i + 1] is Break)
            &&& scanner::event_line(events[i - 1]) + 1 < scanner::event_line(events[i + 1])
        }
    &&& forall|i: int|
        0 < i < events.len() && around && !((#[trigger] events[i]) is Break) && !(events[i
            - 1] is Break) ==> scanner::event_line(events[i]) == scanner::event_line(events[i - 1])
            + 1
}

/// Lines that follow one another, behind a mark where `gap`, go on in order from what was shown before.
proof fn lemma_append(
    options: ScannerOptions,
    sofar: Seq<EventModel>,
    more: Seq<EventModel>,
    gap: int,
    first: int,
)
    requires
        is_in_order(options, sofar),
        sofar.len() > 0 ==> !(sofar.last() is Break) && scanner::event_line(sofar.last()) < first,
        0 <= gap <= 1,
        gap < more.len(),
        gap == 1 ==> more[0] is Break && sofar.len() > 0 && scanner::event_line(sofar.last()) + 1
            < first && (options.before_context > 0 || options.after_context > 0),
        gap == 0 && sofar.len() > 0 && (options.before_context > 0 || options.after_context > 0)
            ==> first == scanner::event_line(sofar.last()) + 1,
        forall|i: int|
            gap <= i < more.len() ==> !((#[trigger] more[i]) is Break) && scanner::event_line(
                more[i],
            ) == first + (i - gap),
    ensures
        is_in_order(options, sofar + more),
{
    let events = sofar + more;
    let old = sofar.len() as int;
    assert forall|i: int| 0 <= i < old && !((#[trigger] sofar[i]) is Break) implies
        scanner::event_line(sofar[i]) < first by {
        if i < old - 1 {
            assert(scanner::event_line(sofar[i]) < scanner::event_line(sofar[old - 1]));
        }
    }
    assert forall|i: int, j: int|
        0 <= i < j < events.len() && !((#[trigger] events[i]) is Break) && !((
        #[trigger] events[j]) is Break) implies scanner::event_line(events[i])
        < scanner::event_line(events[j]) by {
        if i < old {
            assert(events[i] == sofar[i]);
        } else {
            assert(events[i] == more[i - old]);
        }
        if j < old {
            assert(events[j] == sofar[j]);
        } else {
            assert(events[j] == more[j - old]);
        }
    }
    assert forall|i: int| 0 <= i < events.len() && (#[trigger] events[i]) is Break implies {
        &&& options.before_context > 0 || options.after_context > 0
        &&& 0 < i < events.len() - 1
        &&& !(events[i - 1] is Break)
        &&& !(events[i + 1] is Break)
        &&& scanner::event_line(events[i - 1]) + 1 < scanner::event_line(events[i + 1])
    } by {
        if i < old {
            assert(events[i] == sofar[i]);
            assert(events[i - 1] == sofar[i - 1]);
            assert(events[i + 1] == sofar[i + 1]);
        } else {
            assert(events[i] == more[i - old]);
            assert(i == old && gap == 1);
            assert(events[i - 1] == sofar.last());
            assert(events[i + 1] == more[1]);
        }
    }
    assert forall|i: int|
        0 < i < events.len() && (options.before_context > 0 || options.after_context > 0) && !((
        #[trigger] events[i]) is Break) && !(events[i - 1] is Break) implies scanner::event_line(
        events[i],
    ) == scanner::event_line(events[i - 1]) + 1 by {
        if i < old {
            assert(events[i] == sofar[i]);
            assert(events[i - 1] == sofar[i - 1]);
        } else {
            assert(events[i] == more[i - old]);
            if i == old {
                assert(events[i - 1] == sofar.last());
            } else {
                assert(events[i - 1] == more[i - 1 - old]);
            }
        }
    }
}

proof fn lemma_order(options: ScannerOptions, lines: Seq<LookedAt>)
    requires
        options.mode is Standard,
        options.max_matches is None,
        lines.len() < u64::MAX,
    ensures
        ({
            let (state, events) = run_from(scanner::scan_start(options), lines);
            &&& is_in_order(options, events)
            &&& events.len() == 0 <==> state.last_shown == 0
            &&& events.len() > 0 ==> !(events.last() is Break) && scanner::event_line(events.last())
                == state.last_shown
        }),
    decreases lines.len(),
{
    let start = scanner::scan_start(options);
    if lines.len() > 0 {
        let shorter = lines.drop_last();
        lemma_order(options, shorter);
        lemma_reached(options, shorter);
        lemma_last_match(shorter);
        lemma_run_back(start, lines);
        let (middle, sofar) = run_from(start, shorter);
        let (state, events) = run_from(start, lines);
        let bytes = lines.last().bytes;
        let more = scanner::stepped(middle, bytes, lines.last().matched).1;
        let number = lines.len() as int;
        assert(events == sofar + more);
        if lines.last().matched {
            let pending = scanner::pending_events(middle.pending, number - 1);
            let gap = more.len() - 1 - pending.len();
            assert(more.len() > 0);
            assert forall|i: int| gap <= i < more.len() implies !((#[trigger] more[i]) is Break)
                && scanner::event_line(more[i]) == number - pending.len() + (i - gap) by {
                if i < more.len() - 1 {
                    assert(more[i] == pending[i - gap]);
                } else {
                    assert(more[i] == EventModel::Matched(number as u64, bytes));
                }
            }
            lemma_append(options, sofar, more, gap, number - pending.len());
            assert(events.last() == more.last());
        } else if middle.after_left > 0 {
            assert(more[0] == EventModel::Context(number as u64, bytes));
            lemma_append(options, sofar, more, 0, number);
            assert(events.last() == more.last());
        } else {
            assert(events =~= sofar);
        }
    }
}

/// Lines are shown in their order, each once. Where lines around matches are asked for, a mark stands
/// between two lines just where others between them are left out.
pub proof fn shown_lines_are_in_order(options: ScannerOptions, lines: Seq<LookedAt>)
    requires
        options.mode is Standard,
        options.max_matches is None,
        lines.len() < u64::MAX,
    ensures
        is_in_order(options, run_from(scanner::scan_start(options), lines).1),
{
    lemma_order(options, lines);
}

/// Lines of which only the first `limit` matches count.
pub open spec fn with_first_matches(lines: Seq<LookedAt>, limit: int) -> Seq<LookedAt>
    decreases lines.len(),
{
    if lines.len() == 0 {
        Seq::empty()
    } else {
        let before = with_first_matches(lines.drop_last(), limit);
        before.push(
            LookedAt {
                bytes: lines.last().bytes,
                matched: lines.last().matched && match_total(before) < limit,
            },
        )
    }
}

proof fn lemma_first_matches(lines: Seq<LookedAt>, limit: int)
    requires
        0 <= limit,
    ensures
        with_first_matches(lines, limit).len() == lines.len(),
        match_total(with_first_matches(lines, limit)) == if match_total(lines) < limit {
            match_total(lines) as int
        } else {
            limit
        },
    decreases lines.len(),
{
    if lines.len() > 0 {
        lemma_first_matches(lines.drop_last(), limit);
        let counted = with_first_matches(lines, limit);
        assert(counted.drop_last() =~= with_first_matches(lines.drop_last(), limit));
    }
}

proof fn lemma_limited(options: ScannerOptions, lines: Seq<LookedAt>, limit: u64)
    requires
        options.mode is Standard,
        options.max_matches == Some(limit),
        lines.len() < u64::MAX,
    ensures
        ({
            let free = ScannerOptions { max_matches: None, ..options };
            let counted = with_first_matches(lines, limit as int);
            let (state, events) = run_from(scanner::scan_start(options), lines);
            let (other, same) = run_from(scanner::scan_start(free), counted);
            &&& events == same
            &&& state.match_count == other.match_count
            &&& state.options == options
            &&& !state.done ==> state == (ScanState { options, ..other })
            &&& state.done ==> match_total(counted) >= limit && other.after_left == 0
        }),
    decreases lines.len(),
{
    let free = ScannerOptions { max_matches: None, ..options };
    let start = scanner::scan_start(options);
    let free_start = scanner::scan_start(free);
    let counted = with_first_matches(lines, limit as int);
    if lines.len() > 0 {
        let shorter = lines.drop_last();
        lemma_limited(options, shorter, limit);
        lemma_first_matches(shorter, limit as int);
        lemma_first_matches(lines, limit as int);
        lemma_run_back(start, lines);
        lemma_run_back(free_start, counted);
        assert(counted.drop_last() =~= with_first_matches(shorter, limit as int));
        lemma_reached(free, counted.drop_last());
        lemma_reached(free, counted);
        let (middle, sofar) = run_from(start, shorter);
        let (other, same) = run_from(free_start, counted.drop_last());
        assert(sofar + Seq::<EventModel>::empty() =~= sofar);
    }
}

/// A limit on the lines that match makes a search for lines show what it shows where only the first of
/// them match, up to the limit.
pub proof fn limit_counts_the_first_matches(
    options: ScannerOptions,
    lines: Seq<LookedAt>,
    limit: u64,
)
    requires
        options.mode is Standard,
        options.max_matches == Some(limit),
        lines.len() < u64::MAX,
    ensures
        ({
            let free = ScannerOptions { max_matches: None, ..options };
            let counted = with_first_matches(lines, limit as int);
            let (state, events) = run_from(scanner::scan_start(options), lines);
            &&& events == run_from(scanner::scan_start(free), counted).1
            &&& state.match_count == if match_total(lines) < limit {
                match_total(lines) as int
            } else {
                limit as int
            }
        }),
{
    let free = ScannerOptions { max_matches: None, ..options };
    lemma_limited(options, lines, limit);
    lemma_first_matches(lines, limit as int);
    lemma_reached(free, with_first_matches(lines, limit as int));
}

proof fn lemma_counted(options: ScannerOptions, lines: Seq<LookedAt>)
    requires
        options.mode is Count,
        lines.len() < u64::MAX,
    ensures
        ({
            let state = run_from(scanner::scan_start(options), lines).0;
            &&& state.options == options
            &&& state.match_count == match options.max_matches {
                Some(limit) => if match_total(lines) < limit {
                    match_total(lines) as int
                } else {
                    limit as int
                },
                None => match_total(lines) as int,
            }
            &&& state.done ==> options.max_matches == Some(state.match_count)
            &&& !state.done ==> state.lines == lines.len()
        }),
    decreases lines.len(),
{
    if lines.len() > 0 {
        lemma_counted(options, lines.drop_last());
        lemma_match_total(lines.drop_last());
        lemma_run_back(scanner::scan_start(options), lines);
    }
}

/// A search that counts counts the lines that match, up to its limit.
pub proof fn count_is_the_number_of_matches(options: ScannerOptions, lines: Seq<LookedAt>)
    requires
        options.mode is Count,
        lines.len() < u64::MAX,
    ensures
        run_from(scanner::scan_start(options), lines).0.match_count == match options.max_matches {
            Some(limit) => if match_total(lines) < limit {
                match_total(lines) as int
            } else {
                limit as int
            },
            None => match_total(lines) as int,
        },
{
    lemma_counted(options, lines);
}

proof fn lemma_listed(options: ScannerOptions, lines: Seq<LookedAt>)
    requires
        options.mode is FilesWithMatches,
        lines.len() < u64::MAX,
    ensures
        ({
            let state = run_from(scanner::scan_start(options), lines).0;
            let found = match_total(lines) > 0 && options.max_matches != Some(0u64);
            &&& state.options == options
            &&& state.match_count == if found {
                1int
            } else {
                0
            }
            &&& state.done == (found || options.max_matches == Some(0u64))
            &&& !state.done ==> state.lines == lines.len()
        }),
    decreases lines.len(),
{
    if lines.len() > 0 {
        lemma_listed(options, lines.drop_last());
        lemma_run_back(scanner::scan_start(options), lines);
    }
}

/// A search for the files that match finds a file just where one of its lines matches, unless no match
/// at all is wanted.
pub proof fn file_is_found_by_one_match(options: ScannerOptions, lines: Seq<LookedAt>)
    requires
        options.mode is FilesWithMatches,
        lines.len() < u64::MAX,
    ensures
        (run_from(scanner::scan_start(options), lines).0.match_count > 0) == (
        options.max_matches != Some(0u64) && exists|i: int|
            0 <= i < lines.len() && (#[trigger] lines[i]).matched),
{
    lemma_listed(options, lines);
    lemma_some_match(lines);
}

proof fn lemma_some_match(lines: Seq<LookedAt>)
    ensures
        match_total(lines) > 0 <==> exists|i: int|
            0 <= i < lines.len() && (#[trigger] lines[i]).matched,
    decreases lines.len(),
{
    if lines.len() > 0 {
        let shorter = lines.drop_last();
        lemma_some_match(shorter);
        if match_total(shorter) > 0 {
            let i = choose|i: int| 0 <= i < shorter.len() && (#[trigger] shorter[i]).matched;
            assert(lines[i].matched);
        }
        if lines.last().matched {
            assert(lines[lines.len() - 1].matched);
        }
        if exists|i: int| 0 <= i < lines.len() && (#[trigger] lines[i]).matched {
            let i = choose|i: int| 0 <= i < lines.len() && (#[trigger] lines[i]).matched;
            if i < shorter.len() {
                assert(shorter[i].matched);
            }
        }
    }
}

/// Searches that count, or that look for files, show no lines around matches.
pub proof fn only_a_search_for_lines_shows_lines_around(
    options: ScannerOptions,
    lines: Seq<LookedAt>,
    event: EventModel,
)
    requires
        !(options.mode is Standard),
        run_from(scanner::scan_start(options), lines).1.contains(event),
    ensures
        event is Matched,
    decreases lines.len(),
{
    let start = scanner::scan_start(options);
    lemma_mode(options, lines);
    if lines.len() > 0 {
        let shorter = lines.drop_last();
        lemma_mode(options, shorter);
        lemma_run_back(start, lines);
        let (middle, sofar) = run_from(start, shorter);
        let more = scanner::stepped(middle, lines.last().bytes, lines.last().matched).1;
        lemma_contains(sofar, more, event);
        if sofar.contains(event) {
            only_a_search_for_lines_shows_lines_around(options, shorter, event);
        }
    }
}

proof fn lemma_mode(options: ScannerOptions, lines: Seq<LookedAt>)
    ensures
        run_from(scanner::scan_start(options), lines).0.options == options,
    decreases lines.len(),
{
    if lines.len() > 0 {
        lemma_mode(options, lines.drop_last());
        lemma_run_back(scanner::scan_start(options), lines);
    }
}

/// How many line feeds a text holds before a place.
pub open spec fn feeds_before(text: Seq<u8>, place: int) -> nat
    decreases place,
{
    if place <= 0 {
        0
    } else {
        feeds_before(text, place - 1) + if text[place - 1] == '\n' as int {
            1nat
        } else {
            0
        }
    }
}

/// Whether a line starts at a place.
pub open spec fn starts_line(text: Seq<u8>, place: int) -> bool {
    0 <= place < text.len() && (place == 0 || text[place - 1] == '\n' as int)
}

/// Whether `end` is where the line ends that starts at a place: at the first line feed, or at the end of
/// the text.
pub open spec fn ends_line(text: Seq<u8>, place: int, end: int) -> bool {
    &&& place <= end <= text.len()
    &&& forall|i: int| place <= i < end ==> #[trigger] text[i] != '\n' as int
    &&& end < text.len() ==> text[end] == '\n' as int
}

/// The lines of a text from a place on, with the first match at or behind it.
spec fn lines_from(model: MatcherModel, text: Seq<u8>, at: int, next: Option<int>) -> Seq<LookedAt>
    decreases text.len() + 1 - at,
{
    if at < 0 || at >= text.len() {
        Seq::empty()
    } else {
        proof {
            scanner::line_end_is_in_text(text, at);
        }
        let end = scanner::line_end(text, at);
        let matched = next matches Some(start) && start <= end;
        let following = if matched {
            scanner::match_start(model, text, end + 1)
        } else {
            next
        };
        seq![LookedAt { bytes: scanner::shown_line(text, at), matched }] + lines_from(
            model,
            text,
            end + 1,
            following,
        )
    }
}

/// The lines of a text, each with whether it matches.
pub closed spec fn lines_of(model: MatcherModel, text: Seq<u8>) -> Seq<LookedAt> {
    lines_from(model, text, 0, scanner::match_start(model, text, 0))
}

proof fn lemma_scanned(
    model: MatcherModel,
    text: Seq<u8>,
    at: int,
    next: Option<int>,
    state: ScanState,
)
    requires
        0 <= at,
    ensures
        scanner::scanned(model, text, at, next, state) == run_from(
            state,
            lines_from(model, text, at, next),
        ),
    decreases text.len() + 1 - at,
{
    if at < text.len() {
        let lines = lines_from(model, text, at, next);
        scanner::line_end_is_in_text(text, at);
        if state.done {
            lemma_done(state, lines);
        } else {
            let end = scanner::line_end(text, at);
            let matched = next matches Some(start) && start <= end;
            let following = if matched {
                scanner::match_start(model, text, end + 1)
            } else {
                next
            };
            let after = scanner::stepped(state, scanner::shown_line(text, at), matched).0;
            lemma_scanned(model, text, end + 1, following, after);
            assert(lines.drop_first() =~= lines_from(model, text, end + 1, following));
        }
    }
}

proof fn lemma_done(state: ScanState, lines: Seq<LookedAt>)
    requires
        state.done,
    ensures
        run_from(state, lines) == (state, Seq::<EventModel>::empty()),
    decreases lines.len(),
{
    if lines.len() > 0 {
        lemma_done(state, lines.drop_first());
        assert(Seq::<EventModel>::empty() + Seq::<EventModel>::empty()
            =~= Seq::<EventModel>::empty());
    }
}

/// The search of a file looks at the lines of the part of it that is searched, one behind the other.
pub proof fn file_is_searched_line_by_line(
    model: MatcherModel,
    options: ScannerOptions,
    bytes: Seq<u8>,
)
    ensures
        scanner::whole_scan(model, options, bytes) == run_from(
            scanner::scan_start(options),
            lines_of(model, scanner::searched(bytes, options.binary_detection)),
        ),
{
    let part = scanner::searched(bytes, options.binary_detection);
    lemma_scanned(
        model,
        part,
        0,
        scanner::match_start(model, part, 0),
        scanner::scan_start(options),
    );
}

proof fn lemma_line_end(text: Seq<u8>, at: int)
    requires
        0 <= at <= text.len(),
    ensures
        ends_line(text, at, scanner::line_end(text, at)),
    decreases text.len() - at,
{
    if at < text.len() && text[at] != '\n' as int {
        lemma_line_end(text, at + 1);
    }
}

proof fn lemma_feeds(text: Seq<u8>, from: int, to: int)
    requires
        0 <= from <= to <= text.len(),
        forall|i: int| from <= i < to ==> #[trigger] text[i] != '\n' as int,
    ensures
        feeds_before(text, to) == feeds_before(text, from),
    decreases to - from,
{
    if from < to {
        lemma_feeds(text, from, to - 1);
    }
}

proof fn lemma_feeds_grow(text: Seq<u8>, from: int, to: int)
    requires
        0 <= from <= to,
    ensures
        feeds_before(text, from) <= feeds_before(text, to),
    decreases to - from,
{
    if from < to {
        lemma_feeds_grow(text, from, to - 1);
    }
}

proof fn lemma_line(
    model: MatcherModel,
    text: Seq<u8>,
    at: int,
    next: Option<int>,
    place: int,
    end: int,
)
    requires
        starts_line(text, at),
        starts_line(text, place),
        at <= place,
        ends_line(text, place, end),
    ensures
        ({
            let lines = lines_from(model, text, at, next);
            let index = feeds_before(text, place) - feeds_before(text, at);
            &&& 0 <= index < lines.len()
            &&& lines[index].bytes == if end < text.len() && end > place && text[end - 1]
                == '\r' as int {
                text.subrange(place, end - 1)
            } else {
                text.subrange(place, end)
            }
        }),
    decreases text.len() - at,
{
    let lines = lines_from(model, text, at, next);
    scanner::line_end_is_in_text(text, at);
    lemma_line_end(text, at);
    let stop = scanner::line_end(text, at);
    if place == at {
        assert(stop == end) by {
            if stop < end {
                assert(text[stop] != '\n' as int);
            }
            if end < stop {
                assert(text[end] != '\n' as int);
            }
        }
        let raw = text.subrange(place, end);
        assert(end > place ==> raw.last() == text[end - 1]);
        if end < text.len() && end > place && text[end - 1] == '\r' as int {
            assert(crate::text::without_carriage_return(raw) =~= text.subrange(place, end - 1));
        }
    } else {
        assert(stop < place) by {
            if stop >= place {
                assert(text[place - 1] != '\n' as int);
            }
        }
        let matched = next matches Some(start) && start <= stop;
        let following = if matched {
            scanner::match_start(model, text, stop + 1)
        } else {
            next
        };
        lemma_line(model, text, stop + 1, following, place, end);
        lemma_feeds(text, at, stop);
        assert(feeds_before(text, stop + 1) == feeds_before(text, at) + 1);
        let rest = lines_from(model, text, stop + 1, following);
        let index = feeds_before(text, place) - feeds_before(text, at);
        assert(lines[index] == rest[index - 1]);
    }
}

/// A line is numbered by the line feeds before it, and holds what is written up to the next line feed or
/// to the end of the text, without a carriage return before that line feed.
pub proof fn lines_are_numbered_by_their_feeds(
    model: MatcherModel,
    text: Seq<u8>,
    place: int,
    end: int,
)
    requires
        starts_line(text, place),
        ends_line(text, place, end),
    ensures
        ({
            let lines = lines_of(model, text);
            let index = feeds_before(text, place) as int;
            &&& index < lines.len()
            &&& lines[index].bytes == if end < text.len() && end > place && text[end - 1]
                == '\r' as int {
                text.subrange(place, end - 1)
            } else {
                text.subrange(place, end)
            }
        }),
{
    lemma_line(model, text, 0, scanner::match_start(model, text, 0), place, end);
}

proof fn lemma_line_count(model: MatcherModel, text: Seq<u8>, at: int, next: Option<int>)
    requires
        0 <= at <= text.len(),
    ensures
        lines_from(model, text, at, next).len() == feeds_before(text, text.len() as int)
            - feeds_before(text, at) + if at < text.len() && text.last() != '\n' as int {
            1int
        } else {
            0
        },
    decreases text.len() - at,
{
    if at < text.len() {
        scanner::line_end_is_in_text(text, at);
        lemma_line_end(text, at);
        let stop = scanner::line_end(text, at);
        let matched = next matches Some(start) && start <= stop;
        let following = if matched {
            scanner::match_start(model, text, stop + 1)
        } else {
            next
        };
        lemma_feeds(text, at, stop);
        if stop < text.len() {
            lemma_line_count(model, text, stop + 1, following);
        } else {
            assert(text[text.len() - 1] != '\n' as int);
            assert(lines_from(model, text, stop + 1, following).len() == 0);
        }
    }
}

/// Whether a search is one for literals that needs no other engine in a text.
pub open spec fn goes_by_literals(model: MatcherModel, text: Seq<u8>) -> bool {
    match model {
        MatcherModel::Literal { literals, folds, word, text: as_text, fallback } => !folds
            || forall|i: int| 0 <= i < text.len() ==> text[i] < 0x80,
        MatcherModel::Regex { .. } => false,
    }
}

proof fn lemma_ascii(text: Seq<u8>, at: int)
    requires
        0 <= at <= text.len(),
        forall|i: int| 0 <= i < text.len() ==> text[i] < 0x80,
    ensures
        native_matcher::ascii_end(text, at) == text.len(),
    decreases text.len() - at,
{
    if at < text.len() {
        lemma_ascii(text, at + 1);
    }
}

proof fn lemma_taken_later(
    text: Seq<u8>,
    at: int,
    to: int,
    literals: Seq<Seq<u8>>,
    folds: bool,
    word: Option<RegexModel>,
)
    requires
        at <= to,
        native_matcher::first_taken(text, at, text.len() as int, literals, folds, word) matches Some(
            (start, _),
        ) ==> to <= start,
    ensures
        native_matcher::first_taken(text, at, text.len() as int, literals, folds, word)
            == native_matcher::first_taken(text, to, text.len() as int, literals, folds, word),
    decreases to - at,
{
    if at < to && at < text.len() {
        lemma_taken_later(text, at + 1, to, literals, folds, word);
    }
}

/// The first match behind a place is the first one from an earlier place on, where none starts between.
proof fn lemma_match_later(model: MatcherModel, text: Seq<u8>, at: int, to: int)
    requires
        goes_by_literals(model, text),
        0 <= at <= to <= text.len(),
        scanner::match_start(model, text, at) matches Some(start) ==> to <= start,
    ensures
        scanner::match_start(model, text, at) == scanner::match_start(model, text, to),
{
    if let MatcherModel::Literal { literals, folds, word, text: as_text, fallback } = model {
        if folds {
            lemma_ascii(text, at);
            lemma_ascii(text, to);
        }
        lemma_taken_later(text, at, to, literals, folds, word);
    }
}

proof fn lemma_flag(model: MatcherModel, text: Seq<u8>, at: int, place: int, end: int)
    requires
        goes_by_literals(model, text),
        starts_line(text, at),
        starts_line(text, place),
        at <= place,
        ends_line(text, place, end),
    ensures
        ({
            let lines = lines_from(model, text, at, scanner::match_start(model, text, at));
            let index = feeds_before(text, place) - feeds_before(text, at);
            &&& 0 <= index < lines.len()
            &&& lines[index].matched == (scanner::match_start(model, text, place) matches Some(
                start,
            ) && start <= end)
        }),
    decreases text.len() - at,
{
    let next = scanner::match_start(model, text, at);
    let lines = lines_from(model, text, at, next);
    scanner::line_end_is_in_text(text, at);
    lemma_line_end(text, at);
    let stop = scanner::line_end(text, at);
    if place == at {
        assert(stop == end) by {
            if stop < end {
                assert(text[stop] != '\n' as int);
            }
            if end < stop {
                assert(text[end] != '\n' as int);
            }
        }
    } else {
        assert(stop < place) by {
            if stop >= place {
                assert(text[place - 1] != '\n' as int);
            }
        }
        let matched = next matches Some(start) && start <= stop;
        let following = if matched {
            scanner::match_start(model, text, stop + 1)
        } else {
            next
        };
        if !matched {
            lemma_match_later(model, text, at, stop + 1);
        }
        lemma_flag(model, text, stop + 1, place, end);
        lemma_feeds(text, at, stop);
        assert(feeds_before(text, stop + 1) == feeds_before(text, at) + 1);
        let rest = lines_from(model, text, stop + 1, following);
        let index = feeds_before(text, place) - feeds_before(text, at);
        assert(lines[index] == rest[index - 1]);
    }
}

/// In a search for literals a line matches where the first match at or behind its start starts in it.
pub proof fn line_matches_where_a_match_starts(
    model: MatcherModel,
    text: Seq<u8>,
    place: int,
    end: int,
)
    requires
        goes_by_literals(model, text),
        starts_line(text, place),
        ends_line(text, place, end),
    ensures
        ({
            let index = feeds_before(text, place) as int;
            &&& index < lines_of(model, text).len()
            &&& lines_of(model, text)[index].matched == (model.span(text, place) matches Some(
                (start, _),
            ) && start <= end)
        }),
{
    lemma_flag(model, text, 0, place, end);
}

/// A text has one line for each line feed, and one more where something follows the last of them.
pub proof fn text_has_a_line_for_each_feed(model: MatcherModel, text: Seq<u8>)
    ensures
        lines_of(model, text).len() == feeds_before(text, text.len() as int) + if text.len() > 0
            && text.last() != '\n' as int {
            1nat
        } else {
            0
        },
{
    lemma_line_count(model, text, 0, scanner::match_start(model, text, 0));
}

/// The part of a file that is searched is all of it where files are taken as text and where there is no
/// NUL byte. Otherwise it is the lines before the one with the first NUL byte.
pub proof fn binary_rest_is_left_out(bytes: Seq<u8>, detection: BinaryDetection)
    ensures
        ({
            let part = scanner::searched(bytes, detection);
            let length = part.len() as int;
            &&& detection is Text || !bytes.contains(0u8) ==> part == bytes
            &&& detection is Quit && bytes.contains(0u8) ==> {
                &&& length < bytes.len()
                &&& part == bytes.subrange(0, length)
                &&& !part.contains(0u8)
                &&& length > 0 ==> bytes[length - 1] == '\n' as int
                &&& exists|nul: int|
                    {
                        &&& length <= nul < bytes.len()
                        &&& #[trigger] bytes[nul] == 0
                        &&& forall|i: int| length <= i < nul ==> #[trigger] bytes[i] != '\n' as int
                    }
            }
        }),
{
    let nul = scanner::nul_place(bytes, 0);
    lemma_nul(bytes, 0);
    if bytes.contains(0u8) {
        let i = choose|i: int| 0 <= i < bytes.len() && bytes[i] == 0;
        assert(nul <= i);
        lemma_line_start(bytes, nul);
        let part = scanner::searched(bytes, detection);
        if detection is Quit && part.contains(0u8) {
            let k = choose|k: int| 0 <= k < part.len() && part[k] == 0;
            assert(bytes[k] == 0);
        }
        assert(bytes[nul] == 0);
    } else {
        if nul < bytes.len() {
            assert(bytes.contains(bytes[nul]));
        }
    }
}

proof fn lemma_nul(text: Seq<u8>, at: int)
    requires
        0 <= at <= text.len(),
    ensures
        at <= scanner::nul_place(text, at) <= text.len(),
        forall|i: int| at <= i < scanner::nul_place(text, at) ==> #[trigger] text[i] != 0,
        scanner::nul_place(text, at) < text.len() ==> text[scanner::nul_place(text, at)] == 0,
    decreases text.len() - at,
{
    if at < text.len() && text[at] != 0 {
        lemma_nul(text, at + 1);
    }
}

proof fn lemma_line_start(text: Seq<u8>, at: int)
    requires
        0 <= at <= text.len(),
    ensures
        ({
            let start = scanner::line_start(text, at);
            &&& 0 <= start <= at
            &&& start > 0 ==> text[start - 1] == '\n' as int
            &&& forall|i: int| start <= i < at ==> #[trigger] text[i] != '\n' as int
        }),
    decreases at,
{
    if 0 < at && text[at - 1] != '\n' as int {
        lemma_line_start(text, at - 1);
    }
}

} // verus!
