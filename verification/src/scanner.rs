//! The search of one file: which of its lines match, and which are shown around them.

use vstd::prelude::*;
use crate::ascii::LINE_FEED;
use crate::engine::find_byte;
use crate::native_matcher::{MatcherModel, NativeMatcher};
use crate::search_args::{OptionsModel, SearchOptions};
use crate::text;
use crate::text::{copy_bytes, strip_carriage_return};

verus! {

/// What a search is after.
#[derive(Clone, Copy, Debug, PartialEq, Eq, Structural)]
pub enum ScanMode {
    /// The lines that match.
    Standard,
    /// Whether there is a line that matches.
    FilesWithMatches,
    /// How many lines match.
    Count,
}

/// What a NUL byte means.
#[derive(Clone, Copy, Debug, PartialEq, Eq, Structural)]
pub enum BinaryDetection {
    /// Nothing.
    Text,
    /// That the rest of the file is not text, and is not searched.
    Quit,
}

/// How a file is searched.
#[derive(Clone, Copy, Debug, PartialEq, Eq, Structural)]
pub struct ScannerOptions {
    pub before_context: usize,
    pub after_context: usize,
    pub max_matches: Option<u64>,
    pub binary_detection: BinaryDetection,
    pub mode: ScanMode,
}

impl Default for ScannerOptions {
    fn default() -> (result: Self)
        ensures
            result == (ScannerOptions {
                before_context: 0,
                after_context: 0,
                max_matches: None,
                binary_detection: BinaryDetection::Quit,
                mode: ScanMode::Standard,
            }),
    {
        ScannerOptions {
            before_context: 0,
            after_context: 0,
            max_matches: None,
            binary_detection: BinaryDetection::Quit,
            mode: ScanMode::Standard,
        }
    }
}

/// How a file is searched for a command.
pub open spec fn scanner_options(options: OptionsModel) -> ScannerOptions {
    ScannerOptions {
        before_context: options.before_context,
        after_context: options.after_context,
        max_matches: options.max_count,
        binary_detection: if options.text {
            BinaryDetection::Text
        } else {
            BinaryDetection::Quit
        },
        mode: if options.count {
            ScanMode::Count
        } else if options.files_with_matches {
            ScanMode::FilesWithMatches
        } else {
            ScanMode::Standard
        },
    }
}

/// How a file is searched for a command.
pub fn build_scanner(options: &SearchOptions) -> (result: ScannerOptions)
    ensures
        result == scanner_options(options@),
{
    ScannerOptions {
        before_context: options.before_context,
        after_context: options.after_context,
        max_matches: options.max_count,
        binary_detection: if options.text {
            BinaryDetection::Text
        } else {
            BinaryDetection::Quit
        },
        mode: if options.count {
            ScanMode::Count
        } else if options.files_with_matches {
            ScanMode::FilesWithMatches
        } else {
            ScanMode::Standard
        },
    }
}

/// What is found in a file, in order.
#[derive(Debug)]
pub enum ScanEvent {
    /// A line that matches, with its number.
    Matched(u64, Vec<u8>),
    /// A line near one that matches, with its number.
    Context(u64, Vec<u8>),
    /// Lines that are not shown.
    Break,
}

/// What is found in a file.
pub enum EventModel {
    Matched(u64, Seq<u8>),
    Context(u64, Seq<u8>),
    Break,
}

impl View for ScanEvent {
    type V = EventModel;

    open spec fn view(&self) -> EventModel {
        match self {
            ScanEvent::Matched(number, bytes) => EventModel::Matched(*number, bytes@),
            ScanEvent::Context(number, bytes) => EventModel::Context(*number, bytes@),
            ScanEvent::Break => EventModel::Break,
        }
    }
}

/// What is found in a file, in order.
pub open spec fn event_models(events: Seq<ScanEvent>) -> Seq<EventModel> {
    Seq::new(events.len(), |i: int| events[i]@)
}

/// How far the search of a file has come.
#[derive(Debug)]
pub struct LineScan {
    pub options: ScannerOptions,
    /// How many lines were looked at.
    pub lines: u64,
    pub match_count: u64,
    /// The lines before the next that could come before a match.
    pub pending: Vec<Vec<u8>>,
    /// How many lines behind the last match are still to be shown.
    pub after_left: usize,
    /// The number of the last line that was shown, or 0.
    pub last_shown: u64,
    /// Whether no more lines are looked at.
    pub done: bool,
}

/// How far the search of a file has come.
pub struct ScanState {
    pub options: ScannerOptions,
    pub lines: u64,
    pub match_count: u64,
    pub pending: Seq<Seq<u8>>,
    pub after_left: int,
    pub last_shown: u64,
    pub done: bool,
}

impl View for LineScan {
    type V = ScanState;

    open spec fn view(&self) -> ScanState {
        ScanState {
            options: self.options,
            lines: self.lines,
            match_count: self.match_count,
            pending: text::byte_strings(self.pending@),
            after_left: self.after_left as int,
            last_shown: self.last_shown,
            done: self.done,
        }
    }
}

/// The start of a search.
pub open spec fn scan_start(options: ScannerOptions) -> ScanState {
    ScanState {
        options,
        lines: 0,
        match_count: 0,
        pending: Seq::empty(),
        after_left: 0,
        last_shown: 0,
        done: options.max_matches == Some(0u64),
    }
}

/// Whether as many lines matched as are wanted.
pub open spec fn limit_reached(state: ScanState) -> bool {
    state.options.max_matches matches Some(limit) && state.match_count >= limit
}

/// The events for the lines before a match, which end with line `last`.
pub open spec fn pending_events(pending: Seq<Seq<u8>>, last: int) -> Seq<EventModel> {
    Seq::new(
        pending.len(),
        |i: int| EventModel::Context((last - pending.len() + 1 + i) as u64, pending[i]),
    )
}

/// The events for a match with the lines before it: lines that are not shown between these and what
/// was shown before are marked, where lines are shown around matches at all.
pub open spec fn match_events(state: ScanState, bytes: Seq<u8>) -> Seq<EventModel> {
    let number = state.lines + 1;
    let first = number - state.pending.len();
    let apart = (state.options.before_context > 0 || state.options.after_context > 0)
        && state.last_shown > 0 && first > state.last_shown + 1;
    (if apart {
        seq![EventModel::Break]
    } else {
        Seq::empty()
    }) + pending_events(state.pending, number - 1) + seq![
        EventModel::Matched(number as u64, bytes),
    ]
}

/// The lines that could come before a match, once a line is passed.
pub open spec fn pended(state: ScanState, bytes: Seq<u8>) -> Seq<Seq<u8>> {
    let all = state.pending.push(bytes);
    if all.len() > state.options.before_context {
        all.subrange(1, all.len() as int)
    } else {
        all
    }
}

/// How far the search has come once a line is looked at, and what was found. Once as many lines
/// matched as are wanted, the lines behind the last of them are still shown.
pub open spec fn stepped(state: ScanState, bytes: Seq<u8>, matched: bool) -> (
    ScanState,
    Seq<EventModel>,
) {
    let number = (state.lines + 1) as u64;
    if state.done {
        (state, Seq::empty())
    } else if matched && !limit_reached(state) {
        let next = ScanState {
            lines: number,
            match_count: (state.match_count + 1) as u64,
            pending: Seq::empty(),
            after_left: state.options.after_context as int,
            last_shown: number,
            ..state
        };
        if state.options.mode is Standard {
            (
                ScanState {
                    done: limit_reached(next) && state.options.after_context == 0,
                    ..next
                },
                match_events(state, bytes),
            )
        } else {
            (
                ScanState {
                    done: limit_reached(next) || state.options.mode is FilesWithMatches,
                    ..next
                },
                seq![EventModel::Matched(number, bytes)],
            )
        }
    } else if state.options.mode is Standard && state.after_left > 0 {
        let next = ScanState {
            lines: number,
            after_left: state.after_left - 1,
            last_shown: number,
            ..state
        };
        (
            ScanState { done: limit_reached(next) && next.after_left == 0, ..next },
            seq![EventModel::Context(number, bytes)],
        )
    } else if state.options.mode is Standard {
        (ScanState { lines: number, pending: pended(state, bytes), ..state }, Seq::empty())
    } else {
        (ScanState { lines: number, ..state }, Seq::empty())
    }
}

impl LineScan {
    pub open spec fn wf(self) -> bool {
        &&& self.pending@.len() <= self.options.before_context
        &&& self.pending@.len() <= self.lines
        &&& self.match_count <= self.lines
        &&& self.last_shown <= self.lines
        &&& self.last_shown + self.pending@.len() <= self.lines
        &&& self.after_left > 0 ==> self.pending@.len() == 0
    }

    /// The start of a search.
    pub fn new(options: ScannerOptions) -> (result: Self)
        ensures
            result.wf(),
            result@ == scan_start(options),
    {
        let result = LineScan {
            options,
            lines: 0,
            match_count: 0,
            pending: Vec::new(),
            after_left: 0,
            last_shown: 0,
            done: match options.max_matches {
                Some(limit) => limit == 0,
                None => false,
            },
        };
        assert(result@.pending =~= Seq::<Seq<u8>>::empty());
        result
    }

    /// Whether as many lines matched as are wanted.
    fn at_limit(&self) -> (result: bool)
        ensures
            result == limit_reached(self@),
    {
        match self.options.max_matches {
            Some(limit) => self.match_count >= limit,
            None => false,
        }
    }

    /// Looks at the next line.
    pub fn step(&mut self, bytes: &[u8], matched: bool) -> (result: Vec<ScanEvent>)
        requires
            old(self).wf(),
            old(self).lines < u64::MAX,
        ensures
            final(self).wf(),
            final(self).lines <= old(self).lines + 1,
            (final(self)@, event_models(result@)) == stepped(old(self)@, bytes@, matched),
    {
        let mut events: Vec<ScanEvent> = Vec::new();
        assert(event_models(events@) =~= Seq::<EventModel>::empty());
        if self.done {
            return events;
        }
        let ghost start = self@;
        let number: u64 = self.lines + 1;
        let standard: bool = matches!(self.options.mode, ScanMode::Standard);
        if matched && !self.at_limit() {
            if standard {
                let count: usize = self.pending.len();
                let around: bool = self.options.before_context > 0 || self.options.after_context > 0;
                if around && self.last_shown > 0 && number - (count as u64) > self.last_shown + 1 {
                    events.push(ScanEvent::Break);
                }
                let ghost first = event_models(events@);
                let ghost shown = pending_events(start.pending, number - 1);
                let mut index: usize = 0;
                assert(shown.subrange(0, 0) =~= Seq::<EventModel>::empty());
                assert(first + Seq::<EventModel>::empty() =~= first);
                while index < count
                    invariant
                        index <= count,
                        count == self.pending.len(),
                        *self == *old(self),
                        count <= self.lines,
                        number == self.lines + 1,
                        start == self@,
                        shown == pending_events(start.pending, number - 1),
                        event_models(events@) == first + shown.subrange(0, index as int),
                    decreases count - index,
                {
                    let ghost before = event_models(events@);
                    let line: Vec<u8> = copy_bytes(self.pending[index].as_slice());
                    let place: u64 = number - ((count - index) as u64);
                    let ghost model = EventModel::Context(place, line@);
                    events.push(ScanEvent::Context(place, line));
                    proof {
                        assert(line@ == start.pending[index as int]);
                        assert(model == shown[index as int]);
                        assert(event_models(events@) =~= before.push(model));
                        assert(shown.subrange(0, index + 1) =~= shown.subrange(
                            0,
                            index as int,
                        ).push(model));
                        assert(before.push(model) =~= first + shown.subrange(0, index + 1));
                    }
                    index += 1;
                }
                let ghost before = event_models(events@);
                let line: Vec<u8> = copy_bytes(bytes);
                events.push(ScanEvent::Matched(number, line));
                proof {
                    assert(shown.subrange(0, count as int) =~= shown);
                    assert(event_models(events@) =~= before.push(
                        EventModel::Matched(number, bytes@),
                    ));
                    assert(event_models(events@) =~= match_events(start, bytes@));
                }
            } else {
                let line: Vec<u8> = copy_bytes(bytes);
                events.push(ScanEvent::Matched(number, line));
                assert(event_models(events@) =~= seq![EventModel::Matched(number, bytes@)]);
            }
            self.lines = number;
            self.match_count = self.match_count + 1;
            self.pending = Vec::new();
            self.after_left = self.options.after_context;
            self.last_shown = number;
            assert(self@.pending =~= Seq::<Seq<u8>>::empty());
            let full: bool = self.at_limit();
            self.done = match self.options.mode {
                ScanMode::Standard => full && self.options.after_context == 0,
                ScanMode::FilesWithMatches => true,
                ScanMode::Count => full,
            };
            return events;
        }
        if standard && self.after_left > 0 {
            let line: Vec<u8> = copy_bytes(bytes);
            events.push(ScanEvent::Context(number, line));
            assert(event_models(events@) =~= seq![EventModel::Context(number, bytes@)]);
            self.lines = number;
            self.after_left = self.after_left - 1;
            self.last_shown = number;
            let full: bool = self.at_limit();
            self.done = full && self.after_left == 0;
            return events;
        }
        self.lines = number;
        if !standard {
            return events;
        }
        let ghost before = text::byte_strings(self.pending@);
        self.pending.push(copy_bytes(bytes));
        assert(text::byte_strings(self.pending@) =~= before.push(bytes@));
        if self.pending.len() > self.options.before_context {
            let ghost all = text::byte_strings(self.pending@);
            let _ = self.pending.remove(0);
            assert(text::byte_strings(self.pending@) =~= all.subrange(1, all.len() as int));
        }
        events
    }
}

/// Where the line ends that a place is in: at its line feed, or at the end of the text.
pub open spec fn line_end(text: Seq<u8>, at: int) -> int
    decreases text.len() - at,
{
    if 0 <= at < text.len() && text[at] != LINE_FEED {
        line_end(text, at + 1)
    } else {
        at
    }
}

/// Where the line starts that a place is in.
pub open spec fn line_start(text: Seq<u8>, at: int) -> int
    decreases at,
{
    if 0 < at <= text.len() && text[at - 1] != LINE_FEED {
        line_start(text, at - 1)
    } else {
        at
    }
}

/// Where the first NUL byte stands at or behind a place, or the end of the text.
pub open spec fn nul_place(text: Seq<u8>, at: int) -> int
    decreases text.len() - at,
{
    if 0 <= at < text.len() && text[at] != 0 {
        nul_place(text, at + 1)
    } else {
        at
    }
}

/// The part of a file that is searched: the lines before the one with the first NUL byte, where such a
/// byte ends the search.
pub open spec fn searched(bytes: Seq<u8>, detection: BinaryDetection) -> Seq<u8> {
    if detection is Quit && nul_place(bytes, 0) < bytes.len() {
        bytes.subrange(0, line_start(bytes, nul_place(bytes, 0)))
    } else {
        bytes
    }
}

/// A line as it is shown: without its end.
pub open spec fn shown_line(text: Seq<u8>, at: int) -> Seq<u8> {
    let end = line_end(text, at);
    if end < text.len() {
        text::without_carriage_return(text.subrange(at, end))
    } else {
        text.subrange(at, end)
    }
}

/// Where the first match starts at or behind a place.
pub open spec fn match_start(model: MatcherModel, text: Seq<u8>, at: int) -> Option<int> {
    match model.span(text, at) {
        Some(found) => Some(found.0),
        None => None,
    }
}

/// How far the search has come at the end of a text, and what was found from a place on. The next
/// match is looked for once, from the end of the line with the last one on.
pub open spec fn scanned(
    model: MatcherModel,
    text: Seq<u8>,
    at: int,
    next: Option<int>,
    state: ScanState,
) -> (ScanState, Seq<EventModel>)
    decreases text.len() + 1 - at,
{
    if at < 0 || at >= text.len() || state.done {
        (state, Seq::empty())
    } else {
        proof {
            line_end_is_in_text(text, at);
        }
        let end = line_end(text, at);
        let matched = next matches Some(start) && start <= end;
        let (after, events) = stepped(state, shown_line(text, at), matched);
        let following = if matched {
            match_start(model, text, end + 1)
        } else {
            next
        };
        let (last, rest) = scanned(model, text, end + 1, following, after);
        (last, events + rest)
    }
}

/// The end of a line is neither before its start nor behind the end of the text.
pub proof fn line_end_is_in_text(text: Seq<u8>, at: int)
    requires
        0 <= at <= text.len(),
    ensures
        at <= line_end(text, at) <= text.len(),
    decreases text.len() - at,
{
    if at < text.len() && text[at] != LINE_FEED {
        line_end_is_in_text(text, at + 1);
    }
}

proof fn lemma_nul_place(text: Seq<u8>, at: int, found: int)
    requires
        0 <= at <= found <= text.len(),
        forall|i: int| at <= i < found ==> text[i] != 0,
        found < text.len() ==> text[found] == 0,
    ensures
        nul_place(text, at) == found,
    decreases found - at,
{
    if at < found {
        lemma_nul_place(text, at + 1, found);
    }
}

/// The part of a file that is searched.
fn searched_part(bytes: &[u8], detection: BinaryDetection) -> (result: &[u8])
    ensures
        result@ == searched(bytes@, detection),
{
    match detection {
        BinaryDetection::Text => bytes,
        BinaryDetection::Quit => match find_byte(0, bytes) {
            Some(place) => {
                proof {
                    lemma_nul_place(bytes@, 0, place as int);
                }
                let mut start: usize = place;
                while start > 0 && bytes[start - 1] != LINE_FEED
                    invariant
                        start <= place < bytes@.len(),
                        line_start(bytes@, place as int) == line_start(bytes@, start as int),
                    decreases start,
                {
                    start -= 1;
                }
                &bytes[0..start]
            },
            None => {
                proof {
                    assert forall|i: int| 0 <= i < bytes@.len() implies bytes@[i] != 0 by {
                        assert(!bytes@.contains(0u8));
                    }
                    lemma_nul_place(bytes@, 0, bytes@.len() as int);
                }
                bytes
            },
        },
    }
}

/// What the search of a file found.
#[derive(Debug)]
pub struct FileScan {
    pub events: Vec<ScanEvent>,
    pub match_count: u64,
    pub cancelled: bool,
}

/// The search of a file, line by line.
#[derive(Debug)]
pub struct TextScan {
    pub scan: LineScan,
    /// How many of the file's bytes are searched.
    pub length: usize,
    /// Where the next line starts.
    pub at: usize,
    /// Where the next match starts, if there is one.
    pub next: Option<usize>,
}

impl TextScan {
    /// Whether this is a search of these bytes.
    pub open spec fn wf(self, bytes: Seq<u8>) -> bool {
        &&& self.at <= self.length <= bytes.len()
        &&& self.scan.wf()
        &&& self.scan.lines <= self.at
    }

    /// How far the search will have come at the end of the bytes, and what is still found in them.
    pub open spec fn rest(self, model: MatcherModel, bytes: Seq<u8>) -> (
        ScanState,
        Seq<EventModel>,
    ) {
        scanned(
            model,
            bytes.subrange(0, self.length as int),
            self.at as int,
            place_of(self.next),
            self.scan@,
        )
    }

    /// Starts on a file.
    pub fn new(options: ScannerOptions, bytes: &[u8], matcher: &NativeMatcher) -> (result: Self)
        requires
            matcher.wf(),
        ensures
            result.wf(bytes@),
            result.rest(matcher.model(), bytes@) == whole_scan(
                matcher.model(),
                options,
                bytes@,
            ),
    {
        let part: &[u8] = searched_part(bytes, options.binary_detection);
        let next: Option<usize> = match matcher.find_at(part, 0) {
            Some(range) => Some(range.start),
            None => None,
        };
        proof {
            lemma_searched_is_a_beginning(bytes@, options.binary_detection);
        }
        TextScan { scan: LineScan::new(options), length: part.len(), at: 0, next }
    }

    /// Looks at the next line; `None` where the search is at its end.
    pub fn advance(&mut self, bytes: &[u8], matcher: &NativeMatcher) -> (result: Option<
        Vec<ScanEvent>,
    >)
        requires
            matcher.wf(),
            old(self).wf(bytes@),
        ensures
            final(self).wf(bytes@),
            match result {
                None => {
                    &&& *final(self) == *old(self)
                    &&& old(self).rest(matcher.model(), bytes@) == (
                        old(self).scan@,
                        Seq::<EventModel>::empty(),
                    )
                },
                Some(events) => {
                    let after = final(self).rest(matcher.model(), bytes@);
                    &&& old(self).rest(matcher.model(), bytes@) == (
                        after.0,
                        event_models(events@) + after.1,
                    )
                    &&& final(self).at > old(self).at
                    &&& final(self).length == old(self).length
                },
            },
    {
        let part: &[u8] = &bytes[0..self.length];
        let total: usize = self.length;
        let at: usize = self.at;
        if at >= total || self.scan.done {
            return None;
        }
        let ghost model = matcher.model();
        let ghost text = part@;
        let ghost known = place_of(self.next);
        proof {
            line_end_is_in_text(text, at as int);
        }
        let mut end: usize = at;
        while end < total && part[end] != LINE_FEED
            invariant
                at <= end <= total,
                total == part@.len(),
                text == part@,
                line_end(text, at as int) == line_end(text, end as int),
            decreases total - end,
        {
            end += 1;
        }
        let line: &[u8] = if end < total {
            strip_carriage_return(&part[at..end])
        } else {
            &part[at..end]
        };
        let matched: bool = match self.next {
            Some(start) => start <= end,
            None => false,
        };
        let events: Vec<ScanEvent> = self.scan.step(line, matched);
        if end == total {
            proof {
                let following = if matched {
                    match_start(model, text, end + 1)
                } else {
                    known
                };
                assert(scanned(model, text, end + 1, following, self.scan@) == (
                    self.scan@,
                    Seq::<EventModel>::empty(),
                ));
            }
            self.at = end;
        } else {
            if matched {
                self.next =
                match matcher.find_at(part, end + 1) {
                    Some(range) => Some(range.start),
                    None => None,
                };
            }
            self.at = end + 1;
        }
        Some(events)
    }
}

/// How far the search of a file comes, and what is found in it.
pub open spec fn whole_scan(model: MatcherModel, options: ScannerOptions, bytes: Seq<u8>) -> (
    ScanState,
    Seq<EventModel>,
) {
    let part = searched(bytes, options.binary_detection);
    scanned(model, part, 0, match_start(model, part, 0), scan_start(options))
}

proof fn lemma_searched_is_a_beginning(bytes: Seq<u8>, detection: BinaryDetection)
    ensures
        searched(bytes, detection).len() <= bytes.len(),
        searched(bytes, detection) == bytes.subrange(0, searched(bytes, detection).len() as int),
{
    let place = nul_place(bytes, 0);
    lemma_nul_place_in_text(bytes, 0);
    lemma_line_start_in_text(bytes, place);
    assert(bytes.subrange(0, bytes.len() as int) =~= bytes);
    assert(searched(bytes, detection) =~= bytes.subrange(
        0,
        searched(bytes, detection).len() as int,
    ));
}

proof fn lemma_nul_place_in_text(text: Seq<u8>, at: int)
    requires
        0 <= at <= text.len(),
    ensures
        at <= nul_place(text, at) <= text.len(),
    decreases text.len() - at,
{
    if at < text.len() && text[at] != 0 {
        lemma_nul_place_in_text(text, at + 1);
    }
}

proof fn lemma_line_start_in_text(text: Seq<u8>, at: int)
    requires
        0 <= at <= text.len(),
    ensures
        0 <= line_start(text, at) <= at,
    decreases at,
{
    if 0 < at && text[at - 1] != LINE_FEED {
        lemma_line_start_in_text(text, at - 1);
    }
}

/// Searches a file. A search that was stopped before looks at nothing.
pub fn scan_bytes(
    options: ScannerOptions,
    bytes: &[u8],
    matcher: &NativeMatcher,
    stopped: bool,
) -> (result: FileScan)
    requires
        matcher.wf(),
    ensures
        result.cancelled == stopped,
        stopped ==> result.match_count == 0 && result.events@.len() == 0,
        !stopped ==> {
            let (state, events) = whole_scan(matcher.model(), options, bytes@);
            result.match_count == state.match_count && event_models(result.events@) == events
        },
{
    let mut events: Vec<ScanEvent> = Vec::new();
    if stopped {
        return FileScan { events, match_count: 0, cancelled: true };
    }
    let ghost model = matcher.model();
    let ghost whole = whole_scan(model, options, bytes@);
    let mut search: TextScan = TextScan::new(options, bytes, matcher);
    proof {
        assert(event_models(events@) =~= Seq::<EventModel>::empty());
        assert(Seq::<EventModel>::empty() + whole.1 =~= whole.1);
    }
    loop
        invariant
            matcher.wf(),
            model == matcher.model(),
            search.wf(bytes@),
            search.rest(model, bytes@).0 == whole.0,
            event_models(events@) + search.rest(model, bytes@).1 == whole.1,
        ensures
            whole == (search.scan@, event_models(events@)),
        decreases search.length - search.at,
    {
        let ghost sofar = event_models(events@);
        match search.advance(bytes, matcher) {
            None => {
                assert(sofar + Seq::<EventModel>::empty() =~= sofar);
                break;
            },
            Some(mut found) => {
                let ghost new = event_models(found@);
                let ghost rest = search.rest(model, bytes@).1;
                events.append(&mut found);
                proof {
                    assert(event_models(events@) =~= sofar + new);
                    assert(sofar + (new + rest) =~= (sofar + new) + rest);
                }
            },
        }
    }
    FileScan { events, match_count: search.scan.match_count, cancelled: false }
}

/// A place as a mathematical number.
pub open spec fn place_of(place: Option<usize>) -> Option<int> {
    match place {
        Some(start) => Some(start as int),
        None => None,
    }
}

/// Whether a state is one that a search can be in.
pub open spec fn state_wf(state: ScanState) -> bool {
    &&& state.pending.len() <= state.lines
    &&& state.last_shown + state.pending.len() <= state.lines
    &&& state.match_count <= state.lines < u64::MAX
    &&& 0 <= state.after_left
    &&& state.after_left > 0 ==> state.pending.len() == 0
}

/// The number of the line that an event shows, or 0.
pub open spec fn event_line(event: EventModel) -> int {
    match event {
        EventModel::Matched(number, _) => number as int,
        EventModel::Context(number, _) => number as int,
        EventModel::Break => 0,
    }
}

/// No more lines are found than are wanted.
pub proof fn limit_is_kept(state: ScanState, bytes: Seq<u8>, matched: bool)
    requires
        state_wf(state),
        state.options.max_matches matches Some(limit) && state.match_count <= limit,
    ensures
        stepped(state, bytes, matched).0.match_count <= state.options.max_matches->0,
        limit_reached(state) ==> stepped(state, bytes, matched).0.match_count == state.match_count,
{
}

/// A line is shown at most once, and lines are shown in their order: each step shows lines behind those
/// that were shown before, one behind the other.
pub proof fn lines_are_shown_in_order(state: ScanState, bytes: Seq<u8>, matched: bool)
    requires
        state_wf(state),
    ensures
        ({
            let (after, events) = stepped(state, bytes, matched);
            &&& forall|i: int|
                0 <= i < events.len() && !((#[trigger] events[i]) is Break) ==> state.last_shown
                    < event_line(events[i]) <= after.last_shown
            &&& forall|i: int, j: int|
                0 <= i < j < events.len() && !((#[trigger] events[i]) is Break) && !((
                #[trigger] events[j]) is Break) ==> event_line(events[i]) < event_line(events[j])
            &&& state.last_shown <= after.last_shown
        }),
{
    let (after, events) = stepped(state, bytes, matched);
    if !state.done && matched && !limit_reached(state) && state.options.mode is Standard {
        let number = state.lines + 1;
        let shown = pending_events(state.pending, number - 1);
        let tail = seq![EventModel::Matched(number as u64, bytes)];
        let offset = events.len() - 1 - shown.len();
        assert forall|i: int| 0 <= i < events.len() && !((#[trigger] events[i]) is Break) implies {
            &&& i >= offset
            &&& event_line(events[i]) == number - shown.len() + (i - offset)
        } by {
            if i < offset {
                assert(events[i] == EventModel::Break);
            } else if i < offset + shown.len() {
                assert(events[i] == shown[i - offset]);
            } else {
                assert(events[i] == tail[0]);
            }
        }
    }
}

} // verus!
