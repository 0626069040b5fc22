//! The `rg` command: what is searched for, and what a searched file adds to the output.

use vstd::prelude::*;
use crate::context::WalkError;
use crate::emitter;
use crate::emitter::{Emitter, EmitterModel, Step, TaskModel};
use crate::expand::WalkEntry;
use crate::glob::GlobError;
use crate::lines;
use crate::native_matcher;
use crate::native_matcher::{MatcherModel, MatcherOptions, NativeMatcher};
use crate::pattern::MatcherError;
use crate::platform::Platform;
use crate::queue::WalkControl;
use crate::scanner::{EventModel, ScanEvent};
use crate::search;
use crate::search::{
    pattern_report, search_report, shows_paths, use_sequential_hint, walk_report,
    walk_start_report,
};
use crate::search_args;
use crate::search_args::{parse_request, OptionsModel, SearchModel, SearchOptions, SearchRequest};
use crate::search_platform::{
    sequential_scan_is_beneficial, sequential_scan_size_probe_enabled, MINIMUM_SEQUENTIAL_LENGTH,
};
use crate::sink;
use crate::sink::{format_count, LineFormat, LineOutput, OutputModel};
use crate::text;
use crate::wire::{EncodedTextBatch, ErrorReport, ReportModel};

verus! {

/// How the pattern of a command is taken.
pub open spec fn matcher_options(options: OptionsModel) -> MatcherOptions {
    MatcherOptions {
        ignore_case: options.ignore_case,
        smart_case: options.smart_case,
        fixed_strings: options.fixed_strings,
        word_regexp: options.word_regexp,
        line_regexp: options.line_regexp,
        text: options.text,
    }
}

/// Compiles the pattern of a command.
pub fn build_matcher(options: &SearchOptions, pattern: &str) -> (result: Result<
    NativeMatcher,
    MatcherError,
>)
    ensures
        match result {
            Ok(matcher) => {
                &&& native_matcher::built(pattern@, matcher_options(options@)) == Ok::<
                    MatcherModel,
                    Seq<char>,
                >(matcher.model())
                &&& matcher.wf()
            },
            Err(error) => native_matcher::built(pattern@, matcher_options(options@)) == Err::<
                MatcherModel,
                Seq<char>,
            >(error.message@),
        },
{
    NativeMatcher::build(
        pattern,
        MatcherOptions {
            ignore_case: options.ignore_case,
            smart_case: options.smart_case,
            fixed_strings: options.fixed_strings,
            word_regexp: options.word_regexp,
            line_regexp: options.line_regexp,
            text: options.text,
        },
    )
}

/// A command that is ready to search.
pub struct PreparedSearch {
    pub request: SearchRequest,
    pub matcher: NativeMatcher,
}

/// What arguments ask for, or what is wrong with them.
pub open spec fn prepared(args: Seq<Seq<char>>) -> Result<(SearchModel, MatcherModel), ReportModel> {
    match search_args::parsed_search(args) {
        Err(report) => Err(report),
        Ok(search) => match native_matcher::built(search.pattern, matcher_options(search.options)) {
            Ok(matcher) => Ok((search, matcher)),
            Err(message) => Err(
                ReportModel {
                    code: "InvalidPattern"@,
                    category: "InvalidArgument"@,
                    message: "rg の正規表現が不正です: "@ + message,
                    path: Some(search.pattern),
                },
            ),
        },
    }
}

/// Reads the arguments of a command and compiles its pattern.
pub fn prepare(args: &[String]) -> (result: Result<PreparedSearch, ErrorReport>)
    ensures
        match result {
            Ok(search) => {
                &&& prepared(text::texts(args@)) == Ok::<(SearchModel, MatcherModel), ReportModel>(
                    (search.request@, search.matcher.model()),
                )
                &&& search.matcher.wf()
            },
            Err(report) => prepared(text::texts(args@)) == Err::<
                (SearchModel, MatcherModel),
                ReportModel,
            >(report@),
        },
{
    let request: SearchRequest = match parse_request(args) {
        Ok(request) => request,
        Err(report) => {
            return Err(report);
        },
    };
    match build_matcher(&request.options, request.pattern.as_str()) {
        Ok(matcher) => Ok(PreparedSearch { request, matcher }),
        Err(error) => Err(pattern_report(request.pattern.as_str(), error.message.as_str())),
    }
}

/// How the lines of a file are printed for a command.
pub fn line_format(path: String, include_path: bool, options: &SearchOptions) -> (result: LineFormat)
    ensures
        result.path@ == path@,
        result.include_path == include_path,
        result.line_number == options@.line_number,
        result.files_with_matches == options@.files_with_matches,
        result.count_only == options@.count,
{
    LineFormat {
        path,
        include_path,
        line_number: options.line_number,
        files_with_matches: options.files_with_matches,
        count_only: options.count,
    }
}

/// What something that was found in a file makes.
pub open spec fn event_output(format: LineFormat, event: EventModel) -> OutputModel {
    let quiet = format.files_with_matches || format.count_only;
    match event {
        EventModel::Matched(number, bytes) => if format.files_with_matches {
            OutputModel::PrintAndEnd(format.path@)
        } else if format.count_only {
            OutputModel::Nothing
        } else {
            OutputModel::Print(
                sink::search_line(
                    format.path@,
                    format.include_path,
                    format.line_number,
                    text::lossy(lines::without_line_ending(bytes)),
                    number as nat,
                    ':',
                ),
            )
        },
        EventModel::Context(number, bytes) => if quiet {
            OutputModel::Nothing
        } else {
            OutputModel::Print(
                sink::search_line(
                    format.path@,
                    format.include_path,
                    format.line_number,
                    text::lossy(lines::without_line_ending(bytes)),
                    number as nat,
                    '-',
                ),
            )
        },
        EventModel::Break => if quiet {
            OutputModel::Nothing
        } else {
            OutputModel::Print("--"@)
        },
    }
}

/// What something that was found in a file makes.
pub fn output_of(format: &LineFormat, event: &ScanEvent) -> (result: LineOutput)
    ensures
        result@ == event_output(*format, event@),
{
    match event {
        ScanEvent::Matched(number, bytes) => format.matched(bytes.as_slice(), *number),
        ScanEvent::Context(number, bytes) => format.context(bytes.as_slice(), *number),
        ScanEvent::Break => format.context_break(),
    }
}

/// The line with the number of matches, where it is asked for and there are any.
pub fn count_output(format: &LineFormat, match_count: u64, stopped: bool) -> (result: Option<String>)
    ensures
        text::optional_text(result) == (if format.count_only && match_count > 0 && !stopped {
            Some(sink::count_line(format.path@, format.include_path, match_count as nat))
        } else {
            None
        }),
{
    if format.count_only && match_count > 0 && !stopped {
        Some(format_count(format.path.as_str(), format.include_path, match_count))
    } else {
        None
    }
}

/// What a worker hands to the one that writes.
pub enum WorkerMessage {
    Output(EncodedTextBatch),
    Error(ErrorReport),
}

/// Whether a worker goes on once it has handed a message over: it does if the message was taken.
pub fn send_worker_message(taken: bool) -> (result: WalkControl)
    ensures
        result == (if taken {
            WalkControl::Continue
        } else {
            WalkControl::Quit
        }),
{
    if taken {
        WalkControl::Continue
    } else {
        WalkControl::Quit
    }
}

/// What a worker does once a file is searched.
pub enum FileOutcome {
    Control(WalkControl),
    /// Hand this over, and go on if it is taken.
    Report(ErrorReport),
}

/// What a worker does once a file is searched: a failure is reported, unless the search was stopped.
pub fn file_outcome(path: &str, failure: Option<&str>, stopped: bool) -> (result: FileOutcome)
    ensures
        match failure {
            None => result == FileOutcome::Control(WalkControl::Continue),
            Some(reason) => if stopped {
                result == FileOutcome::Control(WalkControl::Quit)
            } else {
                result matches FileOutcome::Report(report) && report@ == (ReportModel {
                    code: "SearchFailed"@,
                    category: "ReadError"@,
                    message: "rg でファイルを検索できませんでした: "@ + reason@,
                    path: Some(path@),
                })
            },
        },
{
    match failure {
        None => FileOutcome::Control(WalkControl::Continue),
        Some(reason) => if stopped {
            FileOutcome::Control(WalkControl::Quit)
        } else {
            FileOutcome::Report(search_report(path, reason))
        },
    }
}

/// Hands a message of a worker on.
pub fn receive_worker_message(emitter: &mut Emitter, message: WorkerMessage, cancelled: bool) -> (result:
    Step)
    requires
        old(emitter).wf(),
        old(emitter).error_count < usize::MAX,
        message matches WorkerMessage::Output(batch) ==> batch.wf(),
    ensures
        final(emitter).wf(),
        ({
            let (state, step) = match message {
                WorkerMessage::Output(batch) => emitter::started(
                    old(emitter)@,
                    if batch@.len() == 0 {
                        Seq::empty()
                    } else {
                        seq![
                            TaskModel::FlushEntries,
                            TaskModel::FlushTexts,
                            TaskModel::SendTexts(batch@),
                        ]
                    },
                    cancelled,
                ),
                WorkerMessage::Error(report) => emitter::started(
                    EmitterModel {
                        error_count: old(emitter)@.error_count + 1,
                        ..old(emitter)@
                    },
                    seq![
                        TaskModel::FlushEntries,
                        TaskModel::FlushTexts,
                        TaskModel::SendError(report@),
                    ],
                    cancelled,
                ),
            };
            final(emitter)@ == state && result.is(step)
        }),
{
    match message {
        WorkerMessage::Output(batch) => emitter.text_batch(batch, cancelled),
        WorkerMessage::Error(report) => emitter.error(report, cancelled),
    }
}

/// What a worker does with what the walk found.
pub enum Visit {
    Quit,
    /// Hand this over, and go on if it is taken. The list of files is not whole.
    Report(ErrorReport),
    /// Search the file, reading ahead where that is worth it.
    Search { sequential_hint: bool },
}

/// What a worker does with what the walk found. A file is read ahead where all of it is read, and it is
/// long enough.
pub fn visit(
    found: &Result<WalkEntry, WalkError>,
    options: &SearchOptions,
    platform: Platform,
    stopped: bool,
) -> (result: Visit)
    ensures
        if stopped {
            result is Quit
        } else {
            match *found {
                Err(error) => result matches Visit::Report(report) && report@ == (ReportModel {
                    code: "WalkFailed"@,
                    category: "ReadError"@,
                    message: "rg のファイル走査に失敗しました: "@ + search::walk_error_text(
                        error@,
                        platform,
                    ),
                    path: search::error_path(error@, platform),
                }),
                Ok(entry) => result == (Visit::Search {
                    sequential_hint: search::reads_to_the_end(options@) && platform is Windows
                        && entry@.length >= MINIMUM_SEQUENTIAL_LENGTH,
                }),
            }
        },
{
    if stopped {
        return Visit::Quit;
    }
    match found {
        Err(error) => Visit::Report(walk_report(error, platform)),
        Ok(entry) => Visit::Search {
            sequential_hint: use_sequential_hint(options) && sequential_scan_size_probe_enabled(
                platform,
            ) && sequential_scan_is_beneficial(platform, entry.len()),
        },
    }
}

/// What the host does next for a search.
#[derive(Debug)]
pub enum RgAction {
    /// Report this.
    Report(ErrorReport),
    /// Set up the walk, and say what came of it.
    MakeWalk,
    /// Look at the roots.
    LookAtRoots,
    /// Search the files of the walk one after the other.
    SearchInOrder { include_path: bool, sequential_hint: bool },
    /// Ask for a list of files that was kept.
    AskForList,
    /// Search the files of a list.
    SearchList { include_path: bool, list: u64 },
    /// Set out to keep a list.
    BeginList,
    /// Search the files of the walk with several workers, and note their paths where that is asked for.
    SearchWalk { include_path: bool, collect: bool },
    /// Keep the list.
    KeepList,
    Done,
}

/// What the host does next for a search.
pub enum RgActionModel {
    Report(ReportModel),
    MakeWalk,
    LookAtRoots,
    SearchInOrder { include_path: bool, sequential_hint: bool },
    AskForList,
    SearchList { include_path: bool, list: u64 },
    BeginList,
    SearchWalk { include_path: bool, collect: bool },
    KeepList,
    Done,
}

impl View for RgAction {
    type V = RgActionModel;

    open spec fn view(&self) -> RgActionModel {
        match self {
            RgAction::Report(report) => RgActionModel::Report(report@),
            RgAction::MakeWalk => RgActionModel::MakeWalk,
            RgAction::LookAtRoots => RgActionModel::LookAtRoots,
            RgAction::SearchInOrder { include_path, sequential_hint } => RgActionModel::SearchInOrder {
                include_path: *include_path,
                sequential_hint: *sequential_hint,
            },
            RgAction::AskForList => RgActionModel::AskForList,
            RgAction::SearchList { include_path, list } => RgActionModel::SearchList {
                include_path: *include_path,
                list: *list,
            },
            RgAction::BeginList => RgActionModel::BeginList,
            RgAction::SearchWalk { include_path, collect } => RgActionModel::SearchWalk {
                include_path: *include_path,
                collect: *collect,
            },
            RgAction::KeepList => RgActionModel::KeepList,
            RgAction::Done => RgActionModel::Done,
        }
    }
}

/// What the host found out.
#[derive(Debug)]
pub enum RgEvent {
    /// A report was sent, or a search or a list is done.
    Finished,
    /// What came of setting up the walk.
    WalkMade(Result<(), GlobError>),
    /// Whether one of the roots is a directory, and whether there is enough work to divide.
    RootsSeen { some_directory: bool, parallel: bool },
    /// The list that was kept for this search.
    ListFound(Option<u64>),
    /// Whether a list will be kept.
    ListBegun(bool),
    /// Whether the files of the walk were all noted.
    Walked { collected: bool },
}

/// Where a search stands.
#[derive(Clone, Copy, Debug, PartialEq, Eq, Structural)]
pub enum RgPhase {
    MakingWalk,
    Looking,
    Asking { include_path: bool },
    Beginning { include_path: bool },
    Walking { keeps: bool },
    Ending,
    Ended,
}

/// A search from its arguments to its end.
#[derive(Debug)]
pub struct RgMachine {
    pub root_count: usize,
    pub reads_to_the_end: bool,
    pub phase: RgPhase,
}

/// Where a search stands, and what comes next.
pub open spec fn rg_next(root_count: usize, reads_to_the_end: bool, phase: RgPhase, event: RgEvent) -> (
    RgPhase,
    RgActionModel,
) {
    match (phase, event) {
        (RgPhase::MakingWalk, RgEvent::WalkMade(Ok(_))) => (
            RgPhase::Looking,
            RgActionModel::LookAtRoots,
        ),
        (RgPhase::MakingWalk, RgEvent::WalkMade(Err(error))) => (
            RgPhase::Ending,
            RgActionModel::Report(walk_start_model(text::optional_text(error.pattern), error.message@)),
        ),
        (RgPhase::Looking, RgEvent::RootsSeen { some_directory, parallel }) => {
            let include_path = root_count > 1 || some_directory;
            if parallel {
                (RgPhase::Asking { include_path }, RgActionModel::AskForList)
            } else {
                (
                    RgPhase::Ending,
                    RgActionModel::SearchInOrder {
                        include_path,
                        sequential_hint: !some_directory && reads_to_the_end,
                    },
                )
            }
        },
        (RgPhase::Asking { include_path }, RgEvent::ListFound(Some(list))) => (
            RgPhase::Ending,
            RgActionModel::SearchList { include_path, list },
        ),
        (RgPhase::Asking { include_path }, RgEvent::ListFound(None)) => (
            RgPhase::Beginning { include_path },
            RgActionModel::BeginList,
        ),
        (RgPhase::Beginning { include_path }, RgEvent::ListBegun(begun)) => (
            RgPhase::Walking { keeps: begun },
            RgActionModel::SearchWalk { include_path, collect: begun },
        ),
        (RgPhase::Walking { keeps }, RgEvent::Walked { collected }) => if keeps && collected {
            (RgPhase::Ending, RgActionModel::KeepList)
        } else {
            (RgPhase::Ended, RgActionModel::Done)
        },
        _ => (RgPhase::Ended, RgActionModel::Done),
    }
}

/// The report of a walk that cannot start.
pub open spec fn walk_start_model(pattern: Option<Seq<char>>, message: Seq<char>) -> ReportModel {
    match pattern {
        Some(pattern) => ReportModel {
            code: "InvalidGlob"@,
            category: "InvalidArgument"@,
            message: "rg のglobが不正です: "@ + message,
            path: Some(pattern),
        },
        None => ReportModel {
            code: "WalkFailed"@,
            category: "ReadError"@,
            message: "rg のファイル走査を初期化できませんでした: "@ + message,
            path: None,
        },
    }
}

impl RgMachine {
    /// Starts a search: what is wrong with its arguments is reported, and one that was stopped does
    /// nothing.
    pub fn new(args: &[String], stopped: bool) -> (result: (Self, RgAction, Option<PreparedSearch>))
        ensures
            ({
                let (machine, action, search) = result;
                if stopped {
                    machine.phase is Ended && action@ is Done && search is None
                } else {
                    match prepared(text::texts(args@)) {
                        Err(report) => machine.phase is Ending && action@ == RgActionModel::Report(
                            report,
                        ) && search is None,
                        Ok((request, matcher)) => {
                            &&& machine.phase is MakingWalk
                            &&& machine.root_count == request.roots.len()
                            &&& machine.reads_to_the_end == search::reads_to_the_end(
                                request.options,
                            )
                            &&& action@ is MakeWalk
                            &&& search matches Some(ready) && ready.request@ == request
                                && ready.matcher.model() == matcher && ready.matcher.wf()
                        },
                    }
                }
            }),
    {
        if stopped {
            return (
                RgMachine { root_count: 0, reads_to_the_end: false, phase: RgPhase::Ended },
                RgAction::Done,
                None,
            );
        }
        match prepare(args) {
            Err(report) => (
                RgMachine { root_count: 0, reads_to_the_end: false, phase: RgPhase::Ending },
                RgAction::Report(report),
                None,
            ),
            Ok(search) => {
                let machine = RgMachine {
                    root_count: search.request.roots.len(),
                    reads_to_the_end: use_sequential_hint(&search.request.options),
                    phase: RgPhase::MakingWalk,
                };
                (machine, RgAction::MakeWalk, Some(search))
            },
        }
    }

    /// Goes on with a search once the host did what was asked for.
    pub fn step(&mut self, event: &RgEvent) -> (result: RgAction)
        ensures
            (final(self).phase, result@) == rg_next(
                old(self).root_count,
                old(self).reads_to_the_end,
                old(self).phase,
                *event,
            ),
            final(self).root_count == old(self).root_count,
            final(self).reads_to_the_end == old(self).reads_to_the_end,
    {
        match (self.phase, event) {
            (RgPhase::MakingWalk, RgEvent::WalkMade(Ok(_))) => {
                self.phase = RgPhase::Looking;
                RgAction::LookAtRoots
            },
            (RgPhase::MakingWalk, RgEvent::WalkMade(Err(error))) => {
                self.phase = RgPhase::Ending;
                RgAction::Report(walk_start_report(error))
            },
            (RgPhase::Looking, RgEvent::RootsSeen { some_directory, parallel }) => {
                let include_path: bool = shows_paths(self.root_count, *some_directory);
                if *parallel {
                    self.phase = RgPhase::Asking { include_path };
                    RgAction::AskForList
                } else {
                    self.phase = RgPhase::Ending;
                    RgAction::SearchInOrder {
                        include_path,
                        sequential_hint: !*some_directory && self.reads_to_the_end,
                    }
                }
            },
            (RgPhase::Asking { include_path }, RgEvent::ListFound(Some(list))) => {
                self.phase = RgPhase::Ending;
                RgAction::SearchList { include_path, list: *list }
            },
            (RgPhase::Asking { include_path }, RgEvent::ListFound(None)) => {
                self.phase = RgPhase::Beginning { include_path };
                RgAction::BeginList
            },
            (RgPhase::Beginning { include_path }, RgEvent::ListBegun(begun)) => {
                self.phase = RgPhase::Walking { keeps: *begun };
                RgAction::SearchWalk { include_path, collect: *begun }
            },
            (RgPhase::Walking { keeps }, RgEvent::Walked { collected }) => {
                if keeps && *collected {
                    self.phase = RgPhase::Ending;
                    RgAction::KeepList
                } else {
                    self.phase = RgPhase::Ended;
                    RgAction::Done
                }
            },
            _ => {
                self.phase = RgPhase::Ended;
                RgAction::Done
            },
        }
    }
}

/// How many steps a search can still take.
pub open spec fn steps_left(phase: RgPhase) -> int {
    match phase {
        RgPhase::MakingWalk => 6,
        RgPhase::Looking => 5,
        RgPhase::Asking { .. } => 4,
        RgPhase::Beginning { .. } => 3,
        RgPhase::Walking { .. } => 2,
        RgPhase::Ending => 1,
        RgPhase::Ended => 0,
    }
}

/// A search comes to its end whatever the host finds out, and then nothing more is done.
pub proof fn search_comes_to_an_end(
    root_count: usize,
    reads_to_the_end: bool,
    phase: RgPhase,
    event: RgEvent,
)
    ensures
        ({
            let (after, action) = rg_next(root_count, reads_to_the_end, phase, event);
            &&& !(phase is Ended) ==> steps_left(after) < steps_left(phase)
            &&& phase is Ended ==> after is Ended && action is Done
            &&& after is Ended ==> action is Done
        }),
{
}

} // verus!
