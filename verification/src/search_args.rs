//! The arguments of `rg`.

use vstd::prelude::*;
use crate::arguments;
use crate::arguments::starts_with_hyphen;
use crate::chars;
use crate::chars::{parse_number, same_text, to_chars};
use crate::text;
use crate::wire::{ErrorReport, ReportModel};

verus! {

/// How `rg` searches.
#[derive(Debug, PartialEq, Eq)]
pub struct SearchOptions {
    pub line_number: bool,
    pub ignore_case: bool,
    pub smart_case: bool,
    pub fixed_strings: bool,
    pub word_regexp: bool,
    pub line_regexp: bool,
    pub before_context: usize,
    pub after_context: usize,
    pub max_count: Option<u64>,
    pub globs: Vec<String>,
    pub hidden: bool,
    pub no_ignore: bool,
    pub follow: bool,
    pub text: bool,
    pub files_with_matches: bool,
    pub count: bool,
}

/// How `rg` searches.
pub struct OptionsModel {
    pub line_number: bool,
    pub ignore_case: bool,
    pub smart_case: bool,
    pub fixed_strings: bool,
    pub word_regexp: bool,
    pub line_regexp: bool,
    pub before_context: usize,
    pub after_context: usize,
    pub max_count: Option<u64>,
    pub globs: Seq<Seq<char>>,
    pub hidden: bool,
    pub no_ignore: bool,
    pub follow: bool,
    pub text: bool,
    pub files_with_matches: bool,
    pub count: bool,
}

impl View for SearchOptions {
    type V = OptionsModel;

    open spec fn view(&self) -> OptionsModel {
        OptionsModel {
            line_number: self.line_number,
            ignore_case: self.ignore_case,
            smart_case: self.smart_case,
            fixed_strings: self.fixed_strings,
            word_regexp: self.word_regexp,
            line_regexp: self.line_regexp,
            before_context: self.before_context,
            after_context: self.after_context,
            max_count: self.max_count,
            globs: text::texts(self.globs@),
            hidden: self.hidden,
            no_ignore: self.no_ignore,
            follow: self.follow,
            text: self.text,
            files_with_matches: self.files_with_matches,
            count: self.count,
        }
    }
}

/// The options where none is given.
pub open spec fn no_options() -> OptionsModel {
    OptionsModel {
        line_number: false,
        ignore_case: false,
        smart_case: false,
        fixed_strings: false,
        word_regexp: false,
        line_regexp: false,
        before_context: 0,
        after_context: 0,
        max_count: None,
        globs: Seq::empty(),
        hidden: false,
        no_ignore: false,
        follow: false,
        text: false,
        files_with_matches: false,
        count: false,
    }
}

impl Default for SearchOptions {
    fn default() -> (result: Self)
        ensures
            result@ == no_options(),
    {
        let result: SearchOptions = SearchOptions {
            line_number: false,
            ignore_case: false,
            smart_case: false,
            fixed_strings: false,
            word_regexp: false,
            line_regexp: false,
            before_context: 0,
            after_context: 0,
            max_count: None,
            globs: Vec::new(),
            hidden: false,
            no_ignore: false,
            follow: false,
            text: false,
            files_with_matches: false,
            count: false,
        };
        assert(text::texts(result.globs@) =~= Seq::<Seq<char>>::empty());
        result
    }
}

/// A search.
#[derive(Debug)]
pub struct SearchRequest {
    pub pattern: String,
    pub roots: Vec<String>,
    pub options: SearchOptions,
}

/// A search.
pub struct SearchModel {
    pub pattern: Seq<char>,
    pub roots: Seq<Seq<char>>,
    pub options: OptionsModel,
}

impl View for SearchRequest {
    type V = SearchModel;

    open spec fn view(&self) -> SearchModel {
        SearchModel {
            pattern: self.pattern@,
            roots: text::texts(self.roots@),
            options: self.options@,
        }
    }
}

/// What an argument is.
#[derive(Clone, Copy, Debug, PartialEq, Eq, Structural)]
pub enum ArgumentKind {
    /// No option follows.
    EndOfOptions,
    LineNumber,
    IgnoreCase,
    SmartCase,
    FixedStrings,
    WordRegexp,
    LineRegexp,
    Hidden,
    NoIgnore,
    Follow,
    Text,
    FilesWithMatches,
    Count,
    /// Options whose value is the argument behind them.
    Regexp,
    Context,
    AfterContext,
    BeforeContext,
    MaxCount,
    Glob,
    /// An option that there is not.
    Unknown,
    /// No option.
    Positional,
}

/// What an argument is.
#[verifier::opaque]
pub open spec fn kind_of(arg: Seq<char>) -> ArgumentKind {
    if arg == "--"@ {
        ArgumentKind::EndOfOptions
    } else if arg == "-n"@ || arg == "--line-number"@ {
        ArgumentKind::LineNumber
    } else if arg == "-i"@ || arg == "--ignore-case"@ {
        ArgumentKind::IgnoreCase
    } else if arg == "-S"@ || arg == "--smart-case"@ {
        ArgumentKind::SmartCase
    } else if arg == "-F"@ || arg == "--fixed-strings"@ {
        ArgumentKind::FixedStrings
    } else if arg == "-w"@ || arg == "--word-regexp"@ {
        ArgumentKind::WordRegexp
    } else if arg == "-x"@ || arg == "--line-regexp"@ {
        ArgumentKind::LineRegexp
    } else if arg == "--hidden"@ {
        ArgumentKind::Hidden
    } else if arg == "--no-ignore"@ {
        ArgumentKind::NoIgnore
    } else if arg == "-L"@ || arg == "--follow"@ {
        ArgumentKind::Follow
    } else if arg == "-a"@ || arg == "--text"@ {
        ArgumentKind::Text
    } else if arg == "-l"@ || arg == "--files-with-matches"@ {
        ArgumentKind::FilesWithMatches
    } else if arg == "-c"@ || arg == "--count"@ {
        ArgumentKind::Count
    } else if arg == "-e"@ || arg == "--regexp"@ {
        ArgumentKind::Regexp
    } else if arg == "-C"@ || arg == "--context"@ {
        ArgumentKind::Context
    } else if arg == "-A"@ || arg == "--after-context"@ {
        ArgumentKind::AfterContext
    } else if arg == "-B"@ || arg == "--before-context"@ {
        ArgumentKind::BeforeContext
    } else if arg == "-m"@ || arg == "--max-count"@ {
        ArgumentKind::MaxCount
    } else if arg == "-g"@ || arg == "--glob"@ {
        ArgumentKind::Glob
    } else if arguments::is_option(arg) {
        ArgumentKind::Unknown
    } else {
        ArgumentKind::Positional
    }
}

fn is_one_of(arg: &str, short: &str, long: &str) -> (result: bool)
    ensures
        result == (arg@ == short@ || arg@ == long@),
{
    same_text(arg, short) || same_text(arg, long)
}

/// What an argument is.
pub fn argument_kind(arg: &str) -> (result: ArgumentKind)
    ensures
        result == kind_of(arg@),
{
    reveal(kind_of);
    if same_text(arg, "--") {
        ArgumentKind::EndOfOptions
    } else if is_one_of(arg, "-n", "--line-number") {
        ArgumentKind::LineNumber
    } else if is_one_of(arg, "-i", "--ignore-case") {
        ArgumentKind::IgnoreCase
    } else if is_one_of(arg, "-S", "--smart-case") {
        ArgumentKind::SmartCase
    } else if is_one_of(arg, "-F", "--fixed-strings") {
        ArgumentKind::FixedStrings
    } else if is_one_of(arg, "-w", "--word-regexp") {
        ArgumentKind::WordRegexp
    } else if is_one_of(arg, "-x", "--line-regexp") {
        ArgumentKind::LineRegexp
    } else if same_text(arg, "--hidden") {
        ArgumentKind::Hidden
    } else if same_text(arg, "--no-ignore") {
        ArgumentKind::NoIgnore
    } else if is_one_of(arg, "-L", "--follow") {
        ArgumentKind::Follow
    } else if is_one_of(arg, "-a", "--text") {
        ArgumentKind::Text
    } else if is_one_of(arg, "-l", "--files-with-matches") {
        ArgumentKind::FilesWithMatches
    } else if is_one_of(arg, "-c", "--count") {
        ArgumentKind::Count
    } else if is_one_of(arg, "-e", "--regexp") {
        ArgumentKind::Regexp
    } else if is_one_of(arg, "-C", "--context") {
        ArgumentKind::Context
    } else if is_one_of(arg, "-A", "--after-context") {
        ArgumentKind::AfterContext
    } else if is_one_of(arg, "-B", "--before-context") {
        ArgumentKind::BeforeContext
    } else if is_one_of(arg, "-m", "--max-count") {
        ArgumentKind::MaxCount
    } else if is_one_of(arg, "-g", "--glob") {
        ArgumentKind::Glob
    } else if starts_with_hyphen(arg) {
        ArgumentKind::Unknown
    } else {
        ArgumentKind::Positional
    }
}

/// Whether an option takes the argument behind it.
pub open spec fn takes_value(kind: ArgumentKind) -> bool {
    kind is Regexp || kind is Context || kind is AfterContext || kind is BeforeContext
        || kind is MaxCount || kind is Glob
}

/// A report about an argument.
pub open spec fn report_about(code: Seq<char>, message: Seq<char>, arg: Seq<char>) -> ReportModel {
    ReportModel { code, category: "InvalidArgument"@, message, path: Some(arg) }
}

/// The report of an option without its value.
pub open spec fn missing_value(option: Seq<char>) -> ReportModel {
    report_about("MissingOptionValue"@, "rg "@ + option + " には値が必要です"@, option)
}

/// The report of a value that is no number.
pub open spec fn invalid_value(option: Seq<char>, value: Seq<char>) -> ReportModel {
    report_about(
        "InvalidOptionValue"@,
        "rg "@ + option + " の値は0以上の整数で指定してください: "@ + value,
        value,
    )
}

/// The arguments so far: the options, and what is no option.
pub struct ArgumentsModel {
    pub options: OptionsModel,
    pub positional: Seq<Seq<char>>,
    pub options_ended: bool,
}

/// Whether an argument is an option that stands alone.
pub open spec fn is_flag(kind: ArgumentKind) -> bool {
    !takes_value(kind) && !(kind is EndOfOptions) && !(kind is Unknown) && !(kind is Positional)
}

/// The options with one more that stands alone.
pub open spec fn with_flag(options: OptionsModel, kind: ArgumentKind) -> OptionsModel {
    OptionsModel {
        line_number: options.line_number || kind is LineNumber,
        ignore_case: options.ignore_case || kind is IgnoreCase,
        smart_case: options.smart_case || kind is SmartCase,
        fixed_strings: options.fixed_strings || kind is FixedStrings,
        word_regexp: options.word_regexp || kind is WordRegexp,
        line_regexp: options.line_regexp || kind is LineRegexp,
        hidden: options.hidden || kind is Hidden,
        no_ignore: options.no_ignore || kind is NoIgnore,
        follow: options.follow || kind is Follow,
        text: options.text || kind is Text,
        files_with_matches: options.files_with_matches || kind is FilesWithMatches,
        count: options.count || kind is Count,
        ..options
    }
}

/// The arguments with one more that stands alone.
pub open spec fn with_argument(state: ArgumentsModel, kind: ArgumentKind, arg: Seq<char>) -> Result<
    ArgumentsModel,
    ReportModel,
> {
    if kind is EndOfOptions {
        Ok(ArgumentsModel { options_ended: true, ..state })
    } else if kind is Unknown {
        Err(report_about("InvalidOption"@, "rg の不明なオプションです: "@ + arg, arg))
    } else if is_flag(kind) {
        Ok(ArgumentsModel { options: with_flag(state.options, kind), ..state })
    } else {
        Ok(ArgumentsModel { positional: state.positional.push(arg), ..state })
    }
}

/// The options with a number of lines of context.
pub open spec fn with_context(options: OptionsModel, kind: ArgumentKind, number: usize) -> OptionsModel {
    OptionsModel {
        before_context: if kind is AfterContext {
            options.before_context
        } else {
            number
        },
        after_context: if kind is BeforeContext {
            options.after_context
        } else {
            number
        },
        ..options
    }
}

/// The arguments with one more option and its value.
pub open spec fn with_value(
    state: ArgumentsModel,
    kind: ArgumentKind,
    option: Seq<char>,
    value: Seq<char>,
) -> Result<ArgumentsModel, ReportModel> {
    let options = state.options;
    match kind {
        ArgumentKind::Regexp => Ok(
            ArgumentsModel { positional: state.positional.push(value), ..state },
        ),
        ArgumentKind::Glob => Ok(
            ArgumentsModel {
                options: OptionsModel { globs: options.globs.push(value), ..options },
                ..state
            },
        ),
        ArgumentKind::MaxCount => match chars::number(value, u64::MAX as int) {
            None => Err(invalid_value(option, value)),
            Some(number) => Ok(
                ArgumentsModel {
                    options: OptionsModel { max_count: Some(number as u64), ..options },
                    ..state
                },
            ),
        },
        _ => match chars::number(value, usize::MAX as int) {
            None => Err(invalid_value(option, value)),
            Some(number) => Ok(
                ArgumentsModel { options: with_context(options, kind, number as usize), ..state },
            ),
        },
    }
}

/// What the arguments say from `index` on, given what those before said.
pub open spec fn read_arguments(args: Seq<Seq<char>>, index: int, state: ArgumentsModel) -> Result<
    ArgumentsModel,
    ReportModel,
>
    decreases args.len() - index,
{
    if index >= args.len() {
        Ok(state)
    } else {
        let arg = args[index];
        let kind = if state.options_ended {
            ArgumentKind::Positional
        } else {
            kind_of(arg)
        };
        if !takes_value(kind) {
            match with_argument(state, kind, arg) {
                Err(report) => Err(report),
                Ok(next) => read_arguments(args, index + 1, next),
            }
        } else if index + 1 >= args.len() {
            Err(missing_value(arg))
        } else {
            match with_value(state, kind, arg, args[index + 1]) {
                Err(report) => Err(report),
                Ok(next) => read_arguments(args, index + 2, next),
            }
        }
    }
}

/// The search that arguments ask for: the first that is no option is the pattern, and the others are
/// roots.
pub open spec fn search_of(state: ArgumentsModel) -> Result<SearchModel, ReportModel> {
    if state.options.files_with_matches && state.options.count {
        Err(
            arguments::argument_report(
                "ConflictingOptions"@,
                "rg では --files-with-matches と --count を同時に指定できません"@,
            ),
        )
    } else if state.positional.len() == 0 {
        Err(arguments::argument_report("MissingPattern"@, "rg には検索パターンが必要です"@))
    } else {
        Ok(
            SearchModel {
                pattern: state.positional[0],
                roots: arguments::or_current(state.positional.drop_first()),
                options: state.options,
            },
        )
    }
}

/// The search that arguments ask for, or what is wrong with them.
pub open spec fn parsed_search(args: Seq<Seq<char>>) -> Result<SearchModel, ReportModel> {
    match read_arguments(
        args,
        0,
        ArgumentsModel {
            options: no_options(),
            positional: Seq::empty(),
            options_ended: false,
        },
    ) {
        Err(report) => Err(report),
        Ok(state) => search_of(state),
    }
}

/// The argument behind an option, or the report that there is none.
pub fn next_value<'a>(args: &'a [String], index: &mut usize, option: &str) -> (result: Result<
    &'a String,
    ErrorReport,
>)
    requires
        *old(index) < args.len(),
    ensures
        *final(index) == *old(index) + 1,
        match result {
            Ok(value) => *final(index) < args.len() && value@ == args[*final(index) as int]@,
            Err(problem) => *final(index) == args.len() && problem@ == missing_value(option@),
        },
{
    *index = *index + 1;
    if *index < args.len() {
        return Ok(&args[*index]);
    }
    let message: String = "rg ".to_owned().concat(option).concat(" には値が必要です");
    Err(
        ErrorReport::about(
            "MissingOptionValue",
            "InvalidArgument",
            message,
            option.to_owned(),
        ),
    )
}

fn invalid_value_report(option: &str, value: &str) -> (result: ErrorReport)
    ensures
        result@ == invalid_value(option@, value@),
{
    let message: String = "rg ".to_owned().concat(option).concat(
        " の値は0以上の整数で指定してください: ",
    ).concat(value);
    ErrorReport::about("InvalidOptionValue", "InvalidArgument", message, value.to_owned())
}

/// Reads a number that fits the machine.
pub fn parse_usize(value: &str, option: &str) -> (result: Result<usize, ErrorReport>)
    ensures
        match result {
            Ok(number) => chars::number(value@, usize::MAX as int) == Some(number as int),
            Err(problem) => chars::number(value@, usize::MAX as int) is None && problem@
                == invalid_value(option@, value@),
        },
{
    let characters: Vec<char> = to_chars(value);
    match parse_number(characters.as_slice(), usize::MAX as u64) {
        Some(number) => Ok(number as usize),
        None => Err(invalid_value_report(option, value)),
    }
}

/// Reads a number.
pub fn parse_u64(value: &str, option: &str) -> (result: Result<u64, ErrorReport>)
    ensures
        match result {
            Ok(number) => chars::number(value@, u64::MAX as int) == Some(number as int),
            Err(problem) => chars::number(value@, u64::MAX as int) is None && problem@
                == invalid_value(option@, value@),
        },
{
    let characters: Vec<char> = to_chars(value);
    match parse_number(characters.as_slice(), u64::MAX) {
        Some(number) => Ok(number),
        None => Err(invalid_value_report(option, value)),
    }
}

/// Sets an option that stands alone.
fn set_flag(options: SearchOptions, kind: ArgumentKind) -> (result: SearchOptions)
    ensures
        result@ == with_flag(options@, kind),
{
    SearchOptions {
        line_number: options.line_number || kind == ArgumentKind::LineNumber,
        ignore_case: options.ignore_case || kind == ArgumentKind::IgnoreCase,
        smart_case: options.smart_case || kind == ArgumentKind::SmartCase,
        fixed_strings: options.fixed_strings || kind == ArgumentKind::FixedStrings,
        word_regexp: options.word_regexp || kind == ArgumentKind::WordRegexp,
        line_regexp: options.line_regexp || kind == ArgumentKind::LineRegexp,
        hidden: options.hidden || kind == ArgumentKind::Hidden,
        no_ignore: options.no_ignore || kind == ArgumentKind::NoIgnore,
        follow: options.follow || kind == ArgumentKind::Follow,
        text: options.text || kind == ArgumentKind::Text,
        files_with_matches: options.files_with_matches || kind == ArgumentKind::FilesWithMatches,
        count: options.count || kind == ArgumentKind::Count,
        before_context: options.before_context,
        after_context: options.after_context,
        max_count: options.max_count,
        globs: options.globs,
    }
}

/// Sets a number of lines of context.
fn set_context(options: &mut SearchOptions, kind: ArgumentKind, number: usize)
    ensures
        final(options)@ == with_context(old(options)@, kind, number),
{
    match kind {
        ArgumentKind::AfterContext => {
            options.after_context = number;
        },
        ArgumentKind::BeforeContext => {
            options.before_context = number;
        },
        _ => {
            options.before_context = number;
            options.after_context = number;
        },
    }
}

/// Adds a pattern for paths.
fn add_glob(options: &mut SearchOptions, value: &String)
    ensures
        final(options)@ == (OptionsModel {
            globs: old(options)@.globs.push(value@),
            ..old(options)@
        }),
{
    let ghost globs = text::texts(options.globs@);
    options.globs.push(value.clone());
    assert(text::texts(options.globs@) =~= globs.push(value@));
}

/// Sets an option with its value.
fn set_value(
    options: &mut SearchOptions,
    positional: &mut Vec<String>,
    kind: ArgumentKind,
    option: &str,
    value: &String,
) -> (result: Result<(), ErrorReport>)
    requires
        takes_value(kind),
    ensures
        match with_value(
            ArgumentsModel {
                options: old(options)@,
                positional: text::texts(old(positional)@),
                options_ended: false,
            },
            kind,
            option@,
            value@,
        ) {
            Ok(next) => result is Ok && next == (ArgumentsModel {
                options: final(options)@,
                positional: text::texts(final(positional)@),
                options_ended: false,
            }),
            Err(report) => result matches Err(problem) && problem@ == report,
        },
{
    let ghost found = text::texts(positional@);
    match kind {
        ArgumentKind::Regexp => {
            positional.push(value.clone());
            assert(text::texts(positional@) =~= found.push(value@));
            Ok(())
        },
        ArgumentKind::Glob => {
            add_glob(options, value);
            Ok(())
        },
        ArgumentKind::MaxCount => match parse_u64(value.as_str(), option) {
            Ok(number) => {
                options.max_count = Some(number);
                Ok(())
            },
            Err(problem) => Err(problem),
        },
        _ => match parse_usize(value.as_str(), option) {
            Ok(number) => {
                set_context(options, kind, number);
                Ok(())
            },
            Err(problem) => Err(problem),
        },
    }
}

fn has_value(kind: ArgumentKind) -> (result: bool)
    ensures
        result == takes_value(kind),
{
    match kind {
        ArgumentKind::Regexp => true,
        ArgumentKind::Context => true,
        ArgumentKind::AfterContext => true,
        ArgumentKind::BeforeContext => true,
        ArgumentKind::MaxCount => true,
        ArgumentKind::Glob => true,
        _ => false,
    }
}

/// The search for the options and arguments that were read.
fn finish_request(options: SearchOptions, positional: Vec<String>) -> (result: Result<
    SearchRequest,
    ErrorReport,
>)
    ensures
        forall|options_ended: bool|
            match #[trigger] search_of(
                ArgumentsModel {
                    options: options@,
                    positional: text::texts(positional@),
                    options_ended,
                },
            ) {
                Ok(model) => result matches Ok(request) && request@ == model,
                Err(report) => result matches Err(problem) && problem@ == report,
            },
{
    if options.files_with_matches && options.count {
        return Err(
            ErrorReport::new(
                "ConflictingOptions",
                "InvalidArgument",
                "rg では --files-with-matches と --count を同時に指定できません".to_owned(),
            ),
        );
    }
    let ghost all = text::texts(positional@);
    assert(all.len() == positional.len());
    if positional.len() == 0 {
        return Err(
            ErrorReport::new(
                "MissingPattern",
                "InvalidArgument",
                "rg には検索パターンが必要です".to_owned(),
            ),
        );
    }
    let mut roots: Vec<String> = positional;
    let pattern: String = roots.remove(0);
    assert(text::texts(roots@) =~= all.drop_first());
    if roots.len() == 0 {
        roots.push(".".to_owned());
        assert(text::texts(roots@) =~= seq!["."@]);
    }
    Ok(SearchRequest { pattern, roots, options })
}

/// Reads the arguments of `rg`.
pub fn parse_request(args: &[String]) -> (result: Result<SearchRequest, ErrorReport>)
    ensures
        match parsed_search(text::texts(args@)) {
            Ok(model) => result matches Ok(request) && request@ == model,
            Err(report) => result matches Err(problem) && problem@ == report,
        },
{
    let mut options: SearchOptions = SearchOptions::default();
    let mut positional: Vec<String> = Vec::new();
    let mut options_ended: bool = false;
    let mut index: usize = 0;
    let ghost all = text::texts(args@);
    let ghost start = ArgumentsModel {
        options: no_options(),
        positional: Seq::empty(),
        options_ended: false,
    };
    assert(text::texts(positional@) =~= Seq::<Seq<char>>::empty());
    while index < args.len()
        invariant
            index <= args.len(),
            all == text::texts(args@),
            start == (ArgumentsModel {
                options: no_options(),
                positional: Seq::empty(),
                options_ended: false,
            }),
            read_arguments(all, 0, start) == read_arguments(
                all,
                index as int,
                ArgumentsModel {
                    options: options@,
                    positional: text::texts(positional@),
                    options_ended,
                },
            ),
        decreases args.len() - index,
    {
        let arg: &String = &args[index];
        assert(all[index as int] == arg@);
        let ghost found = text::texts(positional@);
        let kind: ArgumentKind = if options_ended {
            ArgumentKind::Positional
        } else {
            argument_kind(arg.as_str())
        };
        match kind {
            ArgumentKind::EndOfOptions => {
                options_ended = true;
            },
            ArgumentKind::Unknown => {
                let message: String = "rg の不明なオプションです: ".to_owned().concat(arg.as_str());
                return Err(
                    ErrorReport::about("InvalidOption", "InvalidArgument", message, arg.clone()),
                );
            },
            ArgumentKind::Positional => {
                positional.push(arg.clone());
                assert(text::texts(positional@) =~= found.push(arg@));
            },
            _ => {
                if has_value(kind) {
                    let value: &String = match next_value(args, &mut index, arg.as_str()) {
                        Ok(value) => value,
                        Err(problem) => {
                            return Err(problem);
                        },
                    };
                    assert(all[index as int] == value@);
                    match set_value(&mut options, &mut positional, kind, arg.as_str(), value) {
                        Ok(()) => {},
                        Err(problem) => {
                            return Err(problem);
                        },
                    }
                } else {
                    options = set_flag(options, kind);
                }
            },
        }
        index += 1;
    }
    finish_request(options, positional)
}

/// A search that is accepted does not list files and count matches at the same time, and has at
/// least one root.
pub proof fn accepted_searches_are_consistent(args: Seq<Seq<char>>)
    ensures
        parsed_search(args) matches Ok(search) ==> {
            &&& !(search.options.files_with_matches && search.options.count)
            &&& search.roots.len() > 0
        },
{
}

} // verus!
