//! What each argument of `rg` adds to what those before it say, and where it counts.

use vstd::prelude::*;
use crate::chars;
use crate::rg;
use crate::scanner;
use crate::search_args;
use crate::search_args::{ArgumentKind, ArgumentsModel, OptionsModel};
use crate::wire::ReportModel;

verus! {

/// What arguments of `rg` say, one behind the other.
pub open spec fn said(args: Seq<Seq<char>>) -> Result<ArgumentsModel, ReportModel> {
    search_args::read_arguments(
        args,
        0,
        ArgumentsModel {
            options: search_args::no_options(),
            positional: Seq::empty(),
            options_ended: false,
        },
    )
}

proof fn lemma_goes_on(
    args: Seq<Seq<char>>,
    more: Seq<Seq<char>>,
    index: int,
    state: ArgumentsModel,
)
    requires
        0 <= index <= args.len(),
        search_args::read_arguments(args, index, state) is Ok,
    ensures
        search_args::read_arguments(args + more, index, state) == search_args::read_arguments(
            args + more,
            args.len() as int,
            search_args::read_arguments(args, index, state)->Ok_0,
        ),
    decreases args.len() - index,
{
    let all = args + more;
    if index < args.len() {
        let arg = args[index];
        assert(all[index] == arg);
        let kind = if state.options_ended {
            ArgumentKind::Positional
        } else {
            search_args::kind_of(arg)
        };
        if !search_args::takes_value(kind) {
            lemma_goes_on(
                args,
                more,
                index + 1,
                search_args::with_argument(state, kind, arg)->Ok_0,
            );
        } else {
            assert(index + 1 < args.len());
            assert(all[index + 1] == args[index + 1]);
            lemma_goes_on(
                args,
                more,
                index + 2,
                search_args::with_value(state, kind, arg, args[index + 1])->Ok_0,
            );
        }
    }
}

proof fn lemma_one_more(args: Seq<Seq<char>>, arg: Seq<char>)
    requires
        said(args) is Ok,
        !said(args)->Ok_0.options_ended,
        !search_args::takes_value(search_args::kind_of(arg)),
    ensures
        said(args.push(arg)) == search_args::with_argument(
            said(args)->Ok_0,
            search_args::kind_of(arg),
            arg,
        ),
{
    let more = seq![arg];
    let all = args + more;
    assert(all =~= args.push(arg));
    lemma_goes_on(
        args,
        more,
        0,
        ArgumentsModel {
            options: search_args::no_options(),
            positional: Seq::empty(),
            options_ended: false,
        },
    );
    let at = args.len() as int;
    assert(all[at] == arg);
    let state = said(args)->Ok_0;
    match search_args::with_argument(state, search_args::kind_of(arg), arg) {
        Ok(next) => {
            assert(search_args::read_arguments(all, at + 1, next) == Ok::<
                ArgumentsModel,
                ReportModel,
            >(next));
        },
        Err(_) => {},
    }
}

proof fn lemma_two_more(args: Seq<Seq<char>>, option: Seq<char>, value: Seq<char>)
    requires
        said(args) is Ok,
        !said(args)->Ok_0.options_ended,
        search_args::takes_value(search_args::kind_of(option)),
    ensures
        said(args + seq![option, value]) == search_args::with_value(
            said(args)->Ok_0,
            search_args::kind_of(option),
            option,
            value,
        ),
{
    let more = seq![option, value];
    let all = args + more;
    lemma_goes_on(
        args,
        more,
        0,
        ArgumentsModel {
            options: search_args::no_options(),
            positional: Seq::empty(),
            options_ended: false,
        },
    );
    let at = args.len() as int;
    assert(all[at] == option);
    assert(all[at + 1] == value);
    let state = said(args)->Ok_0;
    match search_args::with_value(state, search_args::kind_of(option), option, value) {
        Ok(next) => {
            assert(search_args::read_arguments(all, at + 2, next) == Ok::<
                ArgumentsModel,
                ReportModel,
            >(next));
        },
        Err(_) => {},
    }
}

proof fn lemma_short_words()
    ensures
        "--"@.len() == 2 && "--"@[0] == '-' && "--"@[1] == '-',
        "-n"@.len() == 2 && "-n"@[0] == '-' && "-n"@[1] == 'n',
        "-i"@.len() == 2 && "-i"@[0] == '-' && "-i"@[1] == 'i',
        "-S"@.len() == 2 && "-S"@[0] == '-' && "-S"@[1] == 'S',
        "-F"@.len() == 2 && "-F"@[0] == '-' && "-F"@[1] == 'F',
        "-w"@.len() == 2 && "-w"@[0] == '-' && "-w"@[1] == 'w',
        "-x"@.len() == 2 && "-x"@[0] == '-' && "-x"@[1] == 'x',
        "-L"@.len() == 2 && "-L"@[0] == '-' && "-L"@[1] == 'L',
        "-a"@.len() == 2 && "-a"@[0] == '-' && "-a"@[1] == 'a',
        "-l"@.len() == 2 && "-l"@[0] == '-' && "-l"@[1] == 'l',
        "-c"@.len() == 2 && "-c"@[0] == '-' && "-c"@[1] == 'c',
        "-e"@.len() == 2 && "-e"@[0] == '-' && "-e"@[1] == 'e',
        "-C"@.len() == 2 && "-C"@[0] == '-' && "-C"@[1] == 'C',
        "-A"@.len() == 2 && "-A"@[0] == '-' && "-A"@[1] == 'A',
        "-B"@.len() == 2 && "-B"@[0] == '-' && "-B"@[1] == 'B',
        "-m"@.len() == 2 && "-m"@[0] == '-' && "-m"@[1] == 'm',
        "-g"@.len() == 2 && "-g"@[0] == '-' && "-g"@[1] == 'g',
{
    reveal_strlit("--");
    reveal_strlit("-n");
    reveal_strlit("-i");
    reveal_strlit("-S");
    reveal_strlit("-F");
    reveal_strlit("-w");
    reveal_strlit("-x");
    reveal_strlit("-L");
    reveal_strlit("-a");
    reveal_strlit("-l");
    reveal_strlit("-c");
    reveal_strlit("-e");
    reveal_strlit("-C");
    reveal_strlit("-A");
    reveal_strlit("-B");
    reveal_strlit("-m");
    reveal_strlit("-g");
}

proof fn lemma_long_words()
    ensures
        "--line-number"@.len() == 13 && "--line-number"@[0] == '-' && "--line-number"@[2] == 'l' && "--line-number"@[3] == 'i' && "--line-number"@[7] == 'n',
        "--ignore-case"@.len() == 13 && "--ignore-case"@[0] == '-' && "--ignore-case"@[2] == 'i' && "--ignore-case"@[3] == 'g',
        "--smart-case"@.len() == 12 && "--smart-case"@[0] == '-' && "--smart-case"@[2] == 's' && "--smart-case"@[3] == 'm',
        "--fixed-strings"@.len() == 15 && "--fixed-strings"@[0] == '-' && "--fixed-strings"@[2] == 'f' && "--fixed-strings"@[3] == 'i',
        "--word-regexp"@.len() == 13 && "--word-regexp"@[0] == '-' && "--word-regexp"@[2] == 'w' && "--word-regexp"@[3] == 'o',
        "--line-regexp"@.len() == 13 && "--line-regexp"@[0] == '-' && "--line-regexp"@[2] == 'l' && "--line-regexp"@[3] == 'i' && "--line-regexp"@[7] == 'r',
        "--hidden"@.len() == 8 && "--hidden"@[0] == '-' && "--hidden"@[2] == 'h' && "--hidden"@[3] == 'i',
        "--no-ignore"@.len() == 11 && "--no-ignore"@[0] == '-' && "--no-ignore"@[2] == 'n' && "--no-ignore"@[3] == 'o',
        "--follow"@.len() == 8 && "--follow"@[0] == '-' && "--follow"@[2] == 'f' && "--follow"@[3] == 'o',
        "--text"@.len() == 6 && "--text"@[0] == '-' && "--text"@[2] == 't' && "--text"@[3] == 'e',
        "--files-with-matches"@.len() == 20 && "--files-with-matches"@[0] == '-' && "--files-with-matches"@[2] == 'f' && "--files-with-matches"@[3] == 'i',
        "--count"@.len() == 7 && "--count"@[0] == '-' && "--count"@[2] == 'c' && "--count"@[3] == 'o',
        "--regexp"@.len() == 8 && "--regexp"@[0] == '-' && "--regexp"@[2] == 'r' && "--regexp"@[3] == 'e',
        "--context"@.len() == 9 && "--context"@[0] == '-' && "--context"@[2] == 'c' && "--context"@[3] == 'o',
        "--after-context"@.len() == 15 && "--after-context"@[0] == '-' && "--after-context"@[2] == 'a' && "--after-context"@[3] == 'f',
        "--before-context"@.len() == 16 && "--before-context"@[0] == '-' && "--before-context"@[2] == 'b' && "--before-context"@[3] == 'e',
        "--max-count"@.len() == 11 && "--max-count"@[0] == '-' && "--max-count"@[2] == 'm' && "--max-count"@[3] == 'a',
        "--glob"@.len() == 6 && "--glob"@[0] == '-' && "--glob"@[2] == 'g' && "--glob"@[3] == 'l',
{
    reveal_strlit("--line-number");
    reveal_strlit("--ignore-case");
    reveal_strlit("--smart-case");
    reveal_strlit("--fixed-strings");
    reveal_strlit("--word-regexp");
    reveal_strlit("--line-regexp");
    reveal_strlit("--hidden");
    reveal_strlit("--no-ignore");
    reveal_strlit("--follow");
    reveal_strlit("--text");
    reveal_strlit("--files-with-matches");
    reveal_strlit("--count");
    reveal_strlit("--regexp");
    reveal_strlit("--context");
    reveal_strlit("--after-context");
    reveal_strlit("--before-context");
    reveal_strlit("--max-count");
    reveal_strlit("--glob");
}

proof fn lemma_kinds()
    ensures
        search_args::kind_of("-n"@) == ArgumentKind::LineNumber,
        search_args::kind_of("--line-number"@) == ArgumentKind::LineNumber,
        search_args::kind_of("-i"@) == ArgumentKind::IgnoreCase,
        search_args::kind_of("--ignore-case"@) == ArgumentKind::IgnoreCase,
        search_args::kind_of("-S"@) == ArgumentKind::SmartCase,
        search_args::kind_of("--smart-case"@) == ArgumentKind::SmartCase,
        search_args::kind_of("-F"@) == ArgumentKind::FixedStrings,
        search_args::kind_of("--fixed-strings"@) == ArgumentKind::FixedStrings,
        search_args::kind_of("-w"@) == ArgumentKind::WordRegexp,
        search_args::kind_of("--word-regexp"@) == ArgumentKind::WordRegexp,
        search_args::kind_of("-x"@) == ArgumentKind::LineRegexp,
        search_args::kind_of("--line-regexp"@) == ArgumentKind::LineRegexp,
        search_args::kind_of("--hidden"@) == ArgumentKind::Hidden,
        search_args::kind_of("--no-ignore"@) == ArgumentKind::NoIgnore,
        search_args::kind_of("-L"@) == ArgumentKind::Follow,
        search_args::kind_of("--follow"@) == ArgumentKind::Follow,
        search_args::kind_of("-a"@) == ArgumentKind::Text,
        search_args::kind_of("--text"@) == ArgumentKind::Text,
        search_args::kind_of("-l"@) == ArgumentKind::FilesWithMatches,
        search_args::kind_of("--files-with-matches"@) == ArgumentKind::FilesWithMatches,
        search_args::kind_of("-c"@) == ArgumentKind::Count,
        search_args::kind_of("--count"@) == ArgumentKind::Count,
        search_args::kind_of("-e"@) == ArgumentKind::Regexp,
        search_args::kind_of("--regexp"@) == ArgumentKind::Regexp,
        search_args::kind_of("-C"@) == ArgumentKind::Context,
        search_args::kind_of("--context"@) == ArgumentKind::Context,
        search_args::kind_of("-A"@) == ArgumentKind::AfterContext,
        search_args::kind_of("--after-context"@) == ArgumentKind::AfterContext,
        search_args::kind_of("-B"@) == ArgumentKind::BeforeContext,
        search_args::kind_of("--before-context"@) == ArgumentKind::BeforeContext,
        search_args::kind_of("-m"@) == ArgumentKind::MaxCount,
        search_args::kind_of("--max-count"@) == ArgumentKind::MaxCount,
        search_args::kind_of("-g"@) == ArgumentKind::Glob,
        search_args::kind_of("--glob"@) == ArgumentKind::Glob,
        search_args::kind_of("--"@) == ArgumentKind::EndOfOptions,
{
    reveal(search_args::kind_of);
    lemma_short_words();
    lemma_long_words();
}

/// Behind arguments of `rg` that are accepted and do not end the options, an option that stands alone sets
/// what it is for, under its short name and its long one, and nothing else.
#[verifier::rlimit(60)]
pub proof fn each_option_sets_its_own(args: Seq<Seq<char>>, state: ArgumentsModel, option: Seq<char>)
    requires
        said(args) == Ok::<ArgumentsModel, ReportModel>(state),
        !state.options_ended,
    ensures
        option == "-n"@ || option == "--line-number"@ ==> said(args.push(option)) == Ok::<ArgumentsModel, ReportModel>(
            ArgumentsModel {
                options: OptionsModel { line_number: true, ..state.options },
                ..state
            },
        ),
        option == "-i"@ || option == "--ignore-case"@ ==> said(args.push(option)) == Ok::<ArgumentsModel, ReportModel>(
            ArgumentsModel {
                options: OptionsModel { ignore_case: true, ..state.options },
                ..state
            },
        ),
        option == "-S"@ || option == "--smart-case"@ ==> said(args.push(option)) == Ok::<ArgumentsModel, ReportModel>(
            ArgumentsModel {
                options: OptionsModel { smart_case: true, ..state.options },
                ..state
            },
        ),
        option == "-F"@ || option == "--fixed-strings"@ ==> said(args.push(option)) == Ok::<ArgumentsModel, ReportModel>(
            ArgumentsModel {
                options: OptionsModel { fixed_strings: true, ..state.options },
                ..state
            },
        ),
        option == "-w"@ || option == "--word-regexp"@ ==> said(args.push(option)) == Ok::<ArgumentsModel, ReportModel>(
            ArgumentsModel {
                options: OptionsModel { word_regexp: true, ..state.options },
                ..state
            },
        ),
        option == "-x"@ || option == "--line-regexp"@ ==> said(args.push(option)) == Ok::<ArgumentsModel, ReportModel>(
            ArgumentsModel {
                options: OptionsModel { line_regexp: true, ..state.options },
                ..state
            },
        ),
        option == "--hidden"@ ==> said(args.push(option)) == Ok::<ArgumentsModel, ReportModel>(
            ArgumentsModel {
                options: OptionsModel { hidden: true, ..state.options },
                ..state
            },
        ),
        option == "--no-ignore"@ ==> said(args.push(option)) == Ok::<ArgumentsModel, ReportModel>(
            ArgumentsModel {
                options: OptionsModel { no_ignore: true, ..state.options },
                ..state
            },
        ),
        option == "-L"@ || option == "--follow"@ ==> said(args.push(option)) == Ok::<ArgumentsModel, ReportModel>(
            ArgumentsModel {
                options: OptionsModel { follow: true, ..state.options },
                ..state
            },
        ),
        option == "-a"@ || option == "--text"@ ==> said(args.push(option)) == Ok::<ArgumentsModel, ReportModel>(
            ArgumentsModel {
                options: OptionsModel { text: true, ..state.options },
                ..state
            },
        ),
        option == "-l"@ || option == "--files-with-matches"@ ==> said(args.push(option)) == Ok::<ArgumentsModel, ReportModel>(
            ArgumentsModel {
                options: OptionsModel { files_with_matches: true, ..state.options },
                ..state
            },
        ),
        option == "-c"@ || option == "--count"@ ==> said(args.push(option)) == Ok::<ArgumentsModel, ReportModel>(
            ArgumentsModel {
                options: OptionsModel { count: true, ..state.options },
                ..state
            },
        ),
        option == "--"@ ==> said(args.push(option)) == Ok::<ArgumentsModel, ReportModel>(
            ArgumentsModel { options_ended: true, ..state },
        ),
{
    lemma_kinds();
    if !search_args::takes_value(search_args::kind_of(option)) {
        lemma_one_more(args, option);
    }
}

/// Behind arguments of `rg` that are accepted and do not end the options, an option with a value sets what
/// it is for to that value, under its short name and its long one, and nothing else. `-A` is for the
/// lines behind a match, `-B` for those before it and `-C` for both; a pattern given by `-e` stands as one
/// that is given without it.
pub proof fn each_option_takes_its_value(
    args: Seq<Seq<char>>,
    state: ArgumentsModel,
    option: Seq<char>,
    number: nat,
    text: Seq<char>,
)
    requires
        said(args) == Ok::<ArgumentsModel, ReportModel>(state),
        !state.options_ended,
        number <= usize::MAX,
    ensures
        option == "-A"@ || option == "--after-context"@ ==> said(
            args + seq![option, chars::decimal(number)],
        ) == Ok::<ArgumentsModel, ReportModel>(
            ArgumentsModel {
                options: OptionsModel { after_context: number as usize, ..state.options },
                ..state
            },
        ),
        option == "-B"@ || option == "--before-context"@ ==> said(
            args + seq![option, chars::decimal(number)],
        ) == Ok::<ArgumentsModel, ReportModel>(
            ArgumentsModel {
                options: OptionsModel { before_context: number as usize, ..state.options },
                ..state
            },
        ),
        option == "-C"@ || option == "--context"@ ==> said(
            args + seq![option, chars::decimal(number)],
        ) == Ok::<ArgumentsModel, ReportModel>(
            ArgumentsModel {
                options: OptionsModel {
                    before_context: number as usize,
                    after_context: number as usize,
                    ..state.options
                },
                ..state
            },
        ),
        option == "-m"@ || option == "--max-count"@ ==> said(
            args + seq![option, chars::decimal(number)],
        ) == Ok::<ArgumentsModel, ReportModel>(
            ArgumentsModel {
                options: OptionsModel { max_count: Some(number as u64), ..state.options },
                ..state
            },
        ),
        option == "-g"@ || option == "--glob"@ ==> said(args + seq![option, text]) == Ok::<
            ArgumentsModel,
            ReportModel,
        >(
            ArgumentsModel {
                options: OptionsModel {
                    globs: state.options.globs.push(text),
                    ..state.options
                },
                ..state
            },
        ),
        option == "-e"@ || option == "--regexp"@ ==> said(args + seq![option, text]) == Ok::<
            ArgumentsModel,
            ReportModel,
        >(ArgumentsModel { positional: state.positional.push(text), ..state }),
{
    lemma_kinds();
    chars::decimal_reads_back(number, usize::MAX as int);
    chars::decimal_reads_back(number, u64::MAX as int);
    if search_args::takes_value(search_args::kind_of(option)) {
        lemma_two_more(args, option, text);
        lemma_two_more(args, option, chars::decimal(number));
    }
}

/// A value that is no number, and a missing one, are refused.
pub proof fn values_must_be_numbers(
    args: Seq<Seq<char>>,
    state: ArgumentsModel,
    option: Seq<char>,
    text: Seq<char>,
    place: int,
)
    requires
        said(args) == Ok::<ArgumentsModel, ReportModel>(state),
        !state.options_ended,
        option == "-A"@ || option == "-B"@ || option == "-C"@ || option == "-m"@,
        text.len() == 0 || 0 <= place < text.len() && !('0' as int <= text[place] as int <= '9' as int)
            && (place > 0 || text[place] != '+'),
    ensures
        said(args + seq![option, text]) is Err,
        said(args.push(option)) is Err,
{
    lemma_kinds();
    lemma_two_more(args, option, text);
    lemma_missing(args, option);
    lemma_no_number(text, place, usize::MAX as int);
    lemma_no_number(text, place, u64::MAX as int);
}

proof fn lemma_no_number(text: Seq<char>, place: int, maximum: int)
    requires
        text.len() == 0 || 0 <= place < text.len() && !('0' as int <= text[place] as int <= '9' as int)
            && (place > 0 || text[place] != '+'),
    ensures
        chars::number(text, maximum) is None,
{
    let digits = chars::without_plus(text);
    if text.len() > 0 {
        lemma_no_digit(text[place]);
        if text[0] == '+' {
            assert(digits[place - 1] == text[place]);
        } else {
            assert(digits[place] == text[place]);
        }
    }
}

proof fn lemma_no_digit(value: char)
    requires
        !('0' as int <= value as int <= '9' as int),
    ensures
        !chars::is_digit(value),
{
}

proof fn lemma_missing(args: Seq<Seq<char>>, option: Seq<char>)
    requires
        said(args) is Ok,
        !said(args)->Ok_0.options_ended,
        search_args::takes_value(search_args::kind_of(option)),
    ensures
        said(args.push(option)) is Err,
{
    let more = seq![option];
    let all = args + more;
    assert(all =~= args.push(option));
    lemma_goes_on(
        args,
        more,
        0,
        ArgumentsModel {
            options: search_args::no_options(),
            positional: Seq::empty(),
            options_ended: false,
        },
    );
    assert(all[args.len() as int] == option);
}

/// An argument without a hyphen in first place is no option, and behind `--` none is.
pub proof fn other_arguments_stand_for_themselves(
    args: Seq<Seq<char>>,
    state: ArgumentsModel,
    arg: Seq<char>,
)
    requires
        said(args) == Ok::<ArgumentsModel, ReportModel>(state),
        state.options_ended || arg.len() == 0 || arg[0] != '-',
    ensures
        said(args.push(arg)) == Ok::<ArgumentsModel, ReportModel>(
            ArgumentsModel { positional: state.positional.push(arg), ..state },
        ),
{
    let more = seq![arg];
    let all = args + more;
    assert(all =~= args.push(arg));
    lemma_goes_on(
        args,
        more,
        0,
        ArgumentsModel {
            options: search_args::no_options(),
            positional: Seq::empty(),
            options_ended: false,
        },
    );
    if !state.options_ended {
        reveal(search_args::kind_of);
        lemma_short_words();
        lemma_long_words();
        assert(search_args::kind_of(arg) is Positional);
    }
    let at = args.len() as int;
    assert(all[at] == arg);
    let next = ArgumentsModel { positional: state.positional.push(arg), ..state };
    assert(search_args::read_arguments(all, at + 1, next) == Ok::<ArgumentsModel, ReportModel>(next));
}

/// An option that there is not is refused.
pub proof fn unknown_options_are_refused(
    args: Seq<Seq<char>>,
    state: ArgumentsModel,
    arg: Seq<char>,
)
    requires
        said(args) == Ok::<ArgumentsModel, ReportModel>(state),
        !state.options_ended,
        arg.len() > 0,
        arg[0] == '-',
        arg != "--"@,
        arg != "-n"@,
        arg != "--line-number"@,
        arg != "-i"@,
        arg != "--ignore-case"@,
        arg != "-S"@,
        arg != "--smart-case"@,
        arg != "-F"@,
        arg != "--fixed-strings"@,
        arg != "-w"@,
        arg != "--word-regexp"@,
        arg != "-x"@,
        arg != "--line-regexp"@,
        arg != "--hidden"@,
        arg != "--no-ignore"@,
        arg != "-L"@,
        arg != "--follow"@,
        arg != "-a"@,
        arg != "--text"@,
        arg != "-l"@,
        arg != "--files-with-matches"@,
        arg != "-c"@,
        arg != "--count"@,
        arg != "-e"@,
        arg != "--regexp"@,
        arg != "-C"@,
        arg != "--context"@,
        arg != "-A"@,
        arg != "--after-context"@,
        arg != "-B"@,
        arg != "--before-context"@,
        arg != "-m"@,
        arg != "--max-count"@,
        arg != "-g"@,
        arg != "--glob"@,
    ensures
        said(args.push(arg)) is Err,
{
    reveal(search_args::kind_of);
    assert(search_args::kind_of(arg) is Unknown);
    lemma_one_more(args, arg);
}

/// The first argument of `rg` that is no option is the pattern, and the others are the roots, in their
/// order; the current directory is the root where there is none. Without a pattern there is no search, nor
/// where both files and counts are asked for.
pub proof fn first_argument_is_the_pattern(args: Seq<Seq<char>>)
    ensures
        match (said(args), search_args::parsed_search(args)) {
            (Err(_), found) => found is Err,
            (Ok(state), Ok(search)) => {
                &&& state.positional.len() > 0
                &&& search.pattern == state.positional[0]
                &&& search.roots == if state.positional.len() == 1 {
                    seq!["."@]
                } else {
                    state.positional.subrange(1, state.positional.len() as int)
                }
                &&& search.options == state.options
                &&& !(state.options.files_with_matches && state.options.count)
            },
            (Ok(state), Err(_)) => state.positional.len() == 0 || state.options.files_with_matches
                && state.options.count,
        },
{
}

/// Without options a search counts case, reads all lines as they are, shows no numbers and no lines
/// around matches, and has no limit.
pub proof fn search_without_options(options: OptionsModel)
    requires
        said(Seq::empty()) matches Ok(state) && options == state.options,
    ensures
        !options.line_number,
        !options.ignore_case,
        !options.smart_case,
        !options.fixed_strings,
        !options.word_regexp,
        !options.line_regexp,
        options.before_context == 0,
        options.after_context == 0,
        options.max_count is None,
        options.globs.len() == 0,
        !options.hidden,
        !options.no_ignore,
        !options.follow,
        !options.text,
        !options.files_with_matches,
        !options.count,
        said(Seq::empty())->Ok_0.positional.len() == 0,
{
}

/// Each option counts where it is for: those on the pattern for the matcher, and those on lines for the
/// search of a file.
pub proof fn options_count_where_they_are_for(options: OptionsModel)
    ensures
        ({
            let matcher = rg::matcher_options(options);
            let scan = scanner::scanner_options(options);
            &&& matcher.ignore_case == options.ignore_case
            &&& matcher.smart_case == options.smart_case
            &&& matcher.fixed_strings == options.fixed_strings
            &&& matcher.word_regexp == options.word_regexp
            &&& matcher.line_regexp == options.line_regexp
            &&& matcher.text == options.text
            &&& scan.before_context == options.before_context
            &&& scan.after_context == options.after_context
            &&& scan.max_matches == options.max_count
            &&& scan.binary_detection is Text == options.text
            &&& scan.mode is Count == options.count
            &&& scan.mode is FilesWithMatches == (options.files_with_matches && !options.count)
        }),
{
}

} // verus!
