//! The arguments of the file commands.

use vstd::prelude::*;
use crate::chars;
use crate::chars::{same_text, to_chars};
use crate::lines;
use crate::lines::{parse_sed_print_script, SedLineRange};
use crate::text;
use crate::wire::{ErrorReport, ReportModel};

verus! {

/// Whether an argument starts with a hyphen.
pub open spec fn is_option(arg: Seq<char>) -> bool {
    arg.len() > 0 && arg[0] == '-'
}

/// Whether an argument starts with a hyphen.
pub fn starts_with_hyphen(arg: &str) -> (result: bool)
    ensures
        result == is_option(arg@),
{
    let characters: Vec<char> = to_chars(arg);
    characters.len() > 0 && characters[0] == '-'
}

/// A report about the arguments of a command.
pub open spec fn argument_report(code: Seq<char>, message: Seq<char>) -> ReportModel {
    ReportModel { code, category: "InvalidArgument"@, message, path: None }
}

/// A report about the arguments of a command.
fn report(code: &str, message: String) -> (result: ErrorReport)
    ensures
        result@ == argument_report(code@, message@),
{
    ErrorReport::new(code, "InvalidArgument", message)
}

/// A fixed message with an argument behind it.
fn message_with(message: &str, arg: &str) -> (result: String)
    ensures
        result@ == message@ + arg@,
{
    message.to_owned().concat(arg)
}

/// What reports say.
pub open spec fn report_models(reports: Seq<ErrorReport>) -> Seq<ReportModel> {
    Seq::new(reports.len(), |i: int| reports[i]@)
}

/// The paths, or the current directory where there are none.
pub open spec fn or_current(paths: Seq<Seq<char>>) -> Seq<Seq<char>> {
    if paths.len() == 0 {
        seq!["."@]
    } else {
        paths
    }
}

/// The current directory where there are no paths.
fn paths_or_current(paths: Vec<String>) -> (result: Vec<String>)
    ensures
        text::texts(result@) == or_current(text::texts(paths@)),
{
    let mut paths: Vec<String> = paths;
    if paths.len() == 0 {
        paths.push(".".to_owned());
        assert(text::texts(paths@) =~= seq!["."@]);
    }
    paths
}

/// What `ls` is to do. The reports come first.
#[derive(Debug)]
pub struct LsPlan {
    pub reports: Vec<ErrorReport>,
    pub show_all: bool,
    pub recursive: bool,
    pub paths: Vec<String>,
}

/// What `ls` is to do.
pub struct LsModel {
    pub reports: Seq<ReportModel>,
    pub show_all: bool,
    pub recursive: bool,
    pub paths: Seq<Seq<char>>,
    pub options_ended: bool,
}

/// What the arguments of `ls` say. An option that there is not is reported and passed over.
pub open spec fn ls_arguments(args: Seq<Seq<char>>) -> LsModel
    decreases args.len(),
{
    if args.len() == 0 {
        LsModel {
            reports: Seq::empty(),
            show_all: false,
            recursive: false,
            paths: Seq::empty(),
            options_ended: false,
        }
    } else {
        let before = ls_arguments(args.drop_last());
        let arg = args.last();
        if !before.options_ended && arg == "--"@ {
            LsModel { options_ended: true, ..before }
        } else if !before.options_ended && (arg == "-a"@ || arg == "--all"@) {
            LsModel { show_all: true, ..before }
        } else if !before.options_ended && (arg == "-R"@ || arg == "--recursive"@) {
            LsModel { recursive: true, ..before }
        } else if !before.options_ended && is_option(arg) {
            LsModel {
                reports: before.reports.push(
                    argument_report(
                        "InvalidOption"@,
                        "ls の不明なオプションです: "@ + arg,
                    ),
                ),
                ..before
            }
        } else {
            LsModel { paths: before.paths.push(arg), ..before }
        }
    }
}

/// Reads the arguments of `ls`.
pub fn ls_plan(args: &[String]) -> (result: LsPlan)
    ensures
        ({
            let model = ls_arguments(text::texts(args@));
            &&& report_models(result.reports@) == model.reports
            &&& result.show_all == model.show_all
            &&& result.recursive == model.recursive
            &&& text::texts(result.paths@) == or_current(model.paths)
        }),
{
    let mut reports: Vec<ErrorReport> = Vec::new();
    let mut show_all: bool = false;
    let mut recursive: bool = false;
    let mut options_ended: bool = false;
    let mut paths: Vec<String> = Vec::new();
    let mut index: usize = 0;
    let ghost all = text::texts(args@);
    assert(report_models(reports@) =~= Seq::<ReportModel>::empty());
    assert(text::texts(paths@) =~= Seq::<Seq<char>>::empty());
    while index < args.len()
        invariant
            index <= args.len(),
            all == text::texts(args@),
            ls_arguments(all.subrange(0, index as int)) == (LsModel {
                reports: report_models(reports@),
                show_all,
                recursive,
                paths: text::texts(paths@),
                options_ended,
            }),
        decreases args.len() - index,
    {
        let arg: &str = args[index].as_str();
        let ghost told = report_models(reports@);
        let ghost found = text::texts(paths@);
        proof {
            let here = all.subrange(0, index + 1);
            assert(here.last() == arg@);
            assert(here.drop_last() =~= all.subrange(0, index as int));
        }
        if !options_ended && same_text(arg, "--") {
            options_ended = true;
        } else if !options_ended && (same_text(arg, "-a") || same_text(arg, "--all")) {
            show_all = true;
        } else if !options_ended && (same_text(arg, "-R") || same_text(arg, "--recursive")) {
            recursive = true;
        } else if !options_ended && starts_with_hyphen(arg) {
            let problem: ErrorReport = report(
                "InvalidOption",
                message_with("ls の不明なオプションです: ", arg),
            );
            let ghost model = problem@;
            reports.push(problem);
            assert(report_models(reports@) =~= told.push(model));
        } else {
            paths.push(arg.to_owned());
            assert(text::texts(paths@) =~= found.push(arg@));
        }
        index += 1;
    }
    assert(all.subrange(0, args.len() as int) =~= all);
    LsPlan { reports, show_all, recursive, paths: paths_or_current(paths) }
}

/// The arguments that are not `--`.
pub open spec fn without_dashes(args: Seq<Seq<char>>) -> Seq<Seq<char>>
    decreases args.len(),
{
    if args.len() == 0 {
        Seq::empty()
    } else if args.last() == "--"@ {
        without_dashes(args.drop_last())
    } else {
        without_dashes(args.drop_last()).push(args.last())
    }
}

fn drop_dashes(args: &[String]) -> (result: Vec<String>)
    ensures
        text::texts(result@) == without_dashes(text::texts(args@)),
{
    let mut paths: Vec<String> = Vec::new();
    let mut index: usize = 0;
    let ghost all = text::texts(args@);
    assert(text::texts(paths@) =~= Seq::<Seq<char>>::empty());
    while index < args.len()
        invariant
            index <= args.len(),
            all == text::texts(args@),
            text::texts(paths@) == without_dashes(all.subrange(0, index as int)),
        decreases args.len() - index,
    {
        let arg: &str = args[index].as_str();
        let ghost found = text::texts(paths@);
        proof {
            let here = all.subrange(0, index + 1);
            assert(here.last() == arg@);
            assert(here.drop_last() =~= all.subrange(0, index as int));
        }
        if !same_text(arg, "--") {
            paths.push(arg.to_owned());
            assert(text::texts(paths@) =~= found.push(arg@));
        }
        index += 1;
    }
    assert(all.subrange(0, args.len() as int) =~= all);
    paths
}

/// Reads the arguments of `touch`: the paths, or the report that there are none.
pub fn touch_plan(args: &[String]) -> (result: Result<Vec<String>, ErrorReport>)
    ensures
        match result {
            Ok(paths) => text::texts(paths@) == without_dashes(text::texts(args@)) && paths@.len()
                > 0,
            Err(problem) => without_dashes(text::texts(args@)).len() == 0 && problem@
                == argument_report(
                "MissingPath"@,
                "touch には少なくとも一つのパスが必要です"@,
            ),
        },
{
    let paths: Vec<String> = drop_dashes(args);
    assert(text::texts(paths@).len() == paths.len());
    if paths.len() == 0 {
        return Err(
            report(
                "MissingPath",
                "touch には少なくとも一つのパスが必要です".to_owned(),
            ),
        );
    }
    Ok(paths)
}

/// Reads the arguments of `cat`: the paths, or the report that there are none.
pub fn cat_plan(args: &[String]) -> (result: Result<Vec<String>, ErrorReport>)
    ensures
        match result {
            Ok(paths) => text::texts(paths@) == without_dashes(text::texts(args@)) && paths@.len()
                > 0,
            Err(problem) => without_dashes(text::texts(args@)).len() == 0 && problem@
                == argument_report(
                "MissingPath"@,
                "cat には少なくとも一つのパスが必要です"@,
            ),
        },
{
    let paths: Vec<String> = drop_dashes(args);
    assert(text::texts(paths@).len() == paths.len());
    if paths.len() == 0 {
        return Err(
            report(
                "MissingPath",
                "cat には少なくとも一つのパスが必要です".to_owned(),
            ),
        );
    }
    Ok(paths)
}

/// The report for a path that stands for standard input, which `cat` and `sed` do not read.
pub fn standard_input_report(path: &str) -> (result: Option<ErrorReport>)
    ensures
        match result {
            Some(problem) => path@ == "-"@ && problem@ == (ReportModel {
                code: "UnsupportedStandardInput"@,
                category: "InvalidArgument"@,
                message: "標準入力には '-' ではなく PowerShell パイプラインを使用してください"@,
                path: Some(path@),
            }),
            None => path@ != "-"@,
        },
{
    if same_text(path, "-") {
        Some(
            ErrorReport::about(
                "UnsupportedStandardInput",
                "InvalidArgument",
                "標準入力には '-' ではなく PowerShell パイプラインを使用してください".to_owned(),
                path.to_owned(),
            ),
        )
    } else {
        None
    }
}

/// What `find -type` asks for.
#[derive(Clone, Copy, Debug, PartialEq, Eq, Structural)]
pub enum KindFilter {
    File,
    Directory,
    Symlink,
}

/// What `find` looks for.
#[derive(Debug)]
pub struct FindSearch {
    pub roots: Vec<String>,
    pub name_pattern: String,
    pub kind_filter: Option<KindFilter>,
}

/// What `find` is to do: the reports first and then the search, if it gets that far.
#[derive(Debug)]
pub struct FindPlan {
    pub reports: Vec<ErrorReport>,
    pub search: Option<FindSearch>,
}

/// What the arguments of `find` say from `index` on.
pub struct FindModel {
    pub reports: Seq<ReportModel>,
    pub roots: Seq<Seq<char>>,
    pub name_pattern: Seq<char>,
    pub kind_filter: Option<KindFilter>,
    /// Whether the search goes ahead.
    pub goes: bool,
}

/// The filter of a letter.
pub open spec fn filter_of(value: Seq<char>) -> Option<KindFilter> {
    if value == "f"@ {
        Some(KindFilter::File)
    } else if value == "d"@ {
        Some(KindFilter::Directory)
    } else if value == "l"@ {
        Some(KindFilter::Symlink)
    } else {
        None
    }
}

/// A state in which the search does not go ahead, with the reason.
pub open spec fn find_stops(state: FindModel, report: ReportModel) -> FindModel {
    FindModel { reports: state.reports.push(report), goes: false, ..state }
}

/// What the arguments of `find` say from `index` on, given what those before said. The value of
/// `-name` and of `-type` is the argument behind it; an option that there is not is reported and
/// passed over, and a missing or wrong value ends the command.
pub open spec fn find_arguments(args: Seq<Seq<char>>, index: int, state: FindModel) -> FindModel
    decreases args.len() - index,
{
    if index >= args.len() {
        state
    } else {
        let arg = args[index];
        if arg == "-name"@ || arg == "--name"@ {
            if index + 1 >= args.len() {
                find_stops(
                    state,
                    argument_report(
                        "MissingPattern"@,
                        "find -name にはパターンが必要です"@,
                    ),
                )
            } else {
                find_arguments(
                    args,
                    index + 2,
                    FindModel { name_pattern: args[index + 1], ..state },
                )
            }
        } else if arg == "-type"@ || arg == "--type"@ {
            if index + 1 >= args.len() {
                find_stops(
                    state,
                    argument_report(
                        "MissingType"@,
                        "find -type には f、d、l のいずれかが必要です"@,
                    ),
                )
            } else {
                match filter_of(args[index + 1]) {
                    Some(filter) => find_arguments(
                        args,
                        index + 2,
                        FindModel { kind_filter: Some(filter), ..state },
                    ),
                    None => find_stops(
                        state,
                        argument_report(
                            "InvalidType"@,
                            "find -type の値が不正です: "@ + args[index + 1],
                        ),
                    ),
                }
            }
        } else if arg == "--"@ {
            find_arguments(args, index + 1, state)
        } else if is_option(arg) {
            find_arguments(
                args,
                index + 1,
                FindModel {
                    reports: state.reports.push(
                        argument_report(
                            "InvalidOption"@,
                            "find の不明なオプションです: "@ + arg,
                        ),
                    ),
                    ..state
                },
            )
        } else {
            find_arguments(args, index + 1, FindModel { roots: state.roots.push(arg), ..state })
        }
    }
}

/// What the arguments of `find` say.
pub open spec fn find_request(args: Seq<Seq<char>>) -> FindModel {
    find_arguments(
        args,
        0,
        FindModel {
            reports: Seq::empty(),
            roots: Seq::empty(),
            name_pattern: "*"@,
            kind_filter: None,
            goes: true,
        },
    )
}

/// A plan that ends with a report.
fn find_ended(reports: Vec<ErrorReport>, problem: ErrorReport) -> (result: FindPlan)
    ensures
        result.search is None,
        report_models(result.reports@) == report_models(reports@).push(problem@),
{
    let mut reports: Vec<ErrorReport> = reports;
    let ghost told = report_models(reports@);
    let ghost model = problem@;
    reports.push(problem);
    assert(report_models(reports@) =~= told.push(model));
    FindPlan { reports, search: None }
}

/// Reads the arguments of `find`.
pub fn find_plan(args: &[String]) -> (result: FindPlan)
    ensures
        ({
            let model = find_request(text::texts(args@));
            &&& report_models(result.reports@) == model.reports
            &&& match result.search {
                Some(search) => {
                    &&& model.goes
                    &&& text::texts(search.roots@) == or_current(model.roots)
                    &&& search.name_pattern@ == model.name_pattern
                    &&& search.kind_filter == model.kind_filter
                },
                None => !model.goes,
            }
        }),
{
    let mut reports: Vec<ErrorReport> = Vec::new();
    let mut roots: Vec<String> = Vec::new();
    let mut name_pattern: String = "*".to_owned();
    let mut kind_filter: Option<KindFilter> = None;
    let mut index: usize = 0;
    let ghost all = text::texts(args@);
    assert(report_models(reports@) =~= Seq::<ReportModel>::empty());
    assert(text::texts(roots@) =~= Seq::<Seq<char>>::empty());
    while index < args.len()
        invariant
            index <= args.len(),
            all == text::texts(args@),
            find_request(all) == find_arguments(
                all,
                index as int,
                FindModel {
                    reports: report_models(reports@),
                    roots: text::texts(roots@),
                    name_pattern: name_pattern@,
                    kind_filter,
                    goes: true,
                },
            ),
        decreases args.len() - index,
    {
        let arg: &str = args[index].as_str();
        assert(all[index as int] == arg@);
        let ghost told = report_models(reports@);
        let ghost found = text::texts(roots@);
        if same_text(arg, "-name") || same_text(arg, "--name") {
            if index + 1 >= args.len() {
                return find_ended(
                    reports,
                    report(
                        "MissingPattern",
                        "find -name にはパターンが必要です".to_owned(),
                    ),
                );
            }
            assert(all[index + 1] == args[index + 1]@);
            name_pattern = args[index + 1].clone();
            index += 2;
        } else if same_text(arg, "-type") || same_text(arg, "--type") {
            if index + 1 >= args.len() {
                return find_ended(
                    reports,
                    report(
                        "MissingType",
                        "find -type には f、d、l のいずれかが必要です".to_owned(),
                    ),
                );
            }
            assert(all[index + 1] == args[index + 1]@);
            let value: &str = args[index + 1].as_str();
            if same_text(value, "f") {
                kind_filter = Some(KindFilter::File);
            } else if same_text(value, "d") {
                kind_filter = Some(KindFilter::Directory);
            } else if same_text(value, "l") {
                kind_filter = Some(KindFilter::Symlink);
            } else {
                return find_ended(
                    reports,
                    report(
                        "InvalidType",
                        message_with("find -type の値が不正です: ", value),
                    ),
                );
            }
            index += 2;
        } else if same_text(arg, "--") {
            index += 1;
        } else if starts_with_hyphen(arg) {
            let problem: ErrorReport = report(
                "InvalidOption",
                message_with("find の不明なオプションです: ", arg),
            );
            let ghost model = problem@;
            reports.push(problem);
            assert(report_models(reports@) =~= told.push(model));
            index += 1;
        } else {
            roots.push(arg.to_owned());
            assert(text::texts(roots@) =~= found.push(arg@));
            index += 1;
        }
    }
    FindPlan {
        reports,
        search: Some(
            FindSearch { roots: paths_or_current(roots), name_pattern, kind_filter },
        ),
    }
}

/// What `sed` is to do.
#[derive(Debug)]
pub struct SedPlan {
    pub range: SedLineRange,
    pub paths: Vec<String>,
}

/// What the arguments of `sed` say, up to an option that there is not.
pub struct SedModel {
    pub script: Option<Seq<char>>,
    pub paths: Seq<Seq<char>>,
    pub options_ended: bool,
    pub refused: Option<Seq<char>>,
}

/// What the arguments of `sed` say: the first that is no option is the script, and the others are
/// paths.
pub open spec fn sed_arguments(args: Seq<Seq<char>>) -> SedModel
    decreases args.len(),
{
    if args.len() == 0 {
        SedModel { script: None, paths: Seq::empty(), options_ended: false, refused: None }
    } else {
        let before = sed_arguments(args.drop_last());
        let arg = args.last();
        if before.refused is Some {
            before
        } else if !before.options_ended && arg == "--"@ {
            SedModel { options_ended: true, ..before }
        } else if !before.options_ended && arg == "-n"@ {
            before
        } else if !before.options_ended && is_option(arg) {
            SedModel { refused: Some(arg), ..before }
        } else if before.script is None {
            SedModel { script: Some(arg), ..before }
        } else {
            SedModel { paths: before.paths.push(arg), ..before }
        }
    }
}

/// What `sed` is to do, or the report that ends it.
pub open spec fn sed_request(args: Seq<Seq<char>>) -> Result<
    (SedLineRange, Seq<Seq<char>>),
    ReportModel,
> {
    let model = sed_arguments(args);
    match model.refused {
        Some(arg) => Err(
            argument_report("InvalidOption"@, "sed の不明なオプションです: "@ + arg),
        ),
        None => match model.script {
            None => Err(
                argument_report(
                    "MissingScript"@,
                    "sed には '10,20p' のような表示範囲が必要です"@,
                ),
            ),
            Some(script) => match lines::parsed_script(script) {
                Err(message) => Err(
                    ReportModel {
                        code: "InvalidScript"@,
                        category: "InvalidArgument"@,
                        message,
                        path: Some(script),
                    },
                ),
                Ok(range) => if model.paths.len() == 0 {
                    Err(
                        argument_report(
                            "MissingPath"@,
                            "sed には少なくとも一つのパスが必要です"@,
                        ),
                    )
                } else {
                    Ok((range, model.paths))
                },
            },
        },
    }
}

/// An option that is refused stays refused.
proof fn lemma_sed_refused(args: Seq<Seq<char>>, count: int)
    requires
        0 <= count <= args.len(),
        sed_arguments(args.subrange(0, count)).refused is Some,
    ensures
        sed_arguments(args) == sed_arguments(args.subrange(0, count)),
    decreases args.len() - count,
{
    if count < args.len() {
        let next = args.subrange(0, count + 1);
        assert(next.drop_last() =~= args.subrange(0, count));
        lemma_sed_refused(args, count + 1);
    } else {
        assert(args.subrange(0, count) =~= args);
    }
}

/// Reads the arguments of `sed`.
pub fn sed_plan(args: &[String]) -> (result: Result<SedPlan, ErrorReport>)
    ensures
        match result {
            Ok(plan) => sed_request(text::texts(args@)) == Ok::<
                (SedLineRange, Seq<Seq<char>>),
                ReportModel,
            >((plan.range, text::texts(plan.paths@))),
            Err(problem) => sed_request(text::texts(args@)) == Err::<
                (SedLineRange, Seq<Seq<char>>),
                ReportModel,
            >(problem@),
        },
{
    let mut script: Option<String> = None;
    let mut paths: Vec<String> = Vec::new();
    let mut options_ended: bool = false;
    let mut index: usize = 0;
    let ghost all = text::texts(args@);
    assert(text::texts(paths@) =~= Seq::<Seq<char>>::empty());
    while index < args.len()
        invariant
            index <= args.len(),
            all == text::texts(args@),
            sed_arguments(all.subrange(0, index as int)) == (SedModel {
                script: text::optional_text(script),
                paths: text::texts(paths@),
                options_ended,
                refused: None,
            }),
        decreases args.len() - index,
    {
        let arg: &str = args[index].as_str();
        let ghost found = text::texts(paths@);
        proof {
            let here = all.subrange(0, index + 1);
            assert(here.last() == arg@);
            assert(here.drop_last() =~= all.subrange(0, index as int));
        }
        if !options_ended && same_text(arg, "--") {
            options_ended = true;
        } else if !options_ended && same_text(arg, "-n") {
        } else if !options_ended && starts_with_hyphen(arg) {
            proof {
                lemma_sed_refused(all, index + 1);
            }
            return Err(
                report("InvalidOption", message_with("sed の不明なオプションです: ", arg)),
            );
        } else if script.is_none() {
            script = Some(arg.to_owned());
        } else {
            paths.push(arg.to_owned());
            assert(text::texts(paths@) =~= found.push(arg@));
        }
        index += 1;
    }
    assert(all.subrange(0, args.len() as int) =~= all);
    let script: String = match script {
        Some(script) => script,
        None => {
            return Err(
                report(
                    "MissingScript",
                    "sed には '10,20p' のような表示範囲が必要です".to_owned(),
                ),
            );
        },
    };
    let range: SedLineRange = match parse_sed_print_script(script.as_str()) {
        Ok(range) => range,
        Err(message) => {
            return Err(
                ErrorReport::about("InvalidScript", "InvalidArgument", message, script),
            );
        },
    };
    assert(text::texts(paths@).len() == paths.len());
    if paths.len() == 0 {
        return Err(
            report(
                "MissingPath",
                "sed には少なくとも一つのパスが必要です".to_owned(),
            ),
        );
    }
    Ok(SedPlan { range, paths })
}

/// The option `-n` changes nothing for `sed`, wherever it stands before the end of the options.
pub proof fn quiet_option_changes_nothing(args: Seq<Seq<char>>, place: int)
    requires
        0 <= place <= args.len(),
        !sed_arguments(args.subrange(0, place)).options_ended,
    ensures
        sed_request(args.insert(place, "-n"@)) == sed_request(args),
{
    lemma_quiet_option(args, place);
}

proof fn lemma_quiet_option(args: Seq<Seq<char>>, place: int)
    requires
        0 <= place <= args.len(),
        !sed_arguments(args.subrange(0, place)).options_ended,
    ensures
        sed_arguments(args.insert(place, "-n"@)) == sed_arguments(args),
    decreases args.len(),
{
    let longer = args.insert(place, "-n"@);
    if place == args.len() {
        reveal_strlit("-n");
        reveal_strlit("--");
        assert("-n"@[1] != "--"@[1]);
        assert(longer.drop_last() =~= args);
        assert(args.subrange(0, place) =~= args);
    } else {
        let shorter = args.drop_last();
        assert(shorter.subrange(0, place) =~= args.subrange(0, place));
        lemma_quiet_option(shorter, place);
        assert(longer.drop_last() =~= shorter.insert(place, "-n"@));
        assert(longer.last() == args.last());
    }
}

} // verus!
