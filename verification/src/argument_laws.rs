//! What each argument of a command adds to what those before it say.

use vstd::prelude::*;
use crate::arguments;
use crate::arguments::FindModel;
use crate::find;
use crate::find::TypeFacts;
use crate::lines;
use crate::wildcard;

verus! {

proof fn lemma_find_goes_on(
    args: Seq<Seq<char>>,
    more: Seq<Seq<char>>,
    index: int,
    state: FindModel,
)
    requires
        0 <= index <= args.len(),
        arguments::find_arguments(args, index, state).goes,
    ensures
        arguments::find_arguments(args + more, index, state) == arguments::find_arguments(
            args + more,
            args.len() as int,
            arguments::find_arguments(args, index, state),
        ),
    decreases args.len() - index,
{
    let all = args + more;
    if index < args.len() {
        let arg = args[index];
        assert(all[index] == arg);
        if arg == "-name"@ || arg == "--name"@ {
            assert(index + 1 < args.len());
            assert(all[index + 1] == args[index + 1]);
            lemma_find_goes_on(
                args,
                more,
                index + 2,
                FindModel { name_pattern: args[index + 1], ..state },
            );
        } else if arg == "-type"@ || arg == "--type"@ {
            assert(index + 1 < args.len());
            assert(all[index + 1] == args[index + 1]);
            let filter = arguments::filter_of(args[index + 1]);
            assert(filter is Some);
            lemma_find_goes_on(
                args,
                more,
                index + 2,
                FindModel { kind_filter: filter, ..state },
            );
        } else if arg == "--"@ {
            lemma_find_goes_on(args, more, index + 1, state);
        } else if arguments::is_option(arg) {
            lemma_find_goes_on(
                args,
                more,
                index + 1,
                FindModel {
                    reports: state.reports.push(
                        arguments::argument_report(
                            "InvalidOption"@,
                            "find の不明なオプションです: "@ + arg,
                        ),
                    ),
                    ..state
                },
            );
        } else {
            lemma_find_goes_on(
                args,
                more,
                index + 1,
                FindModel { roots: state.roots.push(arg), ..state },
            );
        }
    }
}

proof fn lemma_find_words()
    ensures
        "-name"@ != "-type"@,
        "-name"@ != "--type"@,
        "--name"@ != "-type"@,
        "--name"@ != "--type"@,
        "--"@ != "-name"@,
        "--"@ != "--name"@,
        "--"@ != "-type"@,
        "--"@ != "--type"@,
        "f"@ != "d"@,
        "f"@ != "l"@,
        "d"@ != "l"@,
        "-name"@[0] == '-',
        "--name"@[0] == '-',
        "-type"@[0] == '-',
        "--type"@[0] == '-',
        "--"@[0] == '-',
        "--"@.len() == 2,
        "-name"@.len() == 5,
        "--name"@.len() == 6,
        "-type"@.len() == 5,
        "--type"@.len() == 6,
{
    reveal_strlit("-name");
    reveal_strlit("--name");
    reveal_strlit("-type");
    reveal_strlit("--type");
    reveal_strlit("--");
    reveal_strlit("f");
    reveal_strlit("d");
    reveal_strlit("l");
    assert("-name"@[1] == 'n');
    assert("-type"@[1] == 't');
    assert("--name"@[2] == 'n');
    assert("--name"@.len() == 6);
    assert("--type"@.len() == 6);
    assert("--"@.len() == 2);
    assert("--type"@[2] == 't');
    assert("f"@[0] == 'f');
    assert("d"@[0] == 'd');
    assert("l"@[0] == 'l');
}

/// Behind arguments of `find` that are accepted, `-type` with `f` makes the search show regular files
/// alone, with `d` directories alone and with `l` symbolic links alone; with anything else the search does
/// not go ahead. Nothing else changes by it.
pub proof fn type_letter_selects_a_type(
    args: Seq<Seq<char>>,
    option: Seq<char>,
    letter: Seq<char>,
    facts: TypeFacts,
)
    requires
        arguments::find_request(args).goes,
        option == "-type"@ || option == "--type"@,
    ensures
        ({
            let before = arguments::find_request(args);
            let after = arguments::find_request(args + seq![option, letter]);
            &&& after.goes == (letter == "f"@ || letter == "d"@ || letter == "l"@)
            &&& after.goes ==> {
                &&& after.reports == before.reports
                &&& after.roots == before.roots
                &&& after.name_pattern == before.name_pattern
                &&& find::type_matches(facts, after.kind_filter) == {
                    ||| letter == "f"@ && facts.is_file
                    ||| letter == "d"@ && facts.is_dir
                    ||| letter == "l"@ && facts.is_symlink
                }
            }
        }),
{
    lemma_find_words();
    let more = seq![option, letter];
    let all = args + more;
    lemma_find_goes_on(args, more, 0, find_start());
    let before = arguments::find_request(args);
    let at = args.len() as int;
    assert(all[at] == option);
    assert(all[at + 1] == letter);
    assert(all.len() == at + 2);
    if arguments::filter_of(letter) is Some {
        let next = FindModel { kind_filter: arguments::filter_of(letter), ..before };
        assert(arguments::find_arguments(all, at + 2, next) == next);
    }
}

spec fn find_start() -> FindModel {
    FindModel {
        reports: Seq::empty(),
        roots: Seq::empty(),
        name_pattern: "*"@,
        kind_filter: None,
        goes: true,
    }
}

/// Behind arguments of `find` that are accepted, `-name` sets the pattern for names and nothing else.
pub proof fn name_option_sets_the_pattern(
    args: Seq<Seq<char>>,
    option: Seq<char>,
    pattern: Seq<char>,
)
    requires
        arguments::find_request(args).goes,
        option == "-name"@ || option == "--name"@,
    ensures
        arguments::find_request(args + seq![option, pattern]) == (FindModel {
            name_pattern: pattern,
            ..arguments::find_request(args)
        }),
{
    lemma_find_words();
    let more = seq![option, pattern];
    let all = args + more;
    lemma_find_goes_on(args, more, 0, find_start());
    let before = arguments::find_request(args);
    let at = args.len() as int;
    assert(all[at] == option);
    assert(all[at + 1] == pattern);
    let next = FindModel { name_pattern: pattern, ..before };
    assert(arguments::find_arguments(all, at + 2, next) == next);
}

/// Behind arguments of `find` that are accepted, an argument without a hyphen in first place is one more
/// root, `--` changes nothing, `-name` and `-type` without a value end the command with one more report,
/// and any other option is reported and passed over.
pub proof fn other_arguments_of_find(args: Seq<Seq<char>>, arg: Seq<char>)
    requires
        arguments::find_request(args).goes,
    ensures
        ({
            let before = arguments::find_request(args);
            let after = arguments::find_request(args.push(arg));
            if arg.len() == 0 || arg[0] != '-' {
                after == (FindModel { roots: before.roots.push(arg), ..before })
            } else if arg == "--"@ {
                after == before
            } else {
                &&& after.goes == !(arg == "-name"@ || arg == "--name"@ || arg == "-type"@ || arg
                    == "--type"@)
                &&& after.reports.len() == before.reports.len() + 1
                &&& after.reports.drop_last() == before.reports
                &&& after.roots == before.roots
                &&& after.name_pattern == before.name_pattern
                &&& after.kind_filter == before.kind_filter
            }
        }),
{
    lemma_find_words();
    let more = seq![arg];
    let all = args + more;
    assert(all =~= args.push(arg));
    lemma_find_goes_on(args, more, 0, find_start());
    let before = arguments::find_request(args);
    let after = arguments::find_request(args.push(arg));
    let at = args.len() as int;
    assert(all[at] == arg);
    assert(all.len() == at + 1);
    reveal_with_fuel(arguments::find_arguments, 3);
    if arg.len() > 0 && arg[0] == '-' && arg != "--"@ {
        assert(after.reports.drop_last() =~= before.reports);
    }
}

/// Without arguments `find` shows everything under the current directory.
pub proof fn find_without_arguments(name: Seq<char>, facts: TypeFacts)
    ensures
        ({
            let request = arguments::find_request(Seq::empty());
            &&& request.goes
            &&& request.reports.len() == 0
            &&& arguments::or_current(request.roots) == seq!["."@]
            &&& find::wanted(request.name_pattern, request.kind_filter, Some(name), facts)
        }),
{
    reveal_strlit("*");
    assert("*"@[0] == '*');
    assert(wildcard::name_matches("*"@, name));
}

/// `find` of a root with `-type` and a letter shows just the files of that type.
pub proof fn find_by_type(
    root: Seq<char>,
    letter: Seq<char>,
    name: Seq<char>,
    facts: TypeFacts,
)
    requires
        root.len() == 0 || root[0] != '-',
    ensures
        ({
            let request = arguments::find_request(seq![root, "-type"@, letter]);
            &&& request.goes == (letter == "f"@ || letter == "d"@ || letter == "l"@)
            &&& request.goes ==> {
                &&& request.roots == seq![root]
                &&& find::wanted(request.name_pattern, request.kind_filter, Some(name), facts) == {
                    ||| letter == "f"@ && facts.is_file
                    ||| letter == "d"@ && facts.is_dir
                    ||| letter == "l"@ && facts.is_symlink
                }
            }
        }),
{
    let none = Seq::<Seq<char>>::empty();
    assert(arguments::find_request(none) == find_start());
    other_arguments_of_find(none, root);
    let one = none.push(root);
    type_letter_selects_a_type(one, "-type"@, letter, facts);
    assert(one + seq!["-type"@, letter] =~= seq![root, "-type"@, letter]);
    assert(none.push(root) =~= seq![root]);
    reveal_strlit("*");
    assert("*"@[0] == '*');
    assert(wildcard::name_matches("*"@, name));
}

proof fn lemma_ls_words()
    ensures
        "--"@ != "-a"@,
        "--"@ != "--all"@,
        "--"@ != "-R"@,
        "--"@ != "--recursive"@,
        "-a"@ != "-R"@,
        "-a"@ != "--recursive"@,
        "--all"@ != "-R"@,
        "--all"@ != "--recursive"@,
        "--"@[0] == '-',
        "-a"@[0] == '-',
        "--all"@[0] == '-',
        "-R"@[0] == '-',
        "--recursive"@[0] == '-',
        "--"@.len() == 2,
        "-a"@.len() == 2,
        "--all"@.len() == 5,
        "-R"@.len() == 2,
        "--recursive"@.len() == 11,
{
    reveal_strlit("--");
    reveal_strlit("-a");
    reveal_strlit("--all");
    reveal_strlit("-R");
    reveal_strlit("--recursive");
    assert("--"@[1] == '-');
    assert("-a"@[1] == 'a');
    assert("-R"@[1] == 'R');
    assert("--"@.len() == 2);
    assert("--all"@.len() == 5);
    assert("--recursive"@.len() == 11);
}

/// One more argument of `ls` shows hidden names where it is `-a`, makes the listing recursive where it is
/// `-R`, ends the options where it is `--`, and is reported where it is another option. Any other is a
/// path, and behind `--` all are.
pub proof fn each_argument_of_ls(args: Seq<Seq<char>>, arg: Seq<char>)
    ensures
        arguments::ls_arguments(args).options_ended == args.contains("--"@),
        ({
            let before = arguments::ls_arguments(args);
            let after = arguments::ls_arguments(args.push(arg));
            let path = args.contains("--"@) || arg.len() == 0 || arg[0] != '-';
            let all = !path && (arg == "-a"@ || arg == "--all"@);
            let recursive = !path && (arg == "-R"@ || arg == "--recursive"@);
            let unknown = !path && !all && !recursive && arg != "--"@;
            &&& after.show_all == (before.show_all || all)
            &&& after.recursive == (before.recursive || recursive)
            &&& after.paths == if path {
                before.paths.push(arg)
            } else {
                before.paths
            }
            &&& if unknown {
                &&& after.reports.len() == before.reports.len() + 1
                &&& after.reports.drop_last() == before.reports
            } else {
                after.reports == before.reports
            }
        }),
{
    lemma_ls_words();
    lemma_ls_ended(args);
    assert(args.push(arg).drop_last() =~= args);
    let before = arguments::ls_arguments(args);
    let after = arguments::ls_arguments(args.push(arg));
    if after.reports.len() > 0 {
        assert(before.reports.push(after.reports.last()).drop_last() =~= before.reports);
    }
}

proof fn lemma_ls_ended(args: Seq<Seq<char>>)
    ensures
        arguments::ls_arguments(args).options_ended == args.contains("--"@),
    decreases args.len(),
{
    if args.len() > 0 {
        lemma_ls_ended(args.drop_last());
        let shorter = args.drop_last();
        if shorter.contains("--"@) {
            let i = choose|i: int| 0 <= i < shorter.len() && shorter[i] == "--"@;
            assert(args[i] == "--"@);
        }
        if args.contains("--"@) && args.last() != "--"@ {
            let i = choose|i: int| 0 <= i < args.len() && args[i] == "--"@;
            assert(shorter[i] == "--"@);
        }
        if args.last() == "--"@ {
            assert(args[args.len() - 1] == "--"@);
        }
    }
}

/// Without arguments `ls` lists the current directory, without hidden names and not recursively.
pub proof fn ls_without_arguments()
    ensures
        ({
            let request = arguments::ls_arguments(Seq::empty());
            &&& !request.show_all
            &&& !request.recursive
            &&& request.reports.len() == 0
            &&& arguments::or_current(request.paths) == seq!["."@]
        }),
{
}

/// Paths that are given are kept as they are.
pub proof fn given_paths_are_kept(paths: Seq<Seq<char>>)
    requires
        paths.len() > 0,
    ensures
        arguments::or_current(paths) == paths,
{
}

/// The paths of `touch` and of `cat` are their arguments in order, but for `--`.
pub proof fn paths_are_the_arguments(args: Seq<Seq<char>>, arg: Seq<char>)
    ensures
        arguments::without_dashes(Seq::<Seq<char>>::empty()).len() == 0,
        arguments::without_dashes(args.push(arg)) == if arg == "--"@ {
            arguments::without_dashes(args)
        } else {
            arguments::without_dashes(args).push(arg)
        },
        !args.contains("--"@) ==> arguments::without_dashes(args) == args,
    decreases args.len(),
{
    assert(args.push(arg).drop_last() =~= args);
    if args.len() > 0 {
        let shorter = args.drop_last();
        paths_are_the_arguments(shorter, args.last());
        assert(shorter.push(args.last()) =~= args);
        if !args.contains("--"@) {
            if shorter.contains("--"@) {
                let i = choose|i: int| 0 <= i < shorter.len() && shorter[i] == "--"@;
                assert(args[i] == "--"@);
            }
            if args.last() == "--"@ {
                assert(args[args.len() - 1] == "--"@);
            }
        }
    }
}

proof fn lemma_sed_words()
    ensures
        "--"@ != "-n"@,
        "--"@[0] == '-',
        "-n"@[0] == '-',
        "--"@.len() == 2,
        "-n"@.len() == 2,
{
    reveal_strlit("--");
    reveal_strlit("-n");
    assert("--"@[1] == '-');
    assert("-n"@[1] == 'n');
}

/// One more argument of `sed` is the script where there is none yet and a path otherwise, unless it starts
/// with a hyphen before `--`: `-n` changes nothing, and any other option is refused, the first for good.
pub proof fn each_argument_of_sed(args: Seq<Seq<char>>, arg: Seq<char>)
    requires
        arguments::sed_arguments(args).refused is None,
    ensures
        arguments::sed_arguments(args).options_ended == args.contains("--"@),
        ({
            let before = arguments::sed_arguments(args);
            let after = arguments::sed_arguments(args.push(arg));
            let plain = args.contains("--"@) || arg.len() == 0 || arg[0] != '-';
            if plain {
                &&& after.refused is None
                &&& before.script is None ==> after.script == Some(arg) && after.paths
                    == before.paths
                &&& before.script is Some ==> after.script == before.script && after.paths
                    == before.paths.push(arg)
            } else if arg == "--"@ || arg == "-n"@ {
                after.refused is None && after.script == before.script && after.paths
                    == before.paths
            } else {
                after.refused == Some(arg)
            }
        }),
{
    lemma_sed_words();
    lemma_sed_ended(args);
    assert(args.push(arg).drop_last() =~= args);
}

proof fn lemma_sed_ended(args: Seq<Seq<char>>)
    requires
        arguments::sed_arguments(args).refused is None,
    ensures
        arguments::sed_arguments(args).options_ended == args.contains("--"@),
    decreases args.len(),
{
    if args.len() > 0 {
        let shorter = args.drop_last();
        lemma_sed_words();
        lemma_sed_ended(shorter);
        if shorter.contains("--"@) {
            let i = choose|i: int| 0 <= i < shorter.len() && shorter[i] == "--"@;
            assert(args[i] == "--"@);
        }
        if args.contains("--"@) && args.last() != "--"@ {
            let i = choose|i: int| 0 <= i < args.len() && args[i] == "--"@;
            assert(shorter[i] == "--"@);
        }
        if args.last() == "--"@ {
            assert(args[args.len() - 1] == "--"@);
        }
    }
}

/// `sed` goes ahead just where no option is refused, there is a script that reads as a range, and there
/// is a path; it then prints that range of those paths.
pub proof fn sed_needs_a_script_and_a_path(args: Seq<Seq<char>>)
    ensures
        ({
            let model = arguments::sed_arguments(args);
            match arguments::sed_request(args) {
                Ok((range, paths)) => {
                    &&& model.refused is None
                    &&& model.script matches Some(script) && lines::parsed_script(script)
                        == Ok::<lines::SedLineRange, Seq<char>>(range)
                    &&& paths == model.paths
                    &&& paths.len() > 0
                },
                Err(_) => {
                    ||| model.refused is Some
                    ||| model.script is None
                    ||| lines::parsed_script(model.script->0) is Err
                    ||| model.paths.len() == 0
                },
            }
        }),
{
}

} // verus!
