//! The file commands: arguments, line ranges, wildcards and the order of what is shown.

use std::io::{BufRead, BufReader, Cursor, Read};
use std::sync::atomic::{AtomicBool, Ordering};
use std::sync::Arc;

use fastfs::arguments::{
    cat_plan, find_plan, ls_plan, sed_plan, standard_input_report, touch_plan, KindFilter,
};
use fastfs::cancellation::FastFsCancellationToken;
use fastfs::find::{matches_file_type, FindAction, FindEntry, FindEvent, FindMachine, TypeFacts};
use fastfs::lines::{
    parse_sed_print_script, skip_lines, strip_line_ending, whole_lines_length, LinePrinter,
    SedLineRange,
};
use fastfs::list::{directory_order, ListAction, ListEvent, ListMachine, NamedEntry};
use fastfs::order::{name_is_before, sort_indices};
use fastfs::path::PathName;
use fastfs::report::{io_error_report, metadata_record, FileFacts, IoFailure, IoFailureKind};
use fastfs::touch::{
    touch_answer, touch_worker_count, touches_in_parallel, TouchAnswer, TouchOrder, TouchOutcome,
    TouchStage,
};
use fastfs::wildcard::{wildcard_matches, WildcardPattern};
use fastfs::wire::EntryKind;

fn strings(values: &[&str]) -> Vec<String> {
    values.iter().map(|value| value.to_string()).collect()
}

#[test]
fn sed_print_script_supports_single_bounded_and_open_ranges() {
    assert_eq!(
        parse_sed_print_script("10p"),
        Ok(SedLineRange { start: 10, end: Some(10) })
    );
    assert_eq!(
        parse_sed_print_script(" 10,20p "),
        Ok(SedLineRange { start: 10, end: Some(20) })
    );
    assert_eq!(parse_sed_print_script("10,$p"), Ok(SedLineRange { start: 10, end: None }));
}

#[test]
fn sed_print_script_rejects_writes_and_invalid_ranges() {
    for script in ["s/a/b/", "10,5p", "0p", "10,20d", "10,,20p", "p"] {
        assert!(parse_sed_print_script(script).is_err(), "script={:?}", script);
    }
}

/// Passes over lines of a reader; `false` where it ends before.
fn skip_lines_of<R: Read>(reader: &mut BufReader<R>, count: u64) -> bool {
    let mut left = count;
    while left > 0 {
        let available = reader.fill_buf().unwrap();
        if available.is_empty() {
            return false;
        }
        let step = skip_lines(available, left);
        reader.consume(step.consumed);
        left = step.left;
    }
    true
}

#[test]
fn sed_skip_lines_handles_buffer_and_eof_boundaries() {
    let mut reader = BufReader::with_capacity(3, Cursor::new(b"a\nbb\nccc"));
    assert!(skip_lines_of(&mut reader, 2));
    let mut remainder = String::new();
    reader.read_to_string(&mut remainder).unwrap();
    assert_eq!(remainder, "ccc");

    let mut reader = BufReader::with_capacity(2, Cursor::new(b"a\nb"));
    assert!(!skip_lines_of(&mut reader, 2));
}

#[test]
fn cuts_of_the_input_do_not_matter() {
    let whole = skip_lines(b"a\nbb\nccc\n", 2);
    assert_eq!((whole.consumed, whole.left), (5, 0));
    let first = skip_lines(b"a\nb", 2);
    assert_eq!((first.consumed, first.left), (3, 1));
    let second = skip_lines(b"b\nccc\n", first.left);
    assert_eq!((second.consumed, second.left), (2, 0));
}

#[test]
fn printed_lines_lose_their_ending() {
    let mut line = b"a\r\n".to_vec();
    strip_line_ending(&mut line);
    assert_eq!(line, b"a");
    let mut bare = b"a\r".to_vec();
    strip_line_ending(&mut bare);
    assert_eq!(bare, b"a\r");

    let mut printer = LinePrinter::for_range(&SedLineRange { start: 2, end: Some(3) });
    assert!(!printer.is_finished());
    assert_eq!(printer.line(b"two\n".to_vec()), "two");
    assert_eq!(printer.line(b"\xff\r\n".to_vec()), "\u{FFFD}");
    assert!(printer.is_finished());
    let mut all = LinePrinter::all();
    assert_eq!(all.line(b"x".to_vec()), "x");
    assert!(!all.is_finished());
}

#[test]
fn wildcard_supports_star_and_question_mark() {
    assert!(wildcard_matches("*.txt", "notes.txt"));
    assert!(wildcard_matches("file?.txt", "file1.txt"));
    assert!(!wildcard_matches("*.txt", "notes.md"));
    assert!(!wildcard_matches("file?.txt", "file10.txt"));
}

#[test]
fn wildcard_handles_unicode_characters() {
    assert!(wildcard_matches("資料?.txt", "資料１.txt"));
}

#[test]
fn wildcard_handles_empty_and_repeated_stars() {
    assert!(wildcard_matches("", ""));
    assert!(wildcard_matches("**", "anything"));
    assert!(wildcard_matches("a**?c", "abbbc"));
    assert!(!wildcard_matches("?", ""));
}

#[test]
fn greedy_wildcard_matches_reference_implementation() {
    let patterns = generate_strings(&['a', 'b', '*', '?'], 4);
    let values = generate_strings(&['a', 'b'], 4);
    for pattern in patterns {
        for value in &values {
            assert_eq!(
                wildcard_matches(&pattern, value),
                wildcard_reference(&pattern, value),
                "pattern={:?}, value={:?}",
                pattern,
                value
            );
        }
    }
}

fn generate_strings(alphabet: &[char], maximum_length: usize) -> Vec<String> {
    let mut values = vec![String::new()];
    let mut current = vec![String::new()];
    for _ in 0..maximum_length {
        let mut next = Vec::new();
        for prefix in &current {
            for character in alphabet {
                let mut value = prefix.clone();
                value.push(*character);
                next.push(value);
            }
        }
        values.extend(next.iter().cloned());
        current = next;
    }
    values
}

fn wildcard_reference(pattern: &str, value: &str) -> bool {
    let pattern: Vec<char> = pattern.chars().collect();
    let value: Vec<char> = value.chars().collect();
    let mut previous = vec![false; value.len() + 1];
    previous[0] = true;
    for token in pattern {
        let mut current = vec![false; value.len() + 1];
        if token == '*' {
            current[0] = previous[0];
        }
        for index in 1..=value.len() {
            current[index] = match token {
                '*' => previous[index] || current[index - 1],
                '?' => previous[index - 1],
                literal => previous[index - 1] && literal == value[index - 1],
            };
        }
        previous = current;
    }
    previous[value.len()]
}

#[test]
fn wildcards_tell_upper_from_lower_case() {
    assert!(WildcardPattern::new("*.txt").is_match("notes.txt"));
    assert!(!WildcardPattern::new("*.TXT").is_match("notes.txt"));
    assert!(WildcardPattern::new("Ä*").is_match("Ärger"));
    assert!(WildcardPattern::new("*").is_match(""));
    assert!(WildcardPattern::new("abc").is_match("abc"));
    assert!(!WildcardPattern::new("abc").is_match("abcd"));
    assert!(WildcardPattern::new("abc*").is_match("abcdef"));
    assert!(WildcardPattern::new("a*c?e").is_match("abbcde"));
}

#[test]
fn star_in_a_value_is_taken_as_it_is() {
    assert!(wildcard_matches("a*b", "axb"));
    assert!(wildcard_matches("a*", "a*"));
}

#[test]
fn ffi_token_shares_cancellation_with_active_operations() {
    let token = FastFsCancellationToken { state: Arc::new(AtomicBool::new(false)) };
    let state = token.state();
    assert!(!state.load(Ordering::Relaxed));
    token.state.store(true, Ordering::Relaxed);
    assert!(state.load(Ordering::Relaxed));
    drop(token);
    assert!(state.load(Ordering::Relaxed));
}

#[test]
fn ls_arguments_are_read_in_order() {
    let plan = ls_plan(&strings(&["-a", "-R", "dir", "--", "-x"]));
    assert!(plan.show_all && plan.recursive);
    assert_eq!(plan.paths, ["dir", "-x"]);
    assert!(plan.reports.is_empty());
    let plain = ls_plan(&[]);
    assert_eq!(plain.paths, ["."]);
    let odd = ls_plan(&strings(&["--nonsense"]));
    assert_eq!(odd.reports.len(), 1);
}

#[test]
fn touch_and_cat_need_paths() {
    assert!(touch_plan(&[]).is_err());
    assert_eq!(touch_plan(&strings(&["a", "b"])).unwrap(), ["a", "b"]);
    assert!(cat_plan(&[]).is_err());
    assert_eq!(cat_plan(&strings(&["a"])).unwrap(), ["a"]);
    assert!(standard_input_report("-").is_some());
    assert!(standard_input_report("file").is_none());
}

#[test]
fn find_arguments_name_roots_pattern_and_kind() {
    let plan = find_plan(&strings(&[".", "-name", "*.rs", "-type", "f"]));
    assert!(plan.reports.is_empty());
    let search = plan.search.unwrap();
    assert_eq!(search.roots, ["."]);
    assert_eq!(search.name_pattern, "*.rs");
    assert_eq!(search.kind_filter, Some(KindFilter::File));
    let missing = find_plan(&strings(&[".", "-name"]));
    assert!(!missing.reports.is_empty());
}

#[test]
fn sed_arguments_need_a_print_script() {
    let plan = sed_plan(&strings(&["-n", "2,4p", "file"])).unwrap();
    assert_eq!((plan.range.start, plan.range.end), (2, Some(4)));
    assert_eq!(plan.paths, ["file"]);
    assert!(sed_plan(&strings(&["2,4p", "file"])).is_ok());
    for (args, code) in [
        (&[][..], "MissingScript"),
        (&["-n", "s/a/b/", "file"], "InvalidScript"),
        (&["-i", "2p", "file"], "InvalidOption"),
        (&["2p"], "MissingPath"),
    ] {
        match sed_plan(&strings(args)) {
            Ok(_) => panic!("{:?} was accepted", args),
            Err(report) => assert_eq!(report.code, code),
        }
    }
}

fn facts(is_dir: bool) -> FileFacts {
    FileFacts {
        is_symlink: false,
        is_dir,
        is_file: !is_dir,
        length: 3,
        modified_milliseconds: Some(5),
        readonly: false,
    }
}

fn types(is_dir: bool) -> TypeFacts {
    TypeFacts { is_symlink: false, is_dir, is_file: !is_dir }
}

fn failure(kind: IoFailureKind) -> IoFailure {
    IoFailure { kind, message: "why".to_string() }
}

#[test]
fn failures_name_their_category() {
    for (kind, category) in [
        (IoFailureKind::NotFound, "ObjectNotFound"),
        (IoFailureKind::PermissionDenied, "PermissionDenied"),
        (IoFailureKind::InvalidInput, "InvalidArgument"),
        (IoFailureKind::InvalidData, "InvalidArgument"),
        (IoFailureKind::Other, "NotSpecified"),
    ] {
        let report = io_error_report("ReadFailed", "p", &failure(kind));
        assert_eq!(report.category, category);
        assert_eq!(report.message, "p: why");
        assert_eq!(report.path, Some("p".to_string()));
    }
}

#[test]
fn records_hold_what_is_known_of_a_file() {
    let file = metadata_record("f", &facts(false));
    assert_eq!(file.kind, EntryKind::File);
    assert_eq!(file.length, Some(3));
    assert_eq!(file.modified_unix_milliseconds, Some(5));
    let directory = metadata_record("d", &facts(true));
    assert_eq!(directory.kind, EntryKind::Directory);
    assert_eq!(directory.length, None);
}

#[test]
fn kinds_are_told_by_type_alone() {
    let link = TypeFacts { is_symlink: true, is_dir: false, is_file: false };
    assert!(matches_file_type(&link, None));
    assert!(matches_file_type(&link, Some(KindFilter::Symlink)));
    assert!(!matches_file_type(&link, Some(KindFilter::File)));
    assert!(matches_file_type(&types(true), Some(KindFilter::Directory)));
}

/// Searches a directory with one file and one directory that holds a file.
fn found(pattern: &str, filter: Option<KindFilter>) -> Vec<String> {
    let (mut machine, mut action) =
        FindMachine::new("top".to_string(), Some("top".to_string()), pattern, filter);
    let mut shown = Vec::new();
    let mut described = "top".to_string();
    let mut open: Vec<Vec<(&str, bool)>> = Vec::new();
    let mut next_listing = vec![("a.txt", false), ("sub", true)];
    let mut path = vec!["top".to_string()];
    loop {
        let event = match action {
            FindAction::Done => return shown,
            FindAction::Describe => FindEvent::Described(Ok(facts(
                described == "top" || described.ends_with("sub"),
            ))),
            FindAction::Open => {
                open.push(next_listing.clone());
                next_listing = vec![("b.txt", false)];
                if open.len() > 1 {
                    path.push("top/sub".to_string());
                }
                FindEvent::Opened(Ok(()))
            }
            FindAction::Read => {
                let directory = path.last().unwrap().clone();
                let entries = open.last_mut().unwrap();
                if entries.is_empty() {
                    open.pop();
                    path.pop();
                    FindEvent::Read(None)
                } else {
                    let (name, is_dir) = entries.remove(0);
                    described = format!("{}/{}", directory, name);
                    FindEvent::Read(Some(Ok(FindEntry {
                        path: described.clone(),
                        name: Some(name.to_string()),
                        file_type: Ok(types(is_dir)),
                    })))
                }
            }
            FindAction::Show(record) => {
                shown.push(record.path);
                FindEvent::Shown(true)
            }
            FindAction::Report(report) => panic!("{}", report.message),
        };
        action = machine.step(&event, false);
    }
}

#[test]
fn find_shows_only_wanted_entries() {
    assert_eq!(found("*", None), ["top", "top/a.txt", "top/sub", "top/sub/b.txt"]);
    assert_eq!(found("*.txt", None), ["top/a.txt", "top/sub/b.txt"]);
    assert_eq!(found("*", Some(KindFilter::Directory)), ["top", "top/sub"]);
}

#[test]
fn stopped_find_ends_at_once() {
    let (mut machine, first) =
        FindMachine::new("top".to_string(), Some("top".to_string()), "*", None);
    assert!(matches!(first, FindAction::Describe));
    let show = machine.step(&FindEvent::Described(Ok(facts(true))), false);
    assert!(matches!(show, FindAction::Show(_)));
    assert!(matches!(machine.step(&FindEvent::Shown(false), true), FindAction::Done));
    assert!(matches!(machine.step(&FindEvent::Reported, true), FindAction::Done));
}

#[test]
fn find_reports_a_missing_root() {
    let (mut machine, _) =
        FindMachine::new("gone".to_string(), Some("gone".to_string()), "*", None);
    let action =
        machine.step(&FindEvent::Described(Err(failure(IoFailureKind::NotFound))), false);
    match action {
        FindAction::Report(report) => assert_eq!(report.category, "ObjectNotFound"),
        _ => panic!("no report"),
    }
}

fn named(name: &str, id: usize) -> NamedEntry {
    NamedEntry {
        name: PathName { raw: name.as_bytes().to_vec(), text: name.to_string(), utf8: true },
        path: name.to_string(),
        id,
    }
}

#[test]
fn directories_are_listed_by_name() {
    let entries = vec![named("b", 0), named(".hidden", 1), named("a", 2)];
    assert_eq!(directory_order(&entries, false), [2, 0]);
    assert_eq!(directory_order(&entries, true), [1, 2, 0]);
    assert!(name_is_before(b"a", b"b"));
    assert!(name_is_before(b"a", b"ab"));
    assert!(!name_is_before(b"b", b"ab"));
    assert_eq!(sort_indices(&[3usize, 1, 2], &[0, 1, 2]), [1, 2, 0]);
    assert_eq!(
        sort_indices(&[b"x".to_vec(), b"a".to_vec(), b"x".to_vec()], &[0, 1, 2]),
        [1, 0, 2]
    );
}

#[test]
fn list_shows_entries_in_order() {
    let (mut machine, first) = ListMachine::new("dir".to_string(), false, false);
    assert!(matches!(first, ListAction::Describe));
    let mut action = machine.step(&ListEvent::Described(Ok(facts(true))), false);
    let mut shown = Vec::new();
    loop {
        let event = match action {
            ListAction::Done => break,
            ListAction::List { .. } => {
                ListEvent::Listed(Ok(vec![named("b", 0), named("a", 1), named(".c", 2)]))
            }
            ListAction::Visit { .. } => {
                ListEvent::Visited { file_type: Ok(types(false)), facts: Ok(facts(false)) }
            }
            ListAction::Show(record) => {
                shown.push(record.path);
                ListEvent::Shown(true)
            }
            ListAction::Describe => panic!("described twice"),
            ListAction::Report(report) => panic!("{}", report.message),
        };
        action = machine.step(&event, false);
    }
    assert_eq!(shown, ["a", "b"]);
}

#[test]
fn touched_files_are_shown_in_the_order_given() {
    assert!(!touches_in_parallel(31));
    assert!(touches_in_parallel(32));
    assert_eq!(touch_worker_count(64, 100), 16);
    assert_eq!(touch_worker_count(2, 100), 2);

    let mut order = TouchOrder::new(3, 2);
    assert!(order.next().is_none());
    order.receive(1, TouchOutcome::Touched(facts(false)));
    assert!(order.next().is_none());
    order.receive(0, TouchOutcome::Failed {
        stage: TouchStage::Touch,
        failure: failure(IoFailureKind::Other),
    });
    let (index, outcome, more) = order.next().unwrap();
    assert_eq!(index, 0);
    assert_eq!(more, Some(2));
    match touch_answer("p", &outcome) {
        TouchAnswer::Report(report) => assert_eq!(report.message, "p: why"),
        TouchAnswer::Show(_) => panic!("a failure was shown"),
    }
    let (index, outcome, more) = order.next().unwrap();
    assert_eq!((index, more), (1, None));
    match touch_answer("p", &outcome) {
        TouchAnswer::Show(record) => assert_eq!(record.path, "p"),
        TouchAnswer::Report(report) => panic!("{}", report.message),
    }
    assert!(!order.is_finished());
    order.receive(2, TouchOutcome::Touched(facts(false)));
    assert_eq!(order.next().map(|step| step.0), Some(2));
    assert!(order.is_finished());
}

/// The lines that a script prints of a text that is read in small parts.
fn printed_by(script: &str, text: &[u8]) -> Vec<String> {
    let range = parse_sed_print_script(script).unwrap();
    let mut reader = BufReader::with_capacity(3, Cursor::new(text.to_vec()));
    if range.start > 1 && !skip_lines_of(&mut reader, range.start - 1) {
        return Vec::new();
    }
    let mut printer = LinePrinter::for_range(&range);
    let mut lines = Vec::new();
    while !printer.is_finished() {
        let mut bytes = Vec::new();
        if reader.read_until(b'\n', &mut bytes).unwrap() == 0 {
            break;
        }
        lines.push(printer.line(bytes));
    }
    lines
}

#[test]
fn ranges_print_their_lines() {
    let text = b"one\r\ntwo\n\nfour";
    assert_eq!(printed_by("1p", text), ["one"]);
    assert_eq!(printed_by("2,3p", text), ["two", ""]);
    assert_eq!(printed_by("3,$p", text), ["", "four"]);
    assert_eq!(printed_by("4,9p", text), ["four"]);
    assert!(printed_by("5p", text).is_empty());
    assert!(printed_by("3p", b"a\nb\n").is_empty());
}

#[test]
fn quiet_option_may_stand_anywhere_before_the_options_end() {
    for args in [&["-n", "2p", "f"][..], &["2p", "-n", "f"], &["2p", "f", "-n"], &["2p", "f"]] {
        let plan = sed_plan(&strings(args)).unwrap();
        assert_eq!(plan.range, SedLineRange { start: 2, end: Some(2) });
        assert_eq!(plan.paths, ["f"]);
    }
    let plan = sed_plan(&strings(&["--", "2p", "-n"])).unwrap();
    assert_eq!(plan.paths, ["-n"]);
}

#[test]
fn whole_lines_end_with_the_last_line_feed() {
    assert_eq!(whole_lines_length(b"a\nb\nc"), 4);
    assert_eq!(whole_lines_length(b"a\n"), 2);
    assert_eq!(whole_lines_length(b"a"), 0);
    assert_eq!(whole_lines_length(b""), 0);
}

/// A file of a tree: a directory where it has entries, and a link to one where `link`.
struct Node {
    name: &'static str,
    link: bool,
    locked: bool,
    entries: Option<Vec<Node>>,
}

impl Node {
    fn types(&self) -> TypeFacts {
        TypeFacts {
            is_symlink: self.link,
            is_dir: self.entries.is_some(),
            is_file: self.entries.is_none(),
        }
    }

    fn facts(&self) -> FileFacts {
        FileFacts { is_symlink: self.link, ..facts(self.entries.is_some()) }
    }
}

fn file(name: &'static str) -> Node {
    Node { name, link: false, locked: false, entries: None }
}

fn directory(name: &'static str, entries: Vec<Node>) -> Node {
    Node { name, link: false, locked: false, entries: Some(entries) }
}

fn tree() -> Node {
    directory(
        "top",
        vec![
            Node { link: true, ..directory("link", vec![file("behind")]) },
            directory("sub", vec![file("c"), directory("deep", vec![file("d")])]),
            Node { locked: true, ..directory("locked", vec![file("unseen")]) },
            file(".hidden"),
            file("a"),
        ],
    )
}

#[test]
fn find_goes_through_a_whole_tree() {
    let root = tree();
    let (mut machine, mut action) =
        FindMachine::new("top".to_string(), Some("top".to_string()), "*", None);
    let mut current = ("top".to_string(), &root);
    let mut open: Vec<(String, &Node, usize)> = Vec::new();
    let mut told = Vec::new();
    loop {
        let event = match action {
            FindAction::Done => break,
            FindAction::Describe => FindEvent::Described(Ok(current.1.facts())),
            FindAction::Open => {
                if current.1.locked {
                    FindEvent::Opened(Err(failure(IoFailureKind::PermissionDenied)))
                } else {
                    open.push((current.0.clone(), current.1, 0));
                    FindEvent::Opened(Ok(()))
                }
            }
            FindAction::Read => {
                let (path, node, next) = open.last_mut().unwrap();
                match node.entries.as_ref().unwrap().get(*next) {
                    None => {
                        open.pop();
                        FindEvent::Read(None)
                    }
                    Some(entry) => {
                        *next += 1;
                        current = (format!("{}/{}", path, entry.name), entry);
                        FindEvent::Read(Some(Ok(FindEntry {
                            path: current.0.clone(),
                            name: Some(entry.name.to_string()),
                            file_type: Ok(entry.types()),
                        })))
                    }
                }
            }
            FindAction::Show(record) => {
                told.push(record.path);
                FindEvent::Shown(true)
            }
            FindAction::Report(report) => {
                told.push(format!("! {}", report.path.unwrap()));
                FindEvent::Reported
            }
        };
        action = machine.step(&event, false);
    }
    assert_eq!(
        told,
        [
            "top", "top/link", "top/sub", "top/sub/c", "top/sub/deep", "top/sub/deep/d",
            "top/locked", "! top/locked", "top/.hidden", "top/a",
        ]
    );
}

fn listed(show_all: bool, recursive: bool) -> Vec<String> {
    let root = tree();
    let (mut machine, mut action) = ListMachine::new("top".to_string(), show_all, recursive);
    let mut known: Vec<(String, &Node)> = Vec::new();
    let mut told = Vec::new();
    loop {
        let event = match action {
            ListAction::Done => return told,
            ListAction::Describe => ListEvent::Described(Ok(root.facts())),
            ListAction::List { directory } => {
                let (path, node) = match directory {
                    Some(id) => known[id].clone(),
                    None => ("top".to_string(), &root),
                };
                if node.locked {
                    ListEvent::Listed(Err(failure(IoFailureKind::PermissionDenied)))
                } else {
                    let mut entries = Vec::new();
                    for entry in node.entries.as_ref().unwrap() {
                        let path = format!("{}/{}", path, entry.name);
                        entries.push(NamedEntry {
                            path: path.clone(),
                            ..named(entry.name, known.len())
                        });
                        known.push((path, entry));
                    }
                    ListEvent::Listed(Ok(entries))
                }
            }
            ListAction::Visit { id } => ListEvent::Visited {
                file_type: Ok(known[id].1.types()),
                facts: Ok(known[id].1.facts()),
            },
            ListAction::Show(record) => {
                told.push(record.path);
                ListEvent::Shown(true)
            }
            ListAction::Report(report) => {
                told.push(format!("! {}", report.path.unwrap()));
                ListEvent::Reported
            }
        };
        action = machine.step(&event, false);
    }
}

#[test]
fn ls_goes_through_a_whole_tree() {
    assert_eq!(
        listed(false, true),
        [
            "top/a", "top/link", "top/locked", "! top/locked", "top/sub", "top/sub/c",
            "top/sub/deep", "top/sub/deep/d",
        ]
    );
    assert_eq!(
        listed(true, false),
        ["top/.hidden", "top/a", "top/link", "top/locked", "top/sub"]
    );
}
