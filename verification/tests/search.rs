//! The search command: arguments, lines, output and the choice of threads.

use fastfs::context::WalkError;
use fastfs::emitter::{Emitter, Step};
use fastfs::expand::WalkEntry;
use fastfs::glob::GlobError;
use fastfs::native_matcher::NativeMatcher;
use fastfs::platform::Platform;
use fastfs::queue::WalkControl;
use fastfs::rg::{
    build_matcher, count_output, file_outcome, line_format, output_of, prepare,
    receive_worker_message, send_worker_message, visit, FileOutcome, RgAction, RgEvent, RgMachine,
    Visit, WorkerMessage,
};
use fastfs::scanner::{
    build_scanner, scan_bytes, BinaryDetection, FileScan, LineScan, ScanEvent, ScanMode,
    ScannerOptions, TextScan,
};
use fastfs::search::{
    choose_thread_count, keeps_paths, ordered_paths, path_worker_count, shows_paths,
    use_sequential_hint, walk_report, ParallelProbe, ProbeKind, ProbeStep, ThreadPathCollector,
};
use fastfs::search_args::{parse_request, SearchOptions};
use fastfs::search_platform::MINIMUM_SEQUENTIAL_LENGTH;
use fastfs::sink::{
    decode_line, flush_streaming_output_before_error, format_count, format_search_line,
    FailureOutcome, LineOutput, SinkError, SinkStep, StreamingSearchSink,
};
use fastfs::wire::{EncodedTextBatch, ErrorReport};

fn strings(values: &[&str]) -> Vec<String> {
    values.iter().map(|value| value.to_string()).collect()
}

#[test]
fn parses_codex_search_options() {
    let args = ["needle", ".", "-n", "-C", "10", "-g", "*.rs", "-S", "-m", "5"].map(str::to_owned);
    let request = parse_request(&args).unwrap();
    assert_eq!(request.pattern, "needle");
    assert_eq!(request.roots, ["."]);
    assert_eq!(
        request.options,
        SearchOptions {
            line_number: true,
            smart_case: true,
            before_context: 10,
            after_context: 10,
            max_count: Some(5),
            globs: vec!["*.rs".to_owned()],
            ..SearchOptions::default()
        }
    );
}

#[test]
fn defaults_to_current_directory() {
    let request = parse_request(&["needle".to_owned()]).unwrap();
    assert_eq!(request.roots, ["."]);
}

#[test]
fn rejects_missing_values_and_conflicting_modes() {
    assert!(parse_request(&["needle".to_owned(), "-C".to_owned()]).is_err());
    assert!(parse_request(&["needle".to_owned(), "-l".to_owned(), "-c".to_owned()]).is_err());
}

#[test]
fn decodes_crlf_and_invalid_utf8_lossily() {
    assert_eq!(decode_line(b"text\r\n"), "text");
    assert_eq!(decode_line(b"a\xFF\n"), "a\u{FFFD}");
}

fn matches_of(scan: &FileScan) -> Vec<(u64, String)> {
    scan.events
        .iter()
        .filter_map(|event| match event {
            ScanEvent::Matched(number, bytes) => {
                Some((*number, String::from_utf8_lossy(bytes).into_owned()))
            }
            _ => None,
        })
        .collect()
}

#[test]
fn matcher_uses_line_boundaries_and_bans_nul_for_binary_search() {
    let options = SearchOptions::default();
    let matcher = build_matcher(&options, r"^Needle$").ok().unwrap();
    let scan = scan_bytes(
        ScannerOptions::default(),
        b"prefix\nNeedle\nsuffix\n",
        &matcher,
        false,
    );
    assert_eq!(matches_of(&scan), [(2, "Needle".to_owned())]);
    assert!(build_matcher(&options, r"\x00").is_err());
    assert!(build_matcher(&SearchOptions { text: true, ..SearchOptions::default() }, r"\x00")
        .is_ok());
}

#[test]
fn adaptive_thread_count_is_conservative_for_unknown_storage() {
    assert_eq!(choose_thread_count(28, 20, true), 20);
    assert_eq!(choose_thread_count(16, 8, true), 12);
    assert_eq!(choose_thread_count(8, 4, true), 8);
    assert_eq!(choose_thread_count(28, 20, false), 12);
    assert_eq!(choose_thread_count(4, 16, true), 4);
}

/// Whether files in one directory are enough to divide the work.
fn probe(files: usize) -> bool {
    let mut probe = match ParallelProbe::new(0, 1) {
        Some(probe) => probe,
        None => return true,
    };
    for _ in 0..files {
        if probe.observe(ProbeKind::File, false) == ProbeStep::Parallel {
            return true;
        }
    }
    false
}

#[test]
fn bounded_metadata_probe_selects_parallel_at_file_threshold() {
    assert!(!probe(64));
    assert!(probe(65));
}

#[test]
fn probe_looks_into_directories_and_gives_up_on_failures() {
    let mut first = ParallelProbe::new(0, 1).unwrap();
    assert_eq!(first.observe(ProbeKind::Directory, false), ProbeStep::LookInto);
    assert_eq!(first.observe(ProbeKind::Symlink, false), ProbeStep::Next);
    assert_eq!(first.observe(ProbeKind::Symlink, true), ProbeStep::Parallel);
    let mut second = ParallelProbe::new(0, 1).unwrap();
    assert_eq!(second.observe(ProbeKind::Failed, false), ProbeStep::Parallel);
    assert!(ParallelProbe::new(65, 65).is_none());
    assert!(ParallelProbe::new(0, 257).is_none());
}

/// Hands on what a sink gives out; the numbers of lines in the batches are kept.
fn drive(sink: &mut StreamingSearchSink, first: SinkStep, counts: &mut Vec<u32>, stopped: bool) -> Result<bool, SinkError> {
    let mut step = first;
    loop {
        match step {
            SinkStep::Done(goes_on) => return Ok(goes_on),
            SinkStep::Failed(error) => return Err(error),
            SinkStep::AwaitGate => step = sink.acquire_output_gate(stopped),
            SinkStep::Send(batch) => {
                counts.push(batch.count());
                step = sink.sent(true, stopped);
            }
        }
    }
}

#[test]
fn streaming_sink_emits_progressive_chunks() {
    let mut sink = StreamingSearchSink::new();
    let mut counts = Vec::new();
    for index in 0..700 {
        let step = sink.push_text(&format!("sample.txt:{}:match", index + 1), false);
        assert_eq!(drive(&mut sink, step, &mut counts, false), Ok(true));
        if index == 0 {
            assert!(!sink.holds_gate);
        }
    }
    let step = sink.flush(false);
    assert_eq!(drive(&mut sink, step, &mut counts, false), Ok(true));
    assert_eq!(counts, [16, 32, 64, 128, 256, 204]);
}

#[test]
fn streaming_error_flushes_partial_output_before_error_message() {
    let mut sink = StreamingSearchSink::new();
    let mut counts = Vec::new();
    let step = sink.push_text("sample.txt:1:partial", false);
    assert_eq!(drive(&mut sink, step, &mut counts, false), Ok(true));

    let step = sink.flush(false);
    let flushed = drive(&mut sink, step, &mut counts, false);
    assert_eq!(flush_streaming_output_before_error(flushed, false), FailureOutcome::Original);
    assert_eq!(counts, [1]);
    match file_outcome("sample.txt", Some("read failed after partial output"), false) {
        FileOutcome::Report(report) => {
            assert_eq!(report.code, "SearchFailed");
            assert_eq!(
                report.message,
                "rg でファイルを検索できませんでした: read failed after partial output"
            );
            assert_eq!(report.path, Some("sample.txt".to_owned()));
        }
        FileOutcome::Control(_) => panic!("no report"),
    }
    assert_eq!(send_worker_message(true), WalkControl::Continue);
    assert_eq!(send_worker_message(false), WalkControl::Quit);
}

#[test]
fn streaming_error_discards_pending_output_after_cancellation() {
    let mut sink = StreamingSearchSink::new();
    let mut counts = Vec::new();
    let step = sink.push_text("sample.txt:1:partial", false);
    assert_eq!(drive(&mut sink, step, &mut counts, false), Ok(true));

    let step = sink.flush(true);
    let flushed = drive(&mut sink, step, &mut counts, true);
    assert_eq!(flush_streaming_output_before_error(flushed, true), FailureOutcome::Quiet);
    assert!(counts.is_empty());
    assert!(matches!(
        file_outcome("sample.txt", Some("cancelled"), true),
        FileOutcome::Control(WalkControl::Quit)
    ));
}

#[test]
fn closed_receiver_is_a_failure() {
    let mut sink = StreamingSearchSink::new();
    let step = sink.push_text("line", false);
    assert!(matches!(step, SinkStep::Done(true)));
    let step = sink.flush(false);
    assert!(matches!(step, SinkStep::AwaitGate));
    let step = sink.acquire_output_gate(false);
    assert!(matches!(step, SinkStep::Send(_)));
    match sink.sent(false, false) {
        SinkStep::Failed(error) => {
            assert_eq!(error, SinkError::ReceiverClosed);
            assert_eq!(error.message(), "rg output receiver closed");
        }
        _ => panic!("no failure"),
    }
    assert_eq!(
        flush_streaming_output_before_error(Err(SinkError::ReceiverClosed), false),
        FailureOutcome::Output(SinkError::ReceiverClosed)
    );
    assert_eq!(SinkError::LineTooLong.message(), "rg の出力行が大きすぎます");
}

#[test]
fn scanner_observes_cancellation_before_searching() {
    let matcher = build_matcher(&SearchOptions::default(), "content").ok().unwrap();
    let scan = scan_bytes(ScannerOptions::default(), b"content", &matcher, true);
    assert!(scan.cancelled);
    assert!(scan.events.is_empty());
    assert_eq!(scan.match_count, 0);
}

fn matcher(pattern: &str) -> NativeMatcher {
    build_matcher(&SearchOptions::default(), pattern).ok().unwrap()
}

fn shown(scan: &FileScan) -> Vec<String> {
    scan.events
        .iter()
        .map(|event| match event {
            ScanEvent::Matched(number, bytes) => {
                format!("{}:{}", number, String::from_utf8_lossy(bytes))
            }
            ScanEvent::Context(number, bytes) => {
                format!("{}-{}", number, String::from_utf8_lossy(bytes))
            }
            ScanEvent::Break => "--".to_string(),
        })
        .collect()
}

#[test]
fn lines_around_matches_are_shown_once_and_in_order() {
    let options =
        ScannerOptions { before_context: 1, after_context: 1, ..ScannerOptions::default() };
    let text = b"a\nx1\nb\nx2\nc\nd\ne\nx3\n";
    let scan = scan_bytes(options, text, &matcher("x"), false);
    assert_eq!(
        shown(&scan),
        ["1-a", "2:x1", "3-b", "4:x2", "5-c", "--", "7-e", "8:x3"]
    );
    assert_eq!(scan.match_count, 3);
    let plain = scan_bytes(ScannerOptions::default(), text, &matcher("x"), false);
    assert_eq!(shown(&plain), ["2:x1", "4:x2", "8:x3"]);
}

#[test]
fn limit_ends_a_search_behind_the_last_context() {
    let options = ScannerOptions {
        after_context: 1,
        max_matches: Some(1),
        ..ScannerOptions::default()
    };
    let scan = scan_bytes(options, b"x1\nx2\nx3\n", &matcher("x"), false);
    assert_eq!(shown(&scan), ["1:x1", "2-x2"]);
    assert_eq!(scan.match_count, 1);
    let none = ScannerOptions { max_matches: Some(0), ..ScannerOptions::default() };
    assert!(scan_bytes(none, b"x\n", &matcher("x"), false).events.is_empty());
}

#[test]
fn modes_count_or_stop_at_the_first_match() {
    let count = ScannerOptions { mode: ScanMode::Count, ..ScannerOptions::default() };
    let scan = scan_bytes(count, b"x\ny\nx", &matcher("x"), false);
    assert_eq!(scan.match_count, 2);
    let first = ScannerOptions { mode: ScanMode::FilesWithMatches, ..ScannerOptions::default() };
    let scan = scan_bytes(first, b"y\nx\nx", &matcher("x"), false);
    assert_eq!(scan.match_count, 1);
    assert_eq!(shown(&scan), ["2:x"]);
}

#[test]
fn binary_rest_of_a_file_is_not_searched() {
    let text = b"x1\nx2\0\nx3\n";
    let scan = scan_bytes(ScannerOptions::default(), text, &matcher("x"), false);
    assert_eq!(shown(&scan), ["1:x1"]);
    let all = ScannerOptions {
        binary_detection: BinaryDetection::Text,
        ..ScannerOptions::default()
    };
    assert_eq!(scan_bytes(all, text, &matcher("x"), false).match_count, 3);
}

#[test]
fn text_anchors_see_the_whole_file() {
    let scan = scan_bytes(ScannerOptions::default(), b"x\nx\n", &matcher("\\Ax"), false);
    assert_eq!(shown(&scan), ["1:x"]);
    let empty = scan_bytes(ScannerOptions::default(), b"a\n\nb\n", &matcher("^$"), false);
    assert_eq!(shown(&empty), ["2:"]);
    let crlf = scan_bytes(ScannerOptions::default(), b"x\r\ny\r", &matcher("[xy]"), false);
    assert_eq!(shown(&crlf), ["1:x", "2:y\r"]);
}

#[test]
fn scanner_follows_the_command() {
    let options = SearchOptions {
        before_context: 2,
        after_context: 3,
        max_count: Some(4),
        count: true,
        ..SearchOptions::default()
    };
    assert_eq!(
        build_scanner(&options),
        ScannerOptions {
            before_context: 2,
            after_context: 3,
            max_matches: Some(4),
            binary_detection: BinaryDetection::Quit,
            mode: ScanMode::Count,
        }
    );
    let text = SearchOptions { text: true, files_with_matches: true, ..SearchOptions::default() };
    assert_eq!(build_scanner(&text).binary_detection, BinaryDetection::Text);
    assert_eq!(build_scanner(&text).mode, ScanMode::FilesWithMatches);
    let mut scan = LineScan::new(ScannerOptions::default());
    assert!(scan.step(b"no", false).is_empty());
    assert_eq!(scan.step(b"yes", true).len(), 1);
}

#[test]
fn lines_are_printed_with_path_and_number() {
    assert_eq!(format_search_line("p", true, true, b"x\n", 7, ':'), "p:7:x");
    assert_eq!(format_search_line("p", true, false, b"x\n", 7, '-'), "p-x");
    assert_eq!(format_search_line("p", false, true, b"x\n", 7, ':'), "7:x");
    assert_eq!(format_search_line("p", false, false, b"x\n", 7, ':'), "x");
    assert_eq!(format_count("p", true, 3), "p:3");
    assert_eq!(format_count("p", false, 18446744073709551615), "18446744073709551615");

    let options = SearchOptions { line_number: true, ..SearchOptions::default() };
    let format = line_format("p".to_string(), true, &options);
    match output_of(&format, &ScanEvent::Matched(2, b"hit".to_vec())) {
        LineOutput::Print(line) => assert_eq!(line, "p:2:hit"),
        _ => panic!("not printed"),
    }
    match output_of(&format, &ScanEvent::Context(3, b"near".to_vec())) {
        LineOutput::Print(line) => assert_eq!(line, "p-3-near"),
        _ => panic!("not printed"),
    }
    match output_of(&format, &ScanEvent::Break) {
        LineOutput::Print(line) => assert_eq!(line, "--"),
        _ => panic!("not printed"),
    }
    assert_eq!(count_output(&format, 2, false), None);
    let counting = SearchOptions { count: true, ..SearchOptions::default() };
    let format = line_format("p".to_string(), true, &counting);
    assert!(matches!(
        output_of(&format, &ScanEvent::Matched(2, b"hit".to_vec())),
        LineOutput::Nothing
    ));
    assert_eq!(count_output(&format, 2, false), Some("p:2".to_string()));
    assert_eq!(count_output(&format, 0, false), None);
    assert_eq!(count_output(&format, 2, true), None);
    let naming = SearchOptions { files_with_matches: true, ..SearchOptions::default() };
    let format = line_format("p".to_string(), true, &naming);
    assert!(matches!(
        output_of(&format, &ScanEvent::Matched(2, b"hit".to_vec())),
        LineOutput::PrintAndEnd(_)
    ));
}

#[test]
fn search_is_prepared_from_its_arguments() {
    let search = prepare(&strings(&["-i", "needle", "dir"])).ok().unwrap();
    assert_eq!(search.request.roots, ["dir"]);
    assert!(search.matcher.is_match(b"NEEDLE"));
    let refused = match prepare(&strings(&["("])) {
        Ok(_) => panic!("accepted"),
        Err(report) => report,
    };
    assert_eq!(refused.code, "InvalidPattern");
    assert_eq!(refused.path, Some("(".to_string()));
    assert!(refused.message.starts_with("rg の正規表現が不正です: "));
    assert!(prepare(&[]).is_err());
}

#[test]
fn wrong_values_of_options_are_reported() {
    for args in [
        &["x", "-m", "many"][..],
        &["x", "-C", "-1"],
        &["x", "-m", "18446744073709551616"],
        &["x", "--nonsense"],
        &[],
    ] {
        assert!(parse_request(&strings(args)).is_err(), "{:?}", args);
    }
    let dashes = parse_request(&strings(&["--", "-x", "-y"])).unwrap();
    assert_eq!((dashes.pattern.as_str(), dashes.roots), ("-x", strings(&["-y"])));
}

#[test]
fn work_is_routed_by_its_size() {
    let options = SearchOptions::default();
    assert!(use_sequential_hint(&options));
    assert!(!use_sequential_hint(&SearchOptions { max_count: Some(1), ..SearchOptions::default() }));
    assert!(shows_paths(2, false) && shows_paths(1, true) && !shows_paths(1, false));
    assert_eq!(path_worker_count(100, 8), 8);
    assert!(keeps_paths(true, false, false));
    assert!(!keeps_paths(true, true, false) && !keeps_paths(true, false, true));

    let mut collector = ThreadPathCollector::new(true);
    collector.push(2, b"c");
    collector.push(0, b"a");
    collector.push(1, b"b");
    assert_eq!(
        ordered_paths(&collector.local),
        [b"a".to_vec(), b"b".to_vec(), b"c".to_vec()]
    );
    let mut idle = ThreadPathCollector::new(false);
    idle.push(0, b"a");
    assert!(idle.local.is_empty());
}

#[test]
fn divided_search_keeps_its_list() {
    let (mut machine, action, search) = RgMachine::new(&strings(&["needle", "a", "b"]), false);
    assert!(matches!(action, RgAction::MakeWalk));
    assert_eq!(search.unwrap().request.roots, ["a", "b"]);
    assert!(matches!(machine.step(&RgEvent::WalkMade(Ok(()))), RgAction::LookAtRoots));
    let seen = RgEvent::RootsSeen { some_directory: false, parallel: true };
    assert!(matches!(machine.step(&seen), RgAction::AskForList));
    assert!(matches!(machine.step(&RgEvent::ListFound(None)), RgAction::BeginList));
    assert!(matches!(
        machine.step(&RgEvent::ListBegun(true)),
        RgAction::SearchWalk { include_path: true, collect: true }
    ));
    assert!(matches!(machine.step(&RgEvent::Walked { collected: true }), RgAction::KeepList));
    assert!(matches!(machine.step(&RgEvent::Finished), RgAction::Done));
    assert!(matches!(machine.step(&RgEvent::Finished), RgAction::Done));
}

#[test]
fn kept_list_takes_the_place_of_a_walk() {
    let (mut machine, _, _) = RgMachine::new(&strings(&["needle"]), false);
    machine.step(&RgEvent::WalkMade(Ok(())));
    machine.step(&RgEvent::RootsSeen { some_directory: true, parallel: true });
    assert!(matches!(
        machine.step(&RgEvent::ListFound(Some(7))),
        RgAction::SearchList { include_path: true, list: 7 }
    ));
    assert!(matches!(machine.step(&RgEvent::Finished), RgAction::Done));
}

#[test]
fn list_that_is_not_complete_is_not_kept() {
    let (mut machine, _, _) = RgMachine::new(&strings(&["needle"]), false);
    machine.step(&RgEvent::WalkMade(Ok(())));
    machine.step(&RgEvent::RootsSeen { some_directory: true, parallel: true });
    machine.step(&RgEvent::ListFound(None));
    assert!(matches!(
        machine.step(&RgEvent::ListBegun(false)),
        RgAction::SearchWalk { include_path: true, collect: false }
    ));
    assert!(matches!(machine.step(&RgEvent::Walked { collected: false }), RgAction::Done));
}

#[test]
fn small_search_goes_file_by_file() {
    let (mut machine, _, _) = RgMachine::new(&strings(&["needle", "one.txt"]), false);
    machine.step(&RgEvent::WalkMade(Ok(())));
    let seen = RgEvent::RootsSeen { some_directory: false, parallel: false };
    assert!(matches!(
        machine.step(&seen),
        RgAction::SearchInOrder { include_path: false, sequential_hint: true }
    ));
    assert!(matches!(machine.step(&RgEvent::Finished), RgAction::Done));
}

#[test]
fn search_that_cannot_start_is_reported() {
    let (_, action, search) = RgMachine::new(&strings(&["needle"]), true);
    assert!(matches!(action, RgAction::Done) && search.is_none());

    let (mut machine, action, search) = RgMachine::new(&strings(&["("]), false);
    assert!(matches!(action, RgAction::Report(_)) && search.is_none());
    assert!(matches!(machine.step(&RgEvent::Finished), RgAction::Done));

    let (mut machine, _, _) = RgMachine::new(&strings(&["needle"]), false);
    let failed = GlobError { pattern: Some("[".to_owned()), message: "open".to_owned() };
    match machine.step(&RgEvent::WalkMade(Err(failed))) {
        RgAction::Report(report) => {
            assert_eq!(report.code, "InvalidGlob");
            assert_eq!(report.path.as_deref(), Some("["));
        }
        other => panic!("{other:?}"),
    }
}

#[test]
fn found_files_are_searched_and_failures_reported() {
    let options = SearchOptions::default();
    let entry = |length: u64| Ok(WalkEntry::new(b"a".to_vec(), Vec::new(), length));
    let long = entry(MINIMUM_SEQUENTIAL_LENGTH);
    let short = entry(MINIMUM_SEQUENTIAL_LENGTH - 1);
    let hint = |found: &Result<WalkEntry, WalkError>, platform: Platform| {
        matches!(
            visit(found, &options, platform, false),
            Visit::Search { sequential_hint: true }
        )
    };
    assert!(hint(&long, Platform::Windows));
    assert!(!hint(&short, Platform::Windows));
    assert!(!hint(&long, Platform::Other));
    assert!(matches!(visit(&long, &options, Platform::Windows, true), Visit::Quit));
    match visit(&Err(WalkError::io(b"gone", "missing")), &options, Platform::Other, false) {
        Visit::Report(report) => {
            assert_eq!(report.code, "WalkFailed");
            assert_eq!(report.path.as_deref(), Some("gone"));
        }
        _ => panic!("a failure was not reported"),
    }
}

#[test]
fn messages_of_workers_are_sent_on() {
    let mut emitter = Emitter::new();
    let mut batch = EncodedTextBatch::new();
    assert!(batch.push("line"));
    let step = receive_worker_message(&mut emitter, WorkerMessage::Output(batch), false);
    assert!(matches!(step, Step::Send(_)));
    assert!(matches!(emitter.resume(false, false), Step::Done(true)));

    let report = ErrorReport::new("SearchFailed", "ReadError", "broken".to_owned());
    let step = receive_worker_message(&mut emitter, WorkerMessage::Error(report), false);
    assert!(matches!(step, Step::Send(_)));
    assert_eq!(emitter.error_count, 1);
    assert!(matches!(emitter.resume(true, false), Step::Done(false)));
    assert!(emitter.is_stopped(false));
}

#[test]
fn search_goes_line_by_line() {
    let needle = matcher("b");
    let bytes = b"a\nb\nc\nbb";
    let mut search = TextScan::new(ScannerOptions::default(), bytes, &needle);
    let mut counts = Vec::new();
    while let Some(events) = search.advance(bytes, &needle) {
        counts.push(events.len());
    }
    assert_eq!(counts, [0, 1, 0, 1]);
    assert_eq!(search.scan.match_count, 2);
    assert!(search.advance(bytes, &needle).is_none());
}

#[test]
fn failures_of_a_walk_name_their_path_as_the_host_shows_it() {
    let error = WalkError::io(b"a\xed\xa0\x80", "missing");
    let windows = walk_report(&error, Platform::Windows);
    assert_eq!(windows.code, "WalkFailed");
    assert_eq!(windows.path.as_deref(), Some("a\u{FFFD}"));
    let other = walk_report(&error, Platform::Other);
    assert_eq!(other.path.as_deref(), Some("a\u{FFFD}\u{FFFD}\u{FFFD}"));
}

#[test]
fn probe_counts_what_it_was_shown() {
    let mut probe = ParallelProbe::new(0, 1).unwrap();
    assert_eq!((probe.file_count, probe.entry_count), (0, 0));
    assert_eq!(probe.observe(ProbeKind::File, false), ProbeStep::Next);
    assert_eq!((probe.file_count, probe.entry_count), (1, 1));
    assert_eq!(probe.observe(ProbeKind::Directory, false), ProbeStep::LookInto);
    assert_eq!((probe.file_count, probe.entry_count), (1, 2));
}
