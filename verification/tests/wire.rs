//! What is sent to the host, and what comes from it.

use fastfs::emitter::{Emitter, Step};
use fastfs::request::{
    command_named, exit_code, fastfs_abi_version, fastfs_version, invalid_request, native_panic,
    parse_request, read_string, read_u32, refused_call, start, unknown_command, Command, Start,
    PANIC_STATUS, REFUSED_STATUS,
};
use fastfs::wire::{
    append_string, encode_error, EncodedEntryBatch, EncodedTextBatch, EntryKind, EntryRecord,
    ErrorReport, TEXT_BATCH,
};

/// Sends what is to be sent, and says whether the command goes on.
fn drive(
    emitter: &mut Emitter,
    first: Step,
    events: &mut Vec<Vec<u8>>,
    refused: bool,
    cancelled: bool,
) -> bool {
    let mut step = first;
    loop {
        match step {
            Step::Send(bytes) => {
                events.push(bytes);
                step = emitter.resume(refused, cancelled);
            }
            Step::Done(goes_on) => return goes_on,
        }
    }
}

fn text(emitter: &mut Emitter, value: &str, events: &mut Vec<Vec<u8>>) -> bool {
    let step = emitter.text(value.to_string(), false);
    drive(emitter, step, events, false, false)
}

fn finish(emitter: &mut Emitter, events: &mut Vec<Vec<u8>>) {
    let step = emitter.finish(false);
    drive(emitter, step, events, false, false);
}

fn count(event: &[u8]) -> u32 {
    u32::from_le_bytes(event[1..5].try_into().unwrap())
}

fn record(index: u64) -> EntryRecord {
    EntryRecord {
        path: "資料.txt".to_string(),
        kind: EntryKind::File,
        length: Some(index),
        modified_unix_milliseconds: Some(99),
        readonly: true,
    }
}

#[test]
fn parses_binary_request() {
    let mut bytes = b"FFS1".to_vec();
    bytes.extend_from_slice(&3_u32.to_le_bytes());
    for value in ["find", ".", "*.txt"] {
        bytes.extend_from_slice(&(value.len() as u32).to_le_bytes());
        bytes.extend_from_slice(value.as_bytes());
    }
    let request = parse_request(&bytes).expect("request should parse");
    assert_eq!(request.command, "find");
    assert_eq!(request.args, [".", "*.txt"]);
}

#[test]
fn rejects_truncated_binary_request() {
    let mut bytes = b"FFS1".to_vec();
    bytes.extend_from_slice(&1_u32.to_le_bytes());
    bytes.extend_from_slice(&10_u32.to_le_bytes());
    bytes.extend_from_slice(b"cat");
    assert!(parse_request(&bytes).is_err());
}

#[test]
fn broken_requests_say_what_is_wrong() {
    assert_eq!(
        parse_request(b"FFS2\x01\0\0\0").unwrap_err(),
        "バイナリ要求ヘッダーが不正です"
    );
    assert_eq!(
        parse_request(b"FFS1\0\0\0\0").unwrap_err(),
        "要求のフィールド数が不正です"
    );
    assert_eq!(
        parse_request(b"FFS1\x01\0\0\0\x02\0\0\0ab!").unwrap_err(),
        "要求の末尾に余分なデータがあります"
    );
    let invalid = parse_request(b"FFS1\x01\0\0\0\x01\0\0\0\xff").unwrap_err();
    assert!(invalid.starts_with("要求が UTF-8 ではありません: "), "{}", invalid);
    assert!(invalid.contains("utf-8"), "{}", invalid);
}

#[test]
fn numbers_and_strings_are_read_one_behind_the_other() {
    let bytes = b"\x02\0\0\0hi\x05\0\0\0";
    let mut offset = 0;
    assert_eq!(read_string(bytes, &mut offset).unwrap(), "hi");
    assert_eq!(offset, 6);
    assert_eq!(read_u32(bytes, &mut offset).unwrap(), 5);
    assert_eq!(read_u32(bytes, &mut offset).unwrap_err(), "要求が途中で切れています");
}

#[test]
fn commands_are_known_by_name() {
    for (name, command) in [
        ("ls", Command::Ls),
        ("touch", Command::Touch),
        ("find", Command::Find),
        ("cat", Command::Cat),
        ("sed", Command::Sed),
        ("rg", Command::Rg),
        ("rm", Command::Unknown),
    ] {
        assert_eq!(command_named(name), command);
    }
    assert_eq!(unknown_command("rm").category, "InvalidArgument");
    assert!(invalid_request("x").message.contains('x'));
    assert!(!native_panic().message.is_empty());
    assert_eq!(exit_code(true, 0), 130);
    assert_eq!(exit_code(false, 0), 0);
    assert_eq!(exit_code(false, 2), 1);
    assert!(fastfs_abi_version() > 0);
    assert_eq!(fastfs_version(), "0.6.2");
}

#[test]
fn batches_text_events() {
    let mut events: Vec<Vec<u8>> = Vec::new();
    let mut emitter = Emitter::new();
    for _ in 0..1025 {
        assert!(text(&mut emitter, "line", &mut events));
    }
    finish(&mut emitter, &mut events);

    let counts: Vec<u32> = events
        .iter()
        .map(|event| {
            assert_eq!(event[0], 2);
            count(event)
        })
        .collect();
    assert_eq!(counts, [16, 32, 64, 128, 256, 512, 17]);
}

#[test]
fn emits_preencoded_text_batches_directly() {
    let mut events: Vec<Vec<u8>> = Vec::new();
    let mut emitter = Emitter::new();
    let mut batch = EncodedTextBatch::new();
    assert!(batch.push("first"));
    assert!(batch.push("second"));
    let step = emitter.text_batch(batch, false);
    assert!(drive(&mut emitter, step, &mut events, false, false));

    assert_eq!(events.len(), 1);
    assert_eq!(events[0][0], 2);
    assert_eq!(count(&events[0]), 2);
}

#[test]
fn preencoded_text_batch_allocates_lazily() {
    let mut batch = EncodedTextBatch::new();
    assert_eq!(batch.data.capacity(), 0);
    assert_eq!(batch.len(), 0);

    assert!(batch.push("line"));
    assert_eq!(batch.count(), 1);
    assert_eq!(batch.data[0], TEXT_BATCH);
}

#[test]
fn encodes_entry_fields_and_progressive_batches() {
    let mut events: Vec<Vec<u8>> = Vec::new();
    let mut emitter = Emitter::new();
    for index in 0..497 {
        let step = emitter.entry(record(index), false);
        assert!(drive(&mut emitter, step, &mut events, false, false));
    }
    finish(&mut emitter, &mut events);

    let counts: Vec<u32> = events.iter().map(|event| count(event)).collect();
    assert_eq!(counts, [16, 32, 64, 128, 256, 1]);
    let first = &events[0];
    assert_eq!(first[0], 1);
    assert_eq!(first[5], EntryKind::File.code());
    assert_eq!(first[6], 7);
    assert_eq!(u16::from_le_bytes(first[7..9].try_into().unwrap()), 0);
    assert_eq!(u64::from_le_bytes(first[9..17].try_into().unwrap()), 0);
    assert_eq!(u64::from_le_bytes(first[17..25].try_into().unwrap()), 99);
    let path_length = u32::from_le_bytes(first[25..29].try_into().unwrap()) as usize;
    assert_eq!(&first[29..29 + path_length], "資料.txt".as_bytes());
}

#[test]
fn flushes_pending_text_before_error_with_optional_path() {
    let mut events: Vec<Vec<u8>> = Vec::new();
    let mut emitter = Emitter::new();
    assert!(text(&mut emitter, "before", &mut events));
    let step = emitter.error(
        ErrorReport::about(
            "ReadFailed",
            "ReadError",
            "message".to_string(),
            "file.txt".to_string(),
        ),
        false,
    );
    drive(&mut emitter, step, &mut events, false, false);

    assert_eq!(events.len(), 2);
    assert_eq!(events[0][0], 2);
    assert_eq!(events[1][0], 3);
    assert!(events[1].windows(8).any(|window| window == b"file.txt"));
    assert_eq!(emitter.error_count, 1);
}

#[test]
fn cancellation_discards_pending_output_without_a_callback() {
    let mut events: Vec<Vec<u8>> = Vec::new();
    let mut emitter = Emitter::new();
    assert!(text(&mut emitter, "pending", &mut events));

    let step = emitter.finish(true);
    drive(&mut emitter, step, &mut events, false, true);

    assert!(emitter.stopped);
    assert!(events.is_empty());
}

#[test]
fn callback_stop_prevents_further_batches() {
    let mut events: Vec<Vec<u8>> = Vec::new();
    let mut emitter = Emitter::new();
    for index in 0..100 {
        let step = emitter.text(index.to_string(), false);
        if !drive(&mut emitter, step, &mut events, true, false) {
            break;
        }
    }
    let step = emitter.finish(false);
    drive(&mut emitter, step, &mut events, true, false);

    assert!(emitter.stopped);
    assert_eq!(events.len(), 1);
}

#[test]
fn callback_stop_is_observed_for_a_single_preencoded_batch() {
    let mut events: Vec<Vec<u8>> = Vec::new();
    let mut emitter = Emitter::new();
    let mut batch = EncodedTextBatch::new();
    assert!(batch.push("first result"));

    let step = emitter.text_batch(batch, false);
    assert!(!drive(&mut emitter, step, &mut events, true, false));
    assert!(emitter.stopped);
    assert_eq!(events.len(), 1);
}

#[test]
fn entries_and_texts_keep_their_order() {
    let mut events: Vec<Vec<u8>> = Vec::new();
    let mut emitter = Emitter::new();
    let step = emitter.entry(record(1), false);
    assert!(drive(&mut emitter, step, &mut events, false, false));
    assert!(text(&mut emitter, "after", &mut events));
    finish(&mut emitter, &mut events);
    assert_eq!(events.iter().map(|event| event[0]).collect::<Vec<u8>>(), [1, 2]);
}

#[test]
fn strings_are_framed_by_their_length() {
    let mut buffer = Vec::new();
    assert!(append_string(&mut buffer, "é"));
    assert_eq!(buffer, [2, 0, 0, 0, 0xc3, 0xa9]);
    let mut entries = EncodedEntryBatch::new();
    assert!(entries.push(&record(7)));
    assert_eq!(entries.count, 1);
    let report = ErrorReport::new("C", "K", "m".to_string());
    let bytes = encode_error(&report).unwrap();
    assert_eq!(bytes[0], 3);
}

#[test]
fn offset_tells_how_far_a_string_was_read() {
    for (bytes, from, to) in [
        (&b"\x02\0\0"[..], 0, 0),
        (b"\x02\0\0\0h", 0, 4),
        (b"!\xff\xff\xff\xffh", 1, 5),
        (b"\x01\0\0\0\xff!", 0, 5),
    ] {
        let mut offset: usize = from;
        assert!(read_string(bytes, &mut offset).is_err());
        assert_eq!(offset, to);
    }
    let mut far = usize::MAX;
    assert_eq!(read_string(b"", &mut far).unwrap_err(), "要求位置が不正です");
    assert_eq!(far, usize::MAX);
}

#[test]
fn calls_and_requests_have_their_status() {
    assert_eq!(refused_call(false, true, 1), Some(2));
    assert_eq!(refused_call(true, false, 1), Some(2));
    assert_eq!(refused_call(true, false, 0), None);
    assert_eq!(refused_call(true, true, 1), None);
    assert_eq!((REFUSED_STATUS, PANIC_STATUS), (2, 3));
    assert!(matches!(start(b"", true), Start::Stopped(130)));
    match start(b"", false) {
        Start::Refused(report, status) => {
            assert_eq!(report.code, "InvalidRequest");
            assert_eq!(status, 2);
        }
        other => panic!("{other:?}"),
    }
    match start(b"FFS1\x01\0\0\0\x02\0\0\0rg", false) {
        Start::Run(command, request) => {
            assert_eq!(command, Command::Rg);
            assert!(request.args.is_empty());
        }
        other => panic!("{other:?}"),
    }
}

#[test]
fn request_that_was_read_is_written_as_it_came() {
    let bytes = "FFS1\x03\0\0\0\x02\0\0\0rg\x02\0\0\0é\0\0\0\0".as_bytes();
    let request = parse_request(bytes).expect("request should parse");
    let mut written = b"FFS1".to_vec();
    written.extend_from_slice(&(1 + request.args.len() as u32).to_le_bytes());
    assert!(append_string(&mut written, &request.command));
    for argument in &request.args {
        assert!(append_string(&mut written, argument));
    }
    assert_eq!(written, bytes);
}
