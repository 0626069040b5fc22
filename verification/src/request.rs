//! The requests that FastFs gets from its host.

use vstd::prelude::*;
use vstd::utf8::*;
use crate::text;
use crate::text::utf8_text;
use crate::wire;

verus! {

/// The most fields that a request may have.
pub const MAX_FIELDS: usize = 1_000_000;

/// A command and its arguments.
#[derive(Debug)]
pub struct Request {
    pub command: String,
    pub args: Vec<String>,
}

/// What a request asks for.
pub struct RequestModel {
    pub command: Seq<char>,
    pub args: Seq<Seq<char>>,
}

impl View for Request {
    type V = RequestModel;

    open spec fn view(&self) -> RequestModel {
        RequestModel { command: self.command@, args: text::texts(self.args@) }
    }
}

/// A number at `offset` and the offset behind it, or what is wrong.
pub open spec fn u32_at(bytes: Seq<u8>, offset: int) -> Result<(int, int), Seq<char>> {
    if offset + 4 > usize::MAX {
        Err("要求位置が不正です"@)
    } else if offset + 4 > bytes.len() {
        Err("要求が途中で切れています"@)
    } else {
        Ok((wire::from_le32(bytes.subrange(offset, offset + 4)), offset + 4))
    }
}

/// A text at `offset` behind its length, and the offset behind it, or what is wrong.
pub open spec fn string_at(bytes: Seq<u8>, offset: int) -> Result<(Seq<char>, int), Seq<char>> {
    match u32_at(bytes, offset) {
        Err(message) => Err(message),
        Ok((length, start)) => {
            let value = bytes.subrange(start, start + length);
            if start + length > usize::MAX {
                Err("要求の文字列長が不正です"@)
            } else if start + length > bytes.len() {
                Err("要求が途中で切れています"@)
            } else if !valid_utf8(value) {
                Err("要求が UTF-8 ではありません: "@ + text::utf8_error(value))
            } else {
                Ok((decode_utf8(value), start + length))
            }
        },
    }
}

/// The offset once a text at `offset` was read or refused: kept where its length cannot be read, behind
/// the length where the text is cut off or too long, and behind the text otherwise, UTF-8 or not.
pub open spec fn offset_after_string(bytes: Seq<u8>, offset: int) -> int {
    match u32_at(bytes, offset) {
        Err(_) => offset,
        Ok((length, start)) => if start + length > usize::MAX || start + length > bytes.len() {
            start
        } else {
            start + length
        },
    }
}

/// `count` texts from `offset` on, and the offset behind them, or what is wrong.
pub open spec fn strings_at(bytes: Seq<u8>, offset: int, count: int) -> Result<
    (Seq<Seq<char>>, int),
    Seq<char>,
>
    decreases count,
{
    if count <= 0 {
        Ok((Seq::empty(), offset))
    } else {
        match strings_at(bytes, offset, count - 1) {
            Err(message) => Err(message),
            Ok((values, next)) => match string_at(bytes, next) {
                Err(message) => Err(message),
                Ok((value, end)) => Ok((values.push(value), end)),
            },
        }
    }
}

/// Whether bytes start with the four letters of a request and a number of fields.
pub open spec fn has_header(bytes: Seq<u8>) -> bool {
    &&& bytes.len() >= 8
    &&& bytes[0] == 0x46
    &&& bytes[1] == 0x46
    &&& bytes[2] == 0x53
    &&& bytes[3] == 0x31
}

/// The request that bytes make, or what is wrong with them.
pub open spec fn parsed_request(bytes: Seq<u8>) -> Result<RequestModel, Seq<char>> {
    let count = wire::from_le32(bytes.subrange(4, 8));
    if !has_header(bytes) {
        Err("バイナリ要求ヘッダーが不正です"@)
    } else if count == 0 || count > MAX_FIELDS || count > (bytes.len() - 8) / 4 {
        Err("要求のフィールド数が不正です"@)
    } else {
        match strings_at(bytes, 8, count) {
            Err(message) => Err(message),
            Ok((values, end)) => if end != bytes.len() {
                Err("要求の末尾に余分なデータがあります"@)
            } else {
                Ok(RequestModel { command: values[0], args: values.drop_first() })
            },
        }
    }
}

/// Reads a number, and moves on behind it.
pub fn read_u32(bytes: &[u8], offset: &mut usize) -> (result: Result<u32, String>)
    ensures
        match result {
            Ok(value) => u32_at(bytes@, *old(offset) as int) == Ok::<(int, int), Seq<char>>(
                (value as int, *final(offset) as int),
            ),
            Err(message) => {
                &&& u32_at(bytes@, *old(offset) as int) == Err::<(int, int), Seq<char>>(message@)
                &&& *final(offset) == *old(offset)
            },
        },
{
    let start: usize = *offset;
    if start > usize::MAX - 4 {
        return Err("要求位置が不正です".to_owned());
    }
    if start + 4 > bytes.len() {
        return Err("要求が途中で切れています".to_owned());
    }
    *offset = start + 4;
    let low: u32 = bytes[start] as u32 + bytes[start + 1] as u32 * 0x100;
    let high: u32 = bytes[start + 2] as u32 * 0x1_0000 + bytes[start + 3] as u32 * 0x100_0000;
    Ok(low + high)
}

/// Reads a text behind its length, and moves on behind it. Where the text is not UTF-8 the offset
/// has moved on all the same. The offset never goes back, nor past the end of the bytes.
pub fn read_string(bytes: &[u8], offset: &mut usize) -> (result: Result<String, String>)
    ensures
        *final(offset) == offset_after_string(bytes@, *old(offset) as int),
        *old(offset) <= *final(offset),
        *old(offset) <= bytes@.len() ==> *final(offset) <= bytes@.len(),
        match result {
            Ok(value) => string_at(bytes@, *old(offset) as int) == Ok::<
                (Seq<char>, int),
                Seq<char>,
            >((value@, *final(offset) as int)),
            Err(message) => string_at(bytes@, *old(offset) as int) == Err::<
                (Seq<char>, int),
                Seq<char>,
            >(message@),
        },
{
    let length: usize = match read_u32(bytes, offset) {
        Ok(length) => length as usize,
        Err(message) => {
            return Err(message);
        },
    };
    let start: usize = *offset;
    if length > usize::MAX - start {
        return Err("要求の文字列長が不正です".to_owned());
    }
    let end: usize = start + length;
    if end > bytes.len() {
        return Err("要求が途中で切れています".to_owned());
    }
    *offset = end;
    match utf8_text(&bytes[start..end]) {
        Ok(value) => Ok(value),
        Err(reason) => Err(
            "要求が UTF-8 ではありません: ".to_owned().concat(reason.as_str()),
        ),
    }
}

/// Reads a request.
pub fn parse_request(bytes: &[u8]) -> (result: Result<Request, String>)
    ensures
        match result {
            Ok(request) => parsed_request(bytes@) == Ok::<RequestModel, Seq<char>>(request@),
            Err(message) => parsed_request(bytes@) == Err::<RequestModel, Seq<char>>(message@),
        },
{
    if bytes.len() < 8 || bytes[0] != 0x46 || bytes[1] != 0x46 || bytes[2] != 0x53 || bytes[3]
        != 0x31 {
        return Err("バイナリ要求ヘッダーが不正です".to_owned());
    }
    let mut offset: usize = 4;
    let count: usize = match read_u32(bytes, &mut offset) {
        Ok(count) => count as usize,
        Err(message) => {
            return Err(message);
        },
    };
    let maximum: usize = (bytes.len() - 8) / 4;
    if count == 0 || count > MAX_FIELDS || count > maximum {
        return Err("要求のフィールド数が不正です".to_owned());
    }
    let ghost total = count as int;
    proof {
        lemma_first_failure(bytes@, 8, 1, total);
        assert(strings_at(bytes@, 8, 0) == Ok::<(Seq<Seq<char>>, int), Seq<char>>(
            (Seq::empty(), 8),
        ));
    }
    let command: String = match read_string(bytes, &mut offset) {
        Ok(command) => command,
        Err(message) => {
            return Err(message);
        },
    };
    let mut args: Vec<String> = Vec::new();
    let mut index: usize = 1;
    assert(seq![command@] + text::texts(args@) =~= Seq::<Seq<char>>::empty().push(command@));
    while index < count
        invariant
            1 <= index <= count == total,
            has_header(bytes@),
            total == wire::from_le32(bytes@.subrange(4, 8)),
            !(total == 0 || total > MAX_FIELDS || total > (bytes@.len() - 8) / 4),
            strings_at(bytes@, 8, index as int) == Ok::<(Seq<Seq<char>>, int), Seq<char>>(
                (seq![command@] + text::texts(args@), offset as int),
            ),
        decreases count - index,
    {
        proof {
            lemma_first_failure(bytes@, 8, index + 1, total);
        }
        let ghost before = text::texts(args@);
        match read_string(bytes, &mut offset) {
            Ok(value) => {
                let ghost model = value@;
                args.push(value);
                assert(text::texts(args@) =~= before.push(model));
                assert((seq![command@] + before).push(model) =~= seq![command@] + text::texts(
                    args@,
                ));
            },
            Err(message) => {
                return Err(message);
            },
        }
        index += 1;
    }
    if offset != bytes.len() {
        return Err("要求の末尾に余分なデータがあります".to_owned());
    }
    proof {
        let values = seq![command@] + text::texts(args@);
        assert(values.drop_first() =~= text::texts(args@));
    }
    Ok(Request { command, args })
}

/// The first text that cannot be read decides.
proof fn lemma_first_failure(bytes: Seq<u8>, offset: int, count: int, total: int)
    requires
        1 <= count <= total,
    ensures
        strings_at(bytes, offset, count) matches Err(message) ==> strings_at(bytes, offset, total)
            == Err::<(Seq<Seq<char>>, int), Seq<char>>(message),
    decreases total - count,
{
    if count < total {
        lemma_first_failure(bytes, offset, count + 1, total);
    }
}

/// The bytes of a request.
pub open spec fn request_bytes(fields: Seq<Seq<char>>) -> Seq<u8> {
    seq![0x46u8, 0x46u8, 0x53u8, 0x31u8] + wire::le32(fields.len() as int) + wire::framed_all(
        fields,
    )
}

/// Reading the bytes of a request gives its command and its arguments.
pub proof fn request_reads_back(fields: Seq<Seq<char>>)
    requires
        1 <= fields.len() <= MAX_FIELDS,
        forall|i: int| 0 <= i < fields.len() ==> wire::fits(#[trigger] fields[i]),
        request_bytes(fields).len() <= usize::MAX,
    ensures
        parsed_request(request_bytes(fields)) == Ok::<RequestModel, Seq<char>>(
            RequestModel { command: fields[0], args: fields.drop_first() },
        ),
{
    let bytes = request_bytes(fields);
    let count = fields.len() as int;
    wire::le32_reads_back(count);
    assert(bytes.subrange(4, 8) =~= wire::le32(count));
    assert(bytes.subrange(8, bytes.len() as int) =~= wire::framed_all(fields));
    lemma_frames_are_long(fields);
    assert(wire::framed_all(fields.subrange(0, 0)) =~= Seq::<u8>::empty());
    lemma_strings_read_back(fields, count);
    assert(fields.subrange(0, count) =~= fields);
}

/// Bytes that read as a request are the bytes of that request: no two strings of bytes read as one
/// request.
pub proof fn request_is_written_in_one_way(bytes: Seq<u8>)
    ensures
        parsed_request(bytes) matches Ok(request) ==> bytes == request_bytes(
            seq![request.command] + request.args,
        ),
{
    if let Ok(request) = parsed_request(bytes) {
        let count = wire::from_le32(bytes.subrange(4, 8));
        lemma_strings_are_framed(bytes, 8, count);
        let values = (strings_at(bytes, 8, count)->Ok_0).0;
        let fields = seq![request.command] + request.args;
        assert(fields =~= values);
        wire::le32_is_written_in_one_way(bytes.subrange(4, 8));
        let head = seq![0x46u8, 0x46u8, 0x53u8, 0x31u8];
        assert(bytes =~= head + bytes.subrange(4, 8) + bytes.subrange(8, bytes.len() as int));
    }
}

proof fn lemma_strings_are_framed(bytes: Seq<u8>, offset: int, count: int)
    requires
        0 <= offset <= bytes.len(),
        0 <= count,
    ensures
        strings_at(bytes, offset, count) matches Ok((values, end)) ==> {
            &&& offset <= end <= bytes.len()
            &&& values.len() == count
            &&& wire::framed_all(values) == bytes.subrange(offset, end)
        },
    decreases count,
{
    if count > 0 {
        lemma_strings_are_framed(bytes, offset, count - 1);
        if let Ok((values, next)) = strings_at(bytes, offset, count - 1) {
            if let Ok((value, end)) = string_at(bytes, next) {
                let length = bytes.subrange(next, next + 4);
                let text = bytes.subrange(next + 4, end);
                wire::le32_is_written_in_one_way(length);
                decode_utf8_encode_utf8(text);
                assert(values.push(value).drop_last() =~= values);
                assert(bytes.subrange(offset, end) =~= bytes.subrange(offset, next) + (length
                    + text));
            }
        }
    } else {
        assert(bytes.subrange(offset, offset) =~= Seq::<u8>::empty());
    }
}

proof fn lemma_frames_are_long(fields: Seq<Seq<char>>)
    ensures
        wire::framed_all(fields).len() >= 4 * fields.len(),
    decreases fields.len(),
{
    if fields.len() > 0 {
        lemma_frames_are_long(fields.drop_last());
    }
}

proof fn lemma_string_reads_back(head: Seq<u8>, field: Seq<char>, rest: Seq<u8>)
    requires
        wire::fits(field),
        (head + wire::le32(encode_utf8(field).len() as int) + encode_utf8(field) + rest).len()
            <= usize::MAX,
    ensures
        string_at(
            head + wire::le32(encode_utf8(field).len() as int) + encode_utf8(field) + rest,
            head.len() as int,
        ) == Ok::<(Seq<char>, int), Seq<char>>(
            (field, head.len() + 4 + encode_utf8(field).len() as int),
        ),
{
    let value = encode_utf8(field);
    let length = value.len() as int;
    let bytes = head + wire::le32(length) + value + rest;
    let start = head.len() as int;
    assert(bytes.subrange(start, start + 4) =~= wire::le32(length));
    assert(bytes.subrange(start + 4, start + 4 + length) =~= value);
    wire::le32_reads_back(length);
    encode_utf8_valid_utf8(field);
    encode_utf8_decode_utf8(field);
}

/// The bytes of a request before the field at a place.
spec fn bytes_before(fields: Seq<Seq<char>>, index: int) -> Seq<u8> {
    seq![0x46u8, 0x46u8, 0x53u8, 0x31u8] + wire::le32(fields.len() as int) + wire::framed_all(
        fields.subrange(0, index),
    )
}

proof fn lemma_request_cut(fields: Seq<Seq<char>>, index: int)
    requires
        0 <= index < fields.len() <= MAX_FIELDS,
    ensures
        ({
            let value = encode_utf8(fields[index]);
            &&& request_bytes(fields) == bytes_before(fields, index) + wire::le32(
                value.len() as int,
            ) + value + wire::framed_from(fields, index + 1)
            &&& bytes_before(fields, index).len() == 8 + wire::framed_all(
                fields.subrange(0, index),
            ).len()
            &&& wire::framed_all(fields.subrange(0, index + 1)).len() == wire::framed_all(
                fields.subrange(0, index),
            ).len() + 4 + value.len()
        }),
{
    let before = fields.subrange(0, index);
    let here = fields.subrange(0, index + 1);
    let rest = wire::framed_from(fields, index + 1);
    let value = encode_utf8(fields[index]);
    wire::lemma_frames_from_front(fields, index);
    assert(wire::framed_from(fields, index) == wire::framed(fields[index]) + rest);
    assert(here.drop_last() =~= before);
    assert(here.last() == fields[index]);
    assert(request_bytes(fields) =~= bytes_before(fields, index) + wire::le32(value.len() as int)
        + value + rest);
}

proof fn lemma_strings_read_back(fields: Seq<Seq<char>>, count: int)
    requires
        0 <= count <= fields.len() <= MAX_FIELDS,
        forall|i: int| 0 <= i < fields.len() ==> wire::fits(#[trigger] fields[i]),
        request_bytes(fields).len() <= usize::MAX,
    ensures
        strings_at(request_bytes(fields), 8, count) == Ok::<(Seq<Seq<char>>, int), Seq<char>>(
            (
                fields.subrange(0, count),
                8 + wire::framed_all(fields.subrange(0, count)).len() as int,
            ),
        ),
    decreases count,
{
    if count > 0 {
        lemma_strings_read_back(fields, count - 1);
        lemma_request_cut(fields, count - 1);
        assert(fields.subrange(0, count - 1).push(fields[count - 1]) =~= fields.subrange(
            0,
            count,
        ));
        lemma_string_reads_back(
            bytes_before(fields, count - 1),
            fields[count - 1],
            wire::framed_from(fields, count),
        );
    } else {
        assert(fields.subrange(0, 0) =~= Seq::<Seq<char>>::empty());
    }
}

/// The command that a request names.
#[derive(Clone, Copy, Debug, PartialEq, Eq, Structural)]
pub enum Command {
    Ls,
    Touch,
    Find,
    Cat,
    Sed,
    Rg,
    Unknown,
}

/// The command of a name.
pub open spec fn command_of(name: Seq<char>) -> Command {
    if name == "ls"@ {
        Command::Ls
    } else if name == "touch"@ {
        Command::Touch
    } else if name == "find"@ {
        Command::Find
    } else if name == "cat"@ {
        Command::Cat
    } else if name == "sed"@ {
        Command::Sed
    } else if name == "rg"@ {
        Command::Rg
    } else {
        Command::Unknown
    }
}

/// The command of a name.
pub fn command_named(name: &str) -> (result: Command)
    ensures
        result == command_of(name@),
{
    if crate::chars::same_text(name, "ls") {
        Command::Ls
    } else if crate::chars::same_text(name, "touch") {
        Command::Touch
    } else if crate::chars::same_text(name, "find") {
        Command::Find
    } else if crate::chars::same_text(name, "cat") {
        Command::Cat
    } else if crate::chars::same_text(name, "sed") {
        Command::Sed
    } else if crate::chars::same_text(name, "rg") {
        Command::Rg
    } else {
        Command::Unknown
    }
}

/// The report of a request that cannot be read.
pub fn invalid_request(reason: &str) -> (result: crate::wire::ErrorReport)
    ensures
        result@ == (wire::ReportModel {
            code: "InvalidRequest"@,
            category: "InvalidArgument"@,
            message: "要求の解析に失敗しました: "@ + reason@,
            path: None,
        }),
{
    crate::wire::ErrorReport::new(
        "InvalidRequest",
        "InvalidArgument",
        "要求の解析に失敗しました: ".to_owned().concat(reason),
    )
}

/// The report of a command that there is not.
pub fn unknown_command(name: &str) -> (result: crate::wire::ErrorReport)
    ensures
        result@ == (wire::ReportModel {
            code: "UnknownCommand"@,
            category: "InvalidArgument"@,
            message: "未対応のコマンドです: "@ + name@,
            path: None,
        }),
{
    crate::wire::ErrorReport::new(
        "UnknownCommand",
        "InvalidArgument",
        "未対応のコマンドです: ".to_owned().concat(name),
    )
}

/// The report of a failure inside FastFs.
pub fn native_panic() -> (result: crate::wire::ErrorReport)
    ensures
        result@ == (wire::ReportModel {
            code: "NativePanic"@,
            category: "NotSpecified"@,
            message: "Rust ライブラリ内で予期しないエラーが発生しました"@,
            path: None,
        }),
{
    crate::wire::ErrorReport::new(
        "NativePanic",
        "NotSpecified",
        "Rust ライブラリ内で予期しないエラーが発生しました".to_owned(),
    )
}

/// The exit code of a command: 130 where it was stopped, 1 where a failure was reported, 0
/// otherwise.
pub fn exit_code(stopped: bool, error_count: usize) -> (result: i32)
    ensures
        result == (if stopped {
            130i32
        } else if error_count > 0 {
            1i32
        } else {
            0i32
        }),
{
    if stopped {
        130
    } else if error_count > 0 {
        1
    } else {
        0
    }
}

/// The status of a call or a request that is refused.
pub const REFUSED_STATUS: i32 = 2;

/// The status of a failure inside FastFs.
pub const PANIC_STATUS: i32 = 3;

/// The status with which a call is refused before its request is read: nobody takes the events, or there
/// is no request though it has a length.
pub fn refused_call(has_callback: bool, has_request: bool, request_length: usize) -> (result: Option<
    i32,
>)
    ensures
        result == (if !has_callback || (!has_request && request_length != 0) {
            Some(REFUSED_STATUS)
        } else {
            None
        }),
{
    if !has_callback || (!has_request && request_length != 0) {
        Some(REFUSED_STATUS)
    } else {
        None
    }
}

/// How the execution of a request starts.
#[derive(Debug)]
pub enum Start {
    /// It was stopped before, and ends with this status.
    Stopped(i32),
    /// The request is refused: this is reported, and the execution ends with this status.
    Refused(crate::wire::ErrorReport, i32),
    /// The command runs; its reports decide on the status.
    Run(Command, Request),
}

/// Starts to execute a request.
pub fn start(bytes: &[u8], stopped: bool) -> (result: Start)
    ensures
        if stopped {
            result == Start::Stopped(130)
        } else {
            match parsed_request(bytes@) {
                Err(reason) => result matches Start::Refused(report, status) && report@ == (
                wire::ReportModel {
                    code: "InvalidRequest"@,
                    category: "InvalidArgument"@,
                    message: "要求の解析に失敗しました: "@ + reason,
                    path: None,
                }) && status == REFUSED_STATUS,
                Ok(model) => result matches Start::Run(command, request) && request@ == model
                    && command == command_of(model.command),
            }
        },
{
    if stopped {
        return Start::Stopped(exit_code(true, 0));
    }
    match parse_request(bytes) {
        Err(reason) => Start::Refused(invalid_request(reason.as_str()), REFUSED_STATUS),
        Ok(request) => {
            let command: Command = command_named(request.command.as_str());
            Start::Run(command, request)
        },
    }
}

/// The version of the interface to the host.
pub fn fastfs_abi_version() -> (result: u32)
    ensures
        result == 3,
{
    3
}

/// The version of FastFs.
pub fn fastfs_version() -> (result: &'static str)
    ensures
        result@ == "0.6.2"@,
{
    "0.6.2"
}

} // verus!
