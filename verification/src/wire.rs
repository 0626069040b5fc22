//! The events that FastFs sends to its host: their bytes, and when they are sent.

use vstd::prelude::*;
use vstd::utf8::*;
use crate::text;

verus! {

pub const ENTRY_BATCH: u8 = 1;

pub const TEXT_BATCH: u8 = 2;

pub const ERROR: u8 = 3;

/// The number of items in the first batch.
pub const INITIAL_BATCH_ITEMS: u32 = 16;

/// The most items in a batch of entries.
pub const MAX_ENTRY_BATCH_ITEMS: u32 = 256;

/// The most items in a batch of texts.
pub const MAX_TEXT_BATCH_ITEMS: u32 = 1_024;

/// The number of bytes at which a batch is full.
pub const MAX_BATCH_BYTES: usize = 524_288;

/// The four bytes of a number, lowest first.
pub open spec fn le32(value: int) -> Seq<u8> {
    seq![
        (value % 0x100) as u8,
        (value / 0x100 % 0x100) as u8,
        (value / 0x1_0000 % 0x100) as u8,
        (value / 0x100_0000 % 0x100) as u8,
    ]
}

/// The eight bytes of a number, lowest first.
pub open spec fn le64(value: int) -> Seq<u8> {
    le32(value % 0x1_0000_0000) + le32(value / 0x1_0000_0000)
}

/// The number that four bytes stand for, lowest first.
pub open spec fn from_le32(bytes: Seq<u8>) -> int {
    bytes[0] + bytes[1] * 0x100 + bytes[2] * 0x1_0000 + bytes[3] * 0x100_0000
}

/// Reading the bytes of a number gives the number.
pub proof fn le32_reads_back(value: int)
    requires
        0 <= value < 0x1_0000_0000,
    ensures
        from_le32(le32(value)) == value,
        le32(value).len() == 4,
{
}

/// Four bytes are those of the number that they stand for.
pub proof fn le32_is_written_in_one_way(bytes: Seq<u8>)
    requires
        bytes.len() == 4,
    ensures
        le32(from_le32(bytes)) == bytes,
        0 <= from_le32(bytes) < 0x1_0000_0000,
{
    let value = from_le32(bytes);
    let (a, b, c, d) = (bytes[0] as int, bytes[1] as int, bytes[2] as int, bytes[3] as int);
    let upper = b + c * 0x100 + d * 0x1_0000;
    let top = c + d * 0x100;
    assert(value == 0x100 * upper + a);
    assert(value / 0x100 == upper && value % 0x100 == a);
    assert(upper == 0x100 * top + b);
    assert(upper / 0x100 == top && upper % 0x100 == b);
    assert(value / 0x1_0000 == top);
    assert(top / 0x100 == d && top % 0x100 == c);
    assert(value / 0x100_0000 == d);
    assert(le32(value) =~= bytes);
}

/// Puts the four bytes of a number behind `buffer`.
pub fn push_u32(buffer: &mut Vec<u8>, value: u32)
    ensures
        final(buffer)@ == old(buffer)@ + le32(value as int),
{
    buffer.push((value % 0x100) as u8);
    buffer.push((value / 0x100 % 0x100) as u8);
    buffer.push((value / 0x1_0000 % 0x100) as u8);
    buffer.push((value / 0x100_0000 % 0x100) as u8);
    assert(buffer@ =~= old(buffer)@ + le32(value as int));
}

/// Puts the eight bytes of a number behind `buffer`.
pub fn push_u64(buffer: &mut Vec<u8>, value: u64)
    ensures
        final(buffer)@ == old(buffer)@ + le64(value as int),
{
    push_u32(buffer, (value % 0x1_0000_0000) as u32);
    push_u32(buffer, (value / 0x1_0000_0000) as u32);
    assert(buffer@ =~= old(buffer)@ + le64(value as int));
}

/// Writes the four bytes of a number at 1 to 5.
fn set_count(buffer: &mut Vec<u8>, count: u32)
    requires
        old(buffer).len() >= 5,
    ensures
        final(buffer)@ == old(buffer)@.subrange(0, 1) + le32(count as int) + old(
            buffer,
        )@.subrange(5, old(buffer)@.len() as int),
{
    buffer.set(1, (count % 0x100) as u8);
    buffer.set(2, (count / 0x100 % 0x100) as u8);
    buffer.set(3, (count / 0x1_0000 % 0x100) as u8);
    buffer.set(4, (count / 0x100_0000 % 0x100) as u8);
    assert(buffer@ =~= old(buffer)@.subrange(0, 1) + le32(count as int) + old(buffer)@.subrange(
        5,
        old(buffer)@.len() as int,
    ));
}

/// Whether a text is short enough to be sent.
pub open spec fn fits(value: Seq<char>) -> bool {
    encode_utf8(value).len() <= u32::MAX
}

/// The bytes of a text behind its length.
pub open spec fn framed(value: Seq<char>) -> Seq<u8> {
    le32(encode_utf8(value).len() as int) + encode_utf8(value)
}

/// Puts a text behind its length at the end of `buffer`; says whether it is short enough.
pub fn append_string(buffer: &mut Vec<u8>, value: &str) -> (result: bool)
    ensures
        result == fits(value@),
        final(buffer)@ == (if fits(value@) {
            old(buffer)@ + framed(value@)
        } else {
            old(buffer)@
        }),
{
    let bytes: &[u8] = value.as_bytes();
    if bytes.len() > u32::MAX as usize {
        return false;
    }
    push_u32(buffer, bytes.len() as u32);
    buffer.extend_from_slice(bytes);
    assert(buffer@ =~= old(buffer)@ + framed(value@));
    true
}

/// The bytes of texts, one behind the other.
pub open spec fn framed_all(values: Seq<Seq<char>>) -> Seq<u8>
    decreases values.len(),
{
    if values.len() == 0 {
        Seq::empty()
    } else {
        framed_all(values.drop_last()) + framed(values.last())
    }
}

/// The event for a batch of texts.
pub open spec fn text_event(values: Seq<Seq<char>>) -> Seq<u8> {
    seq![TEXT_BATCH] + le32(values.len() as int) + framed_all(values)
}

/// A batch of texts in the form in which it is sent.
pub struct EncodedTextBatch {
    pub data: Vec<u8>,
    pub count: u32,
    pub texts: Ghost<Seq<Seq<char>>>,
}

impl View for EncodedTextBatch {
    type V = Seq<Seq<char>>;

    open spec fn view(&self) -> Seq<Seq<char>> {
        self.texts@
    }
}

impl EncodedTextBatch {
    pub open spec fn wf(self) -> bool {
        &&& self.count == self@.len()
        &&& self.data@ == if self@.len() == 0 {
            Seq::empty()
        } else {
            text_event(self@)
        }
    }

    pub fn new() -> (result: Self)
        ensures
            result.wf(),
            result@ == Seq::<Seq<char>>::empty(),
    {
        EncodedTextBatch { data: Vec::new(), count: 0, texts: Ghost(Seq::empty()) }
    }

    /// Adds a text, unless it is too long or the batch cannot be counted any further.
    pub fn push(&mut self, value: &str) -> (result: bool)
        requires
            old(self).wf(),
        ensures
            final(self).wf(),
            result == (old(self)@.len() < u32::MAX && fits(value@)),
            final(self)@ == (if result {
                old(self)@.push(value@)
            } else {
                old(self)@
            }),
    {
        if self.count == u32::MAX || value.as_bytes().len() > u32::MAX as usize {
            return false;
        }
        let ghost before = self@;
        let ghost after = before.push(value@);
        if self.count == 0 {
            self.data.push(TEXT_BATCH);
            push_u32(&mut self.data, 0);
            assert(self.data@ =~= text_event(before)) by {
                assert(framed_all(before) =~= Seq::<u8>::empty());
            }
        }
        assert(self.data@ == text_event(before));
        append_string(&mut self.data, value);
        self.count = self.count + 1;
        proof {
            assert(after.drop_last() =~= before);
            assert(self.data@ =~= text_event(before) + framed(value@));
        }
        set_count(&mut self.data, self.count);
        self.texts = Ghost(after);
        assert(self.data@ =~= text_event(after));
        true
    }

    pub fn is_empty(&self) -> (result: bool)
        requires
            self.wf(),
        ensures
            result == (self@.len() == 0),
    {
        self.count == 0
    }

    pub fn count(&self) -> (result: u32)
        requires
            self.wf(),
        ensures
            result == self@.len(),
    {
        self.count
    }

    /// The number of bytes so far.
    pub fn len(&self) -> (result: usize)
        ensures
            result == self.data@.len(),
    {
        self.data.len()
    }
}

impl Default for EncodedTextBatch {
    fn default() -> (result: Self)
        ensures
            result.wf(),
            result@ == Seq::<Seq<char>>::empty(),
    {
        EncodedTextBatch::new()
    }
}

/// What an entry is.
#[derive(Clone, Copy, Debug, PartialEq, Eq, Structural)]
pub enum EntryKind {
    Other,
    File,
    Directory,
    Symlink,
}

impl EntryKind {
    /// The byte of a kind.
    pub open spec fn spec_code(self) -> u8 {
        match self {
            EntryKind::Other => 0,
            EntryKind::File => 1,
            EntryKind::Directory => 2,
            EntryKind::Symlink => 3,
        }
    }

    /// The byte that stands for the kind in an event.
    pub fn code(self) -> (result: u8)
        ensures
            result == self.spec_code(),
    {
        match self {
            EntryKind::Other => 0,
            EntryKind::File => 1,
            EntryKind::Directory => 2,
            EntryKind::Symlink => 3,
        }
    }
}

/// One entry as it is sent.
#[derive(Debug)]
pub struct EntryRecord {
    pub path: String,
    pub kind: EntryKind,
    pub length: Option<u64>,
    pub modified_unix_milliseconds: Option<u64>,
    pub readonly: bool,
}

/// What an entry that is sent says.
pub struct RecordModel {
    pub path: Seq<char>,
    pub kind: EntryKind,
    pub length: Option<u64>,
    pub modified: Option<u64>,
    pub readonly: bool,
}

impl View for EntryRecord {
    type V = RecordModel;

    open spec fn view(&self) -> RecordModel {
        RecordModel {
            path: self.path@,
            kind: self.kind,
            length: self.length,
            modified: self.modified_unix_milliseconds,
            readonly: self.readonly,
        }
    }
}

/// Which of an entry's facts are given: bit 0 for the length, bit 1 for the time, and bit 2 for an
/// entry that is read-only.
pub open spec fn entry_flags(entry: RecordModel) -> u8 {
    ((if entry.length is Some {
        1int
    } else {
        0
    }) + (if entry.modified is Some {
        2int
    } else {
        0
    }) + (if entry.readonly {
        4int
    } else {
        0
    })) as u8
}

/// A number, or 0 where there is none.
pub open spec fn or_zero(value: Option<u64>) -> int {
    match value {
        Some(number) => number as int,
        None => 0,
    }
}

/// The bytes of one entry.
pub open spec fn entry_bytes(entry: RecordModel) -> Seq<u8> {
    seq![entry.kind.spec_code(), entry_flags(entry), 0u8, 0u8] + le64(or_zero(entry.length)) + le64(
        or_zero(entry.modified),
    ) + framed(entry.path)
}

/// The bytes of entries, one behind the other.
pub open spec fn entries_bytes(entries: Seq<RecordModel>) -> Seq<u8>
    decreases entries.len(),
{
    if entries.len() == 0 {
        Seq::empty()
    } else {
        entries_bytes(entries.drop_last()) + entry_bytes(entries.last())
    }
}

/// The event for a batch of entries.
pub open spec fn entry_event(entries: Seq<RecordModel>) -> Seq<u8> {
    seq![ENTRY_BATCH] + le32(entries.len() as int) + entries_bytes(entries)
}

/// Puts the bytes of one entry behind `buffer`.
fn append_entry(buffer: &mut Vec<u8>, entry: &EntryRecord)
    requires
        fits(entry@.path),
    ensures
        final(buffer)@ == old(buffer)@ + entry_bytes(entry@),
{
    let ghost start = buffer@;
    let length_flag: u8 = if entry.length.is_some() {
        1
    } else {
        0
    };
    let modified_flag: u8 = if entry.modified_unix_milliseconds.is_some() {
        2
    } else {
        0
    };
    let readonly_flag: u8 = if entry.readonly {
        4
    } else {
        0
    };
    buffer.push(entry.kind.code());
    buffer.push(length_flag + modified_flag + readonly_flag);
    buffer.push(0);
    buffer.push(0);
    let ghost head = seq![entry@.kind.spec_code(), entry_flags(entry@), 0u8, 0u8];
    assert(buffer@ =~= start + head);
    push_u64(buffer, entry.length.unwrap_or(0));
    push_u64(buffer, entry.modified_unix_milliseconds.unwrap_or(0));
    let ghost length = le64(or_zero(entry@.length));
    let ghost modified = le64(or_zero(entry@.modified));
    append_string(buffer, entry.path.as_str());
    proof {
        let path = framed(entry@.path);
        assert(buffer@ == start + head + length + modified + path);
        assert(start + head + length + modified + path =~= start + (head + length + modified
            + path));
    }
}

/// A batch of entries in the form in which it is sent.
pub struct EncodedEntryBatch {
    pub data: Vec<u8>,
    pub count: u32,
    pub entries: Ghost<Seq<RecordModel>>,
}

impl View for EncodedEntryBatch {
    type V = Seq<RecordModel>;

    open spec fn view(&self) -> Seq<RecordModel> {
        self.entries@
    }
}

impl EncodedEntryBatch {
    pub open spec fn wf(self) -> bool {
        &&& self.count == self@.len()
        &&& self.data@ == if self@.len() == 0 {
            Seq::empty()
        } else {
            entry_event(self@)
        }
    }

    pub fn new() -> (result: Self)
        ensures
            result.wf(),
            result@ == Seq::<RecordModel>::empty(),
    {
        EncodedEntryBatch { data: Vec::new(), count: 0, entries: Ghost(Seq::empty()) }
    }

    /// Adds an entry, unless its path is too long.
    pub fn push(&mut self, entry: &EntryRecord) -> (result: bool)
        requires
            old(self).wf(),
            old(self)@.len() < u32::MAX,
        ensures
            final(self).wf(),
            result == fits(entry@.path),
            final(self)@ == (if result {
                old(self)@.push(entry@)
            } else {
                old(self)@
            }),
    {
        if entry.path.as_str().as_bytes().len() > u32::MAX as usize {
            return false;
        }
        let ghost before = self@;
        let ghost after = before.push(entry@);
        if self.count == 0 {
            self.data.push(ENTRY_BATCH);
            push_u32(&mut self.data, 0);
            assert(self.data@ =~= entry_event(before)) by {
                assert(entries_bytes(before) =~= Seq::<u8>::empty());
            }
        }
        assert(self.data@ == entry_event(before));
        append_entry(&mut self.data, entry);
        self.count = self.count + 1;
        assert(after.drop_last() =~= before);
        set_count(&mut self.data, self.count);
        self.entries = Ghost(after);
        assert(self.data@ =~= entry_event(after));
        true
    }
}

/// A failure that is reported to the host.
#[derive(Debug)]
pub struct ErrorReport {
    pub code: String,
    pub category: String,
    pub message: String,
    pub path: Option<String>,
}

/// What a failure that is reported says.
pub struct ReportModel {
    pub code: Seq<char>,
    pub category: Seq<char>,
    pub message: Seq<char>,
    pub path: Option<Seq<char>>,
}

impl View for ErrorReport {
    type V = ReportModel;

    open spec fn view(&self) -> ReportModel {
        ReportModel {
            code: self.code@,
            category: self.category@,
            message: self.message@,
            path: text::optional_text(self.path),
        }
    }
}

impl ErrorReport {
    /// A report without a path.
    pub fn new(code: &str, category: &str, message: String) -> (result: Self)
        ensures
            result@ == (ReportModel {
                code: code@,
                category: category@,
                message: message@,
                path: None,
            }),
    {
        ErrorReport { code: code.to_owned(), category: category.to_owned(), message, path: None }
    }

    /// A report about a path.
    pub fn about(code: &str, category: &str, message: String, path: String) -> (result: Self)
        ensures
            result@ == (ReportModel {
                code: code@,
                category: category@,
                message: message@,
                path: Some(path@),
            }),
    {
        ErrorReport {
            code: code.to_owned(),
            category: category.to_owned(),
            message,
            path: Some(path),
        }
    }
}

/// Whether the texts of a report are short enough to be sent.
pub open spec fn report_fits(report: ReportModel) -> bool {
    &&& fits(report.code)
    &&& fits(report.category)
    &&& fits(report.message)
    &&& (report.path matches Some(path) ==> fits(path))
}

/// The event for a failure.
pub open spec fn error_event(report: ReportModel) -> Seq<u8> {
    seq![ERROR] + framed(report.code) + framed(report.category) + framed(report.message) + match
        report.path {
        Some(path) => framed(path),
        None => le32(u32::MAX as int),
    }
}

/// The event for a failure, unless one of its texts is too long.
pub fn encode_error(report: &ErrorReport) -> (result: Option<Vec<u8>>)
    ensures
        match result {
            Some(data) => report_fits(report@) && data@ == error_event(report@),
            None => !report_fits(report@),
        },
{
    let mut data: Vec<u8> = Vec::new();
    data.push(ERROR);
    if !append_string(&mut data, report.code.as_str()) || !append_string(
        &mut data,
        report.category.as_str(),
    ) || !append_string(&mut data, report.message.as_str()) {
        return None;
    }
    match &report.path {
        Some(path) => {
            if !append_string(&mut data, path.as_str()) {
                return None;
            }
        },
        None => {
            push_u32(&mut data, u32::MAX);
        },
    }
    assert(data@ =~= error_event(report@));
    Some(data)
}

/// The bytes of different batches of texts are different: what is sent tells the texts apart.
pub proof fn text_events_are_unambiguous(left: Seq<Seq<char>>, right: Seq<Seq<char>>)
    requires
        left.len() <= u32::MAX,
        right.len() <= u32::MAX,
        forall|i: int| 0 <= i < left.len() ==> fits(#[trigger] left[i]),
        forall|i: int| 0 <= i < right.len() ==> fits(#[trigger] right[i]),
        text_event(left) == text_event(right),
    ensures
        left == right,
{
    let a = text_event(left);
    let b = text_event(right);
    assert(a.subrange(1, 5) =~= le32(left.len() as int));
    assert(b.subrange(1, 5) =~= le32(right.len() as int));
    le32_reads_back(left.len() as int);
    le32_reads_back(right.len() as int);
    assert(a.subrange(5, a.len() as int) =~= framed_all(left));
    assert(b.subrange(5, b.len() as int) =~= framed_all(right));
    lemma_frames_from_front(left, 0);
    lemma_frames_from_front(right, 0);
    assert(left.subrange(0, left.len() as int) =~= left);
    assert(right.subrange(0, right.len() as int) =~= right);
    assert(left.subrange(0, 0) =~= Seq::<Seq<char>>::empty());
    assert(right.subrange(0, 0) =~= Seq::<Seq<char>>::empty());
    assert(Seq::<u8>::empty() + framed_from(left, 0) =~= framed_from(left, 0));
    assert(Seq::<u8>::empty() + framed_from(right, 0) =~= framed_from(right, 0));
    lemma_unambiguous(left, right, 0);
    assert(left =~= right);
}

/// The bytes of texts from `index` on, front first.
pub open spec fn framed_from(values: Seq<Seq<char>>, index: int) -> Seq<u8>
    decreases values.len() - index,
{
    if index >= values.len() {
        Seq::empty()
    } else {
        framed(values[index]) + framed_from(values, index + 1)
    }
}

/// Taking texts off the front or off the end gives the same bytes.
pub proof fn lemma_frames_from_front(values: Seq<Seq<char>>, index: int)
    requires
        0 <= index <= values.len(),
    ensures
        framed_all(values) == framed_all(values.subrange(0, index)) + framed_from(values, index),
    decreases values.len() - index,
{
    if index < values.len() {
        lemma_frames_from_front(values, index + 1);
        let next = values.subrange(0, index + 1);
        assert(next.drop_last() =~= values.subrange(0, index));
        assert(next.last() == values[index]);
        assert(framed_all(values.subrange(0, index)) + framed(values[index]) + framed_from(
            values,
            index + 1,
        ) =~= framed_all(values.subrange(0, index)) + (framed(values[index]) + framed_from(
            values,
            index + 1,
        )));
    } else {
        assert(values.subrange(0, index) =~= values);
        assert(framed_all(values) + Seq::<u8>::empty() =~= framed_all(values));
    }
}

proof fn lemma_unambiguous(left: Seq<Seq<char>>, right: Seq<Seq<char>>, index: int)
    requires
        0 <= index <= left.len() == right.len(),
        forall|i: int| 0 <= i < left.len() ==> fits(#[trigger] left[i]),
        forall|i: int| 0 <= i < right.len() ==> fits(#[trigger] right[i]),
        framed_from(left, index) == framed_from(right, index),
    ensures
        forall|i: int| index <= i < left.len() ==> left[i] == right[i],
    decreases left.len() - index,
{
    if index < left.len() {
        let a = framed_from(left, index);
        let b = framed_from(right, index);
        let left_bytes = encode_utf8(left[index]);
        let right_bytes = encode_utf8(right[index]);
        assert(fits(left[index]) && fits(right[index]));
        le32_reads_back(left_bytes.len() as int);
        le32_reads_back(right_bytes.len() as int);
        assert(a.subrange(0, 4) =~= le32(left_bytes.len() as int));
        assert(b.subrange(0, 4) =~= le32(right_bytes.len() as int));
        let end = 4 + left_bytes.len() as int;
        assert(a.subrange(4, end) =~= left_bytes);
        assert(b.subrange(4, end) =~= right_bytes);
        assert(a.subrange(end, a.len() as int) =~= framed_from(left, index + 1));
        assert(b.subrange(end, b.len() as int) =~= framed_from(right, index + 1));
        encode_utf8_decode_utf8(left[index]);
        encode_utf8_decode_utf8(right[index]);
        lemma_unambiguous(left, right, index + 1);
    }
}

} // verus!
