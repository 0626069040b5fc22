//! Where each part of an event and of a request stands.

use vstd::prelude::*;
use vstd::utf8::*;
use crate::request;
use crate::wire;
use crate::wire::{EntryKind, RecordModel, ReportModel};

verus! {

/// Numbers are written with the lowest byte first.
pub proof fn lowest_byte_comes_first(high: int, low: int)
    requires
        0 <= high < 0x100_0000,
        0 <= low < 0x100,
    ensures
        ({
            let bytes = wire::le32(high * 0x100 + low);
            let rest = wire::le32(high);
            &&& bytes.len() == 4
            &&& bytes[0] == low
            &&& bytes[1] == rest[0]
            &&& bytes[2] == rest[1]
            &&& bytes[3] == rest[2]
        }),
        wire::le32(low)[1] == 0 && wire::le32(low)[2] == 0 && wire::le32(low)[3] == 0,
{
    let value = high * 0x100 + low;
    assert(value % 0x100 == low);
    assert(value / 0x100 == high);
    assert(value / 0x1_0000 == high / 0x100);
    assert(value / 0x100_0000 == high / 0x1_0000);
}

/// Long numbers are written as two, the lower one first.
pub proof fn lower_half_comes_first(high: int, low: int)
    requires
        0 <= high < 0x1_0000_0000,
        0 <= low < 0x1_0000_0000,
    ensures
        wire::le64(high * 0x1_0000_0000 + low) == wire::le32(low) + wire::le32(high),
{
    let value = high * 0x1_0000_0000 + low;
    assert(value % 0x1_0000_0000 == low);
    assert(value / 0x1_0000_0000 == high);
}

/// A text stands behind the number of its bytes.
pub proof fn texts_stand_behind_their_length(value: Seq<char>)
    requires
        encode_utf8(value).len() <= u32::MAX,
    ensures
        wire::fits(value),
        wire::framed(value).subrange(0, 4) == wire::le32(encode_utf8(value).len() as int),
        wire::framed(value).subrange(4, wire::framed(value).len() as int) == encode_utf8(value),
{
    let bytes = wire::framed(value);
    assert(bytes.subrange(0, 4) =~= wire::le32(encode_utf8(value).len() as int));
    assert(bytes.subrange(4, bytes.len() as int) =~= encode_utf8(value));
}

/// An event with texts is its kind, the number of texts, and the texts in their order.
pub proof fn text_event_holds_its_texts(values: Seq<Seq<char>>, value: Seq<char>)
    ensures
        wire::text_event(values).subrange(0, 1) == seq![2u8],
        wire::text_event(values).subrange(1, 5) == wire::le32(values.len() as int),
        wire::text_event(values).subrange(5, wire::text_event(values).len() as int)
            == wire::framed_all(values),
        wire::framed_all(Seq::<Seq<char>>::empty()).len() == 0,
        wire::framed_all(values.push(value)) == wire::framed_all(values) + wire::framed(value),
{
    let bytes = wire::text_event(values);
    assert(bytes.subrange(0, 1) =~= seq![2u8]);
    assert(bytes.subrange(1, 5) =~= wire::le32(values.len() as int));
    assert(bytes.subrange(5, bytes.len() as int) =~= wire::framed_all(values));
    assert(values.push(value).drop_last() =~= values);
}

/// The number by which a kind of file is told: 1 for a regular file, 2 for a directory, 3 for a link and 0
/// for anything else.
pub open spec fn kind_number(kind: EntryKind) -> u8 {
    match kind {
        EntryKind::File => 1,
        EntryKind::Directory => 2,
        EntryKind::Symlink => 3,
        EntryKind::Other => 0,
    }
}

/// An entry is its kind, its flags, two empty bytes, its length, its time and its path. The flags tell by
/// the lowest bit whether there is a length, by the next whether there is a time, and by the one behind
/// that whether the file is read-only; a length or a time that is not there is written as zero.
pub proof fn entry_holds_its_facts(entry: RecordModel)
    ensures
        ({
            let bytes = wire::entry_bytes(entry);
            let flags = bytes[1];
            &&& bytes[0] == kind_number(entry.kind)
            &&& (flags % 2 == 1) == (entry.length is Some)
            &&& (flags / 2 % 2 == 1) == (entry.modified is Some)
            &&& (flags / 4 % 2 == 1) == entry.readonly
            &&& flags < 8
            &&& bytes[2] == 0 && bytes[3] == 0
            &&& bytes.subrange(4, 12) == wire::le64(
                match entry.length {
                    Some(length) => length as int,
                    None => 0,
                },
            )
            &&& bytes.subrange(12, 20) == wire::le64(
                match entry.modified {
                    Some(time) => time as int,
                    None => 0,
                },
            )
            &&& bytes.subrange(20, bytes.len() as int) == wire::framed(entry.path)
        }),
{
    let bytes = wire::entry_bytes(entry);
    assert(bytes[1] == wire::entry_flags(entry));
    assert(bytes.subrange(4, 12) =~= wire::le64(wire::or_zero(entry.length)));
    assert(bytes.subrange(12, 20) =~= wire::le64(wire::or_zero(entry.modified)));
    assert(bytes.subrange(20, bytes.len() as int) =~= wire::framed(entry.path));
}

/// An event with entries is its kind, the number of entries, and the entries in their order.
pub proof fn entry_event_holds_its_entries(entries: Seq<RecordModel>, entry: RecordModel)
    ensures
        wire::entry_event(entries).subrange(0, 1) == seq![1u8],
        wire::entry_event(entries).subrange(1, 5) == wire::le32(entries.len() as int),
        wire::entry_event(entries).subrange(5, wire::entry_event(entries).len() as int)
            == wire::entries_bytes(entries),
        wire::entries_bytes(Seq::<RecordModel>::empty()).len() == 0,
        wire::entries_bytes(entries.push(entry)) == wire::entries_bytes(entries)
            + wire::entry_bytes(entry),
{
    let bytes = wire::entry_event(entries);
    assert(bytes.subrange(0, 1) =~= seq![1u8]);
    assert(bytes.subrange(1, 5) =~= wire::le32(entries.len() as int));
    assert(bytes.subrange(5, bytes.len() as int) =~= wire::entries_bytes(entries));
    assert(entries.push(entry).drop_last() =~= entries);
}

/// An event with a failure is its kind, the code, the category, the message and the path, which is the
/// greatest number in the place of a length where there is none.
pub proof fn error_event_holds_the_report(report: ReportModel)
    ensures
        wire::error_event(report) == seq![3u8] + wire::framed(report.code) + wire::framed(
            report.category,
        ) + wire::framed(report.message) + (match report.path {
            Some(path) => wire::framed(path),
            None => seq![0xffu8, 0xffu8, 0xffu8, 0xffu8],
        }),
        wire::report_fits(report) == {
            &&& encode_utf8(report.code).len() <= u32::MAX
            &&& encode_utf8(report.category).len() <= u32::MAX
            &&& encode_utf8(report.message).len() <= u32::MAX
            &&& report.path matches Some(path) ==> encode_utf8(path).len() <= u32::MAX
        },
{
    assert(wire::le32(u32::MAX as int) =~= seq![0xffu8, 0xffu8, 0xffu8, 0xffu8]);
}

/// A request starts with the letters `FFS1`, and is refused otherwise.
pub proof fn requests_start_with_their_letters(bytes: Seq<u8>)
    ensures
        request::parsed_request(bytes) is Ok ==> bytes.len() >= 8 && bytes[0] == 'F' as int
            && bytes[1] == 'F' as int && bytes[2] == 'S' as int && bytes[3] == '1' as int,
{
}

/// A request holds at least one field and at most a million, and no more than its bytes have room for.
pub proof fn requests_hold_some_fields(bytes: Seq<u8>)
    requires
        bytes.len() >= 8,
    ensures
        ({
            let count = wire::from_le32(bytes.subrange(4, 8));
            request::parsed_request(bytes) is Ok ==> 1 <= count <= 1_000_000 && 8 + 4 * count
                <= bytes.len()
        }),
{
}

/// Bytes that a number or a text is to be read from and that end before it are refused, and so are
/// bytes that are no text.
pub proof fn cut_off_fields_are_refused(bytes: Seq<u8>, offset: int)
    requires
        0 <= offset,
    ensures
        bytes.len() < offset + 4 ==> request::u32_at(bytes, offset) is Err,
        offset + 4 <= bytes.len() <= usize::MAX ==> request::u32_at(bytes, offset) == Ok::<
            (int, int),
            Seq<char>,
        >((wire::from_le32(bytes.subrange(offset, offset + 4)), offset + 4)),
        offset + 4 <= bytes.len() <= usize::MAX ==> {
            let length = wire::from_le32(bytes.subrange(offset, offset + 4));
            let value = bytes.subrange(offset + 4, offset + 4 + length);
            &&& bytes.len() < offset + 4 + length ==> request::string_at(bytes, offset) is Err
            &&& 0 <= length && offset + 4 + length <= bytes.len() && !valid_utf8(value)
                ==> request::string_at(bytes, offset) is Err
            &&& 0 <= length && offset + 4 + length <= bytes.len() && valid_utf8(value)
                ==> request::string_at(bytes, offset) == Ok::<(Seq<char>, int), Seq<char>>(
                (decode_utf8(value), offset + 4 + length),
            )
        },
{
}

} // verus!
