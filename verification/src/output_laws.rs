//! What is printed for lines, numbers, files and failures.

use vstd::prelude::*;
use crate::chars;
use crate::find;
use crate::find::TypeFacts;
use crate::lines;
use crate::lines::SedLineRange;
use crate::list;
use crate::list::NamedModel;
use crate::order;
use crate::path;
use crate::path::PathPart;
use crate::report;
use crate::report::{FailureModel, FileFacts, IoFailureKind};
use crate::request;
use crate::request::Command;
use crate::rg;
use crate::scan_laws;
use crate::scanner::EventModel;
use crate::sink;
use crate::sink::{LineFormat, OutputModel};
use crate::text;
use crate::walk_laws;
use crate::wire::EntryKind;

verus! {

/// A number below ten is one digit, and any other is its digits but the last with the last behind them.
pub proof fn numbers_are_written_in_tens(tens: nat, digit: nat)
    requires
        digit < 10,
    ensures
        chars::decimal(digit).len() == 1,
        chars::decimal(digit)[0] as int == '0' as int + digit,
        tens > 0 ==> {
            let longer = chars::decimal(10 * tens + digit);
            &&& longer.len() == chars::decimal(tens).len() + 1
            &&& longer.drop_last() == chars::decimal(tens)
            &&& longer.last() as int == '0' as int + digit
        },
{
    lemma_digit(digit as int);
    if tens > 0 {
        let value = 10 * tens + digit;
        assert(value / 10 == tens && value % 10 == digit) by (nonlinear_arith)
            requires
                value == 10 * tens + digit,
                digit < 10,
        ;
        let longer = chars::decimal(value);
        assert(longer == chars::decimal(tens).push(chars::digit_char(digit as int)));
        assert(longer.drop_last() =~= chars::decimal(tens));
    }
}

proof fn lemma_digit(digit: int)
    requires
        0 <= digit < 10,
    ensures
        chars::digit_char(digit) as int == '0' as int + digit,
{
}

/// A line is printed behind its path and its number, each where it is asked for, and each with the
/// separator behind it.
pub proof fn line_is_printed_behind_path_and_number(
    path: Seq<char>,
    line: Seq<char>,
    number: nat,
    separator: char,
)
    ensures
        sink::search_line(path, false, false, line, number, separator) == line,
        sink::search_line(path, true, false, line, number, separator) == path + seq![separator]
            + line,
        sink::search_line(path, false, true, line, number, separator) == chars::decimal(number)
            + seq![separator] + line,
        sink::search_line(path, true, true, line, number, separator) == path + seq![separator]
            + chars::decimal(number) + seq![separator] + line,
        sink::count_line(path, false, number) == chars::decimal(number),
        sink::count_line(path, true, number) == path + seq![':'] + chars::decimal(number),
{
    reveal_strlit(":");
    assert(":"@ =~= seq![':']);
    assert(sink::search_line(path, false, false, line, number, separator) =~= line);
    assert(sink::search_line(path, true, false, line, number, separator) =~= path + seq![separator]
        + line);
    assert(sink::search_line(path, false, true, line, number, separator) =~= chars::decimal(number)
        + seq![separator] + line);
    assert(sink::search_line(path, true, true, line, number, separator) =~= path + seq![separator]
        + chars::decimal(number) + seq![separator] + line);
}

/// A line that matches is printed with `:` behind its path and its number, one around it with `-`, and a
/// mark for lines that are left out is `--`. A search for files prints the path at the first match and
/// ends with the file; one that counts prints nothing of lines.
pub proof fn lines_are_printed_by_their_kind(format: LineFormat, number: u64, bytes: Seq<u8>)
    ensures
        ({
            let shown = text::lossy(lines::without_line_ending(bytes));
            let matched = rg::event_output(format, EventModel::Matched(number, bytes));
            let around = rg::event_output(format, EventModel::Context(number, bytes));
            let mark = rg::event_output(format, EventModel::Break);
            if format.files_with_matches {
                &&& matched == OutputModel::PrintAndEnd(format.path@)
                &&& around == OutputModel::Nothing
                &&& mark == OutputModel::Nothing
            } else if format.count_only {
                &&& matched == OutputModel::Nothing
                &&& around == OutputModel::Nothing
                &&& mark == OutputModel::Nothing
            } else {
                &&& matched == OutputModel::Print(
                    sink::search_line(
                        format.path@,
                        format.include_path,
                        format.line_number,
                        shown,
                        number as nat,
                        ':',
                    ),
                )
                &&& around == OutputModel::Print(
                    sink::search_line(
                        format.path@,
                        format.include_path,
                        format.line_number,
                        shown,
                        number as nat,
                        '-',
                    ),
                )
                &&& mark matches OutputModel::Print(value) && value.len() == 2 && value[0] == '-'
                    && value[1] == '-'
            }
        }),
{
    reveal_strlit("--");
}

/// A line loses its line feed, and a carriage return directly before that, and nothing else.
pub proof fn line_endings_are_taken_off(line: Seq<u8>)
    ensures
        line.len() == 0 || line.last() != '\n' as int ==> lines::without_line_ending(line) == line,
        lines::without_line_ending(line + seq!['\r' as u8, '\n' as u8]) == line,
        line.len() == 0 || line.last() != '\r' as int ==> lines::without_line_ending(
            line + seq!['\n' as u8],
        ) == line,
{
    let both = line + seq!['\r' as u8, '\n' as u8];
    assert(both.drop_last() =~= line + seq!['\r' as u8]);
    assert((line + seq!['\r' as u8]).drop_last() =~= line);
    let one = line + seq!['\n' as u8];
    assert(one.drop_last() =~= line);
}

/// The lines of a file with their endings make up the file, and each but the last ends with its only line
/// feed.
pub proof fn lines_make_up_the_file(bytes: Seq<u8>)
    ensures
        joined(lines::file_lines(bytes)) == bytes,
        forall|i: int|
            0 <= i < lines::file_lines(bytes).len() ==> is_one_line(
                #[trigger] lines::file_lines(bytes)[i],
                i == lines::file_lines(bytes).len() - 1,
            ),
    decreases bytes.len(),
{
    if bytes.len() > 0 {
        let end = text::line_end(bytes, 0);
        lemma_end(bytes, 0);
        if end < bytes.len() {
            let first = bytes.subrange(0, end + 1);
            let rest = bytes.skip(end + 1);
            lines_make_up_the_file(rest);
            let all = lines::file_lines(bytes);
            let behind = lines::file_lines(rest);
            assert(all == seq![first] + behind);
            assert(all.drop_first() =~= behind);
            assert(joined(all) == first + joined(behind));
            assert(first + rest =~= bytes);
            assert forall|i: int| 0 <= i < all.len() implies is_one_line(
                #[trigger] all[i],
                i == all.len() - 1,
            ) by {
                if i > 0 {
                    assert(all[i] == behind[i - 1]);
                }
            }
        } else {
            assert(lines::file_lines(bytes) =~= seq![bytes]);
            assert(seq![bytes].drop_first().len() == 0);
            assert(joined(seq![bytes].drop_first()) =~= Seq::<u8>::empty());
            assert(bytes + Seq::<u8>::empty() =~= bytes);
        }
    } else {
        assert(joined(lines::file_lines(bytes)) =~= bytes);
    }
}

proof fn lemma_end(bytes: Seq<u8>, from: int)
    requires
        0 <= from <= bytes.len(),
    ensures
        scan_laws::ends_line(bytes, from, text::line_end(bytes, from)),
    decreases bytes.len() - from,
{
    if from < bytes.len() && bytes[from] != '\n' as int {
        lemma_end(bytes, from + 1);
    }
}

/// Byte strings one behind the other.
pub open spec fn joined(parts: Seq<Seq<u8>>) -> Seq<u8>
    decreases parts.len(),
{
    if parts.len() == 0 {
        Seq::empty()
    } else {
        parts[0] + joined(parts.drop_first())
    }
}

/// Whether bytes are one line: there is something, and no line feed but one at the end, which the last line
/// of a file may do without.
pub open spec fn is_one_line(bytes: Seq<u8>, last: bool) -> bool {
    &&& bytes.len() > 0
    &&& forall|i: int| 0 <= i < bytes.len() - 1 ==> #[trigger] bytes[i] != '\n' as int
    &&& last || bytes.last() == '\n' as int
}

/// The lines in a range are those from its first to its last number, counted from 1, as far as the file
/// has them.
pub proof fn range_holds_its_lines(bytes: Seq<u8>, range: SedLineRange, number: int)
    requires
        range.start >= 1,
    ensures
        ({
            let all = lines::file_lines(bytes);
            let inside = range.start <= number <= all.len() && (range.end matches Some(end)
                ==> number <= end);
            let texts = lines::range_texts(bytes, range);
            &&& inside ==> 0 <= number - range.start < texts.len() && texts[number - range.start]
                == text::lossy(lines::without_line_ending(all[number - 1]))
            &&& 0 <= number - range.start < texts.len() ==> inside
        }),
{
}

proof fn lemma_digits_stand(text: Seq<char>)
    requires
        chars::all_digits(text),
        text.len() > 0,
    ensures
        chars::trimmed(text) == text,
        forall|i: int| 0 <= i < text.len() ==> #[trigger] text[i] != ',' && text[i] != '$',
{
    assert(chars::is_digit(text[0]));
    assert(chars::is_digit(text.last()));
    assert forall|i: int| 0 <= i < text.len() implies #[trigger] text[i] != ',' && text[i] != '$' by {
        assert(chars::is_digit(text[i]));
    }
}

proof fn lemma_decimal_digits(value: nat)
    ensures
        chars::decimal(value).len() > 0,
        chars::all_digits(chars::decimal(value)),
    decreases value,
{
    if value < 10 {
        lemma_one_digit(value as int);
    } else {
        lemma_decimal_digits(value / 10);
        lemma_one_digit((value % 10) as int);
    }
}

proof fn lemma_one_digit(digit: int)
    requires
        0 <= digit < 10,
    ensures
        chars::is_digit(chars::digit_char(digit)),
{
}

proof fn lemma_index(text: Seq<char>, value: char, from: int, to: int)
    requires
        0 <= from <= to <= text.len(),
        forall|i: int| from <= i < to ==> #[trigger] text[i] != value,
        to < text.len() ==> text[to] == value,
    ensures
        chars::index_from(text, value, from) == to,
    decreases to - from,
{
    if from < to {
        lemma_index(text, value, from + 1, to);
    }
}

proof fn lemma_line_number(value: nat)
    requires
        1 <= value <= u64::MAX,
    ensures
        lines::line_number(chars::decimal(value)) == Some(value as int),
{
    chars::decimal_reads_back(value, u64::MAX as int);
}

/// `sed` with a number and `p` prints that line; with two numbers and a comma between them the lines from
/// the first to the second, unless the second is smaller, which is refused; with `$` as the second the
/// lines from the first to the end.
pub proof fn script_names_its_lines(first: nat, second: nat)
    requires
        1 <= first <= u64::MAX,
        1 <= second <= u64::MAX,
    ensures
        lines::parsed_script(chars::decimal(first) + seq!['p']) == Ok::<SedLineRange, Seq<char>>(
            SedLineRange { start: first as u64, end: Some(first as u64) },
        ),
        first <= second ==> lines::parsed_script(
            chars::decimal(first) + seq![','] + chars::decimal(second) + seq!['p'],
        ) == Ok::<SedLineRange, Seq<char>>(
            SedLineRange { start: first as u64, end: Some(second as u64) },
        ),
        first > second ==> lines::parsed_script(
            chars::decimal(first) + seq![','] + chars::decimal(second) + seq!['p'],
        ) is Err,
        lines::parsed_script(chars::decimal(first) + seq![',', '$', 'p']) == Ok::<
            SedLineRange,
            Seq<char>,
        >(SedLineRange { start: first as u64, end: None }),
{
    lemma_script(first, None);
    lemma_script(first, Some(chars::decimal(second)));
    lemma_script(first, Some(seq!['$']));
    lemma_line_number(second);
    lemma_decimal_digits(second);
    let one = chars::decimal(first);
    let two = chars::decimal(second);
    assert(one + seq![','] + seq!['$'] + seq!['p'] =~= one + seq![',', '$', 'p']);
    if two.len() == 1 {
        assert(chars::is_digit(two[0]));
    }
}

proof fn lemma_script(first: nat, second: Option<Seq<char>>)
    requires
        1 <= first <= u64::MAX,
        second matches Some(text) ==> text == seq!['$'] || text.len() > 0 && exists|value: nat|
            1 <= value <= u64::MAX && text == #[trigger] chars::decimal(value),
    ensures
        ({
            let one = chars::decimal(first);
            let script = match second {
                None => one + seq!['p'],
                Some(text) => one + seq![','] + text + seq!['p'],
            };
            lines::parsed_script(script) == lines::range_of(first as int, second)
        }),
{
    let one = chars::decimal(first);
    lemma_decimal_digits(first);
    lemma_digits_stand(one);
    lemma_line_number(first);
    assert(chars::is_digit(one[0]));
    match second {
        None => {
            let script = one + seq!['p'];
            assert(script[0] == one[0]);
            assert(script.last() == 'p');
            assert(chars::trimmed(script) == script);
            assert(script.drop_last() =~= one);
            lemma_index(one, ',', 0, one.len() as int);
            assert(one.subrange(0, one.len() as int) =~= one);
            assert(lines::parsed_script(script) == lines::range_of(first as int, None));
        },
        Some(text) => {
            if text != seq!['$'] {
                let value = choose|value: nat|
                    1 <= value <= u64::MAX && text == #[trigger] chars::decimal(value);
                lemma_decimal_digits(value);
                lemma_digits_stand(text);
            }
            assert(chars::trimmed(text) == text);
            assert(forall|i: int| 0 <= i < text.len() ==> #[trigger] text[i] != ',');
            let script = one + seq![','] + text + seq!['p'];
            assert(script[0] == one[0]);
            assert(script.last() == 'p');
            assert(chars::trimmed(script) == script);
            let addresses = script.drop_last();
            assert(addresses =~= one + seq![','] + text);
            let comma = one.len() as int;
            assert forall|i: int| 0 <= i < comma implies #[trigger] addresses[i] != ',' by {
                assert(addresses[i] == one[i]);
            }
            assert(addresses[comma] == ',');
            lemma_index(addresses, ',', 0, comma);
            assert forall|i: int| comma + 1 <= i < addresses.len() implies #[trigger] addresses[i]
                != ',' by {
                assert(addresses[i] == text[i - comma - 1]);
            }
            lemma_index(addresses, ',', comma + 1, addresses.len() as int);
            assert(addresses.subrange(0, comma) =~= one);
            assert(addresses.subrange(comma + 1, addresses.len() as int) =~= text);
        },
    }
}

/// A file is told with what it is: a link as such, whatever it points to, and otherwise a directory, a
/// regular file or something else; its length only where it is a regular file.
pub proof fn files_are_told_as_they_are(path: Seq<char>, facts: FileFacts)
    ensures
        ({
            let record = report::file_record(path, facts);
            &&& record.path == path
            &&& record.readonly == facts.readonly
            &&& facts.is_symlink ==> record.kind == EntryKind::Symlink
            &&& !facts.is_symlink && facts.is_dir ==> record.kind == EntryKind::Directory
            &&& !facts.is_symlink && !facts.is_dir && facts.is_file ==> record.kind
                == EntryKind::File
            &&& !facts.is_symlink && !facts.is_dir && !facts.is_file ==> record.kind
                == EntryKind::Other
            &&& facts.is_file ==> record.length == Some(facts.length)
            &&& !facts.is_file ==> record.length is None
            &&& facts.modified_milliseconds is None ==> record.modified is None
            &&& facts.modified_milliseconds matches Some(time) ==> record.modified == if time
                <= u64::MAX {
                Some(time as u64)
            } else {
                None
            }
        }),
{
}

/// A failure at a path names the path and the reason, under the category of its kind.
pub proof fn failures_name_path_and_reason(code: Seq<char>, path: Seq<char>, failure: FailureModel)
    ensures
        ({
            let told = report::io_report(code, path, failure);
            &&& told.code == code
            &&& told.path == Some(path)
            &&& told.message == path + seq![':', ' '] + failure.message
            &&& failure.kind == IoFailureKind::NotFound ==> told.category == "ObjectNotFound"@
            &&& failure.kind == IoFailureKind::PermissionDenied ==> told.category
                == "PermissionDenied"@
            &&& failure.kind == IoFailureKind::InvalidInput || failure.kind
                == IoFailureKind::InvalidData ==> told.category == "InvalidArgument"@
            &&& failure.kind == IoFailureKind::Other ==> told.category == "NotSpecified"@
        }),
{
    reveal_strlit(": ");
    assert(": "@ =~= seq![':', ' ']);
}

/// Each command goes by its name, and by no other.
pub proof fn commands_go_by_their_names(name: Seq<char>)
    ensures
        (request::command_of(name) == Command::Ls) == (name == "ls"@),
        (request::command_of(name) == Command::Touch) == (name == "touch"@),
        (request::command_of(name) == Command::Find) == (name == "find"@),
        (request::command_of(name) == Command::Cat) == (name == "cat"@),
        (request::command_of(name) == Command::Sed) == (name == "sed"@),
        (request::command_of(name) == Command::Rg) == (name == "rg"@),
{
    reveal_strlit("ls");
    reveal_strlit("touch");
    reveal_strlit("find");
    reveal_strlit("cat");
    reveal_strlit("sed");
    reveal_strlit("rg");
    assert("ls"@.len() == 2 && "ls"@[0] == 'l');
    assert("rg"@.len() == 2 && "rg"@[0] == 'r');
    assert("cat"@.len() == 3 && "cat"@[0] == 'c');
    assert("sed"@.len() == 3 && "sed"@[0] == 's');
    assert("touch"@.len() == 5);
    assert("find"@.len() == 4);
}

/// `find` asks for a file by its name and its type both, and goes into directories that are no links.
pub proof fn find_asks_for_name_and_type(
    pattern: Seq<char>,
    filter: Option<crate::arguments::KindFilter>,
    name: Seq<char>,
    facts: FileFacts,
)
    ensures
        ({
            let kind = TypeFacts {
                is_symlink: facts.is_symlink,
                is_dir: facts.is_dir,
                is_file: facts.is_file,
            };
            &&& find::type_of(facts) == kind
            &&& find::goes_into(kind) == (facts.is_dir && !facts.is_symlink)
            &&& find::wanted(pattern, filter, Some(name), kind) == (
            crate::wildcard::name_matches(pattern, name) && find::type_matches(kind, filter))
            &&& !find::wanted(pattern, filter, None, kind)
            &&& find::type_matches(kind, None)
        }),
{
}

/// Whether a name comes before another one: it is a beginning of it, or smaller at the first byte at which
/// they differ.
pub open spec fn comes_first(left: Seq<u8>, right: Seq<u8>) -> bool {
    exists|k: int| #[trigger] differ_first_at(left, right, k)
}

/// Whether two names agree before a place, at which the first ends or is smaller.
pub open spec fn differ_first_at(left: Seq<u8>, right: Seq<u8>, k: int) -> bool {
    &&& 0 <= k <= left.len()
    &&& k <= right.len()
    &&& forall|i: int| 0 <= i < k ==> #[trigger] left[i] == right[i]
    &&& k == left.len() || k < right.len() && left[k] < right[k]
}

/// Names are put in order byte by byte.
pub proof fn names_are_compared_byte_by_byte(left: Seq<u8>, right: Seq<u8>)
    ensures
        order::name_le(left, right) == comes_first(left, right),
    decreases left.len(),
{
    if left.len() == 0 {
        assert(differ_first_at(left, right, 0));
    } else if right.len() > 0 {
        let l = left.drop_first();
        let r = right.drop_first();
        names_are_compared_byte_by_byte(l, r);
        if left[0] < right[0] {
            assert(differ_first_at(left, right, 0));
        } else if left[0] == right[0] {
            if comes_first(l, r) {
                let k = choose|k: int| #[trigger] differ_first_at(l, r, k);
                assert forall|i: int| 0 <= i < k + 1 implies #[trigger] left[i] == right[i] by {
                    if i > 0 {
                        assert(l[i - 1] == r[i - 1]);
                    }
                }
                if k < l.len() {
                    assert(left[k + 1] == l[k] && right[k + 1] == r[k]);
                }
                assert(differ_first_at(left, right, k + 1));
            }
            if comes_first(left, right) {
                let k = choose|k: int| #[trigger] differ_first_at(left, right, k);
                assert(k > 0);
                assert forall|i: int| 0 <= i < k - 1 implies #[trigger] l[i] == r[i] by {
                    assert(left[i + 1] == right[i + 1]);
                }
                if k < left.len() {
                    assert(left[k] == l[k - 1] && right[k] == r[k - 1]);
                }
                assert(differ_first_at(l, r, k - 1));
            }
        } else if comes_first(left, right) {
            let k = choose|k: int| #[trigger] differ_first_at(left, right, k);
            assert(k == 0 || left[0] == right[0]);
        }
    } else if comes_first(left, right) {
        let k = choose|k: int| #[trigger] differ_first_at(left, right, k);
        assert(k == 0);
    }
}

/// A listing holds an entry just where hidden names are asked for or its name is none: one is hidden where
/// it is text that starts with a dot. No entry comes twice, and a smaller name never comes behind a larger
/// one.
pub proof fn listing_holds_what_is_not_hidden(
    entries: Seq<NamedModel>,
    show_all: bool,
    found: Seq<usize>,
    index: usize,
)
    requires
        list::listed_in_order(entries, show_all, found),
        index < entries.len(),
    ensures
        found.contains(index) == (show_all || !({
            let name = entries[index as int].name;
            name.utf8 && name.text.len() > 0 && name.text[0] == '.'
        })),
        forall|i: int, j: int|
            0 <= i < j < found.len() ==> found[i] != found[j] && comes_first(
                entries[#[trigger] found[i] as int].name.raw,
                entries[#[trigger] found[j] as int].name.raw,
            ),
{
    let name = entries[index as int].name;
    let path = seq![PathPart::Normal(name)];
    walk_laws::hidden_is_a_dot_in_the_last_name(path);
    assert(path.last() == PathPart::Normal(name));
    assert(list::hidden_name(name) == path::hidden(path));
    assert forall|i: int, j: int| 0 <= i < j < found.len() implies found[i] != found[j]
        && comes_first(
        entries[#[trigger] found[i] as int].name.raw,
        entries[#[trigger] found[j] as int].name.raw,
    ) by {
        names_are_compared_byte_by_byte(
            entries[found[i] as int].name.raw,
            entries[found[j] as int].name.raw,
        );
    }
}

} // verus!
