//! How the lines of ignore files are read, and which ignore files count for a directory.

use vstd::prelude::*;
use crate::context;
use crate::context::{ErrorModel, IgnoreFileName, IgnoreFilePresence, OutcomeModel, ReadModel};
use crate::glob;
use crate::glob::GlobModel;
use crate::ignore;
use crate::ignore::{LayerModel, RuleModel};
use crate::path;
use crate::path::PathPart;
use crate::scan_laws;
use crate::text;
use crate::walk::NativeWalker;

verus! {

/// So many bytes of one kind.
pub open spec fn repeated(byte: u8, count: nat) -> Seq<u8> {
    Seq::new(count, |i: int| byte)
}

/// A sign where it is wanted, and nothing otherwise.
pub open spec fn optional(sign: u8, wanted: bool) -> Seq<u8> {
    if wanted {
        seq![sign]
    } else {
        Seq::empty()
    }
}

/// Whether bytes can be a pattern without anything to take off: the first is none that opens a comment,
/// takes back in or anchors, nor one of a byte order mark, and the last is no space, slash, backslash or
/// carriage return.
pub open spec fn is_bare_pattern(bytes: Seq<u8>) -> bool {
    &&& 0 < bytes.len() <= 1024
    &&& bytes[0] != '#' as int && bytes[0] != '!' as int && bytes[0] != '/' as int && bytes[0]
        != 0xef
    &&& bytes.last() != ' ' as int && bytes.last() != '/' as int && bytes.last() != '\\' as int
        && bytes.last() != '\r' as int
}

/// A pattern with what may stand around it in a line.
pub open spec fn dressed(
    pattern: Seq<u8>,
    takes_back: bool,
    anchored: bool,
    directories: bool,
    spaces: nat,
    carriage_return: bool,
) -> Seq<u8> {
    optional('!' as u8, takes_back) + optional('/' as u8, anchored) + pattern + optional(
        '/' as u8,
        directories,
    ) + repeated(' ' as u8, spaces) + optional('\r' as u8, carriage_return)
}

/// A byte is escaped by an odd number of backslashes directly before it, and by an even number not.
pub proof fn odd_backslashes_escape(before: Seq<u8>, count: nat, after: Seq<u8>)
    requires
        before.len() == 0 || before.last() != '\\' as int,
    ensures
        glob::escaped(
            before + repeated('\\' as u8, count) + after,
            (before.len() + count) as int,
        ) == (count % 2 == 1),
    decreases count,
{
    let bytes = before + repeated('\\' as u8, count) + after;
    let index = (before.len() + count) as int;
    if count > 0 {
        assert(bytes[index - 1] == '\\' as int);
        let less = (count - 1) as nat;
        odd_backslashes_escape(before, less, seq!['\\' as u8] + after);
        assert(before + repeated('\\' as u8, less) + (seq!['\\' as u8] + after) =~= bytes);
    } else if before.len() > 0 {
        assert(bytes[index - 1] == before.last());
    }
}

proof fn lemma_spaces(value: Seq<u8>, count: nat)
    requires
        value.len() > 0,
        value.last() != ' ' as int,
        value.last() != '\\' as int,
    ensures
        ignore::without_trailing_spaces(value + repeated(' ' as u8, count)) == value,
    decreases count,
{
    let longer = value + repeated(' ' as u8, count);
    if count > 0 {
        let less = (count - 1) as nat;
        assert(longer.last() == ' ' as int);
        assert(longer.drop_last() =~= value + repeated(' ' as u8, less));
        let last = longer.len() - 1;
        assert(longer[last - 1] != '\\' as int) by {
            if less > 0 {
                assert(longer[last - 1] == ' ' as int);
            } else {
                assert(longer[last - 1] == value.last());
            }
        }
        lemma_spaces(value, less);
    } else {
        assert(longer =~= value);
    }
}

proof fn lemma_core(pattern: Seq<u8>, anchored: bool, directories: bool, includes: bool)
    requires
        is_bare_pattern(pattern),
    ensures
        ignore::rule_of_pattern(
            optional('/' as u8, anchored) + pattern + optional('/' as u8, directories),
            includes,
        ) == Some(
            RuleModel {
                glob: GlobModel {
                    pattern,
                    path_pattern: anchored || pattern.contains('/' as u8),
                },
                includes,
                directory_only: directories,
            },
        ),
{
    let core = optional('/' as u8, anchored) + pattern + optional('/' as u8, directories);
    let inner = optional('/' as u8, anchored) + pattern;
    assert(inner.last() == pattern.last());
    if directories {
        assert(core.last() == '/' as int);
        assert(core.drop_last() =~= inner);
        assert(core[core.len() - 2] == inner.last());
        assert(!glob::escaped(core, core.len() - 1));
        assert(ignore::ends_unescaped(core, '/' as u8));
    } else {
        assert(core =~= inner);
    }
    if anchored {
        assert(inner[0] == '/' as int);
        assert(inner.subrange(1, inner.len() as int) =~= pattern);
    } else {
        assert(inner =~= pattern);
    }
    assert(glob::without_leading_slash(inner) == pattern);
}

proof fn lemma_trimmed(signed: Seq<u8>, spaces: nat, carriage_return: bool)
    requires
        signed.len() > 0,
        signed[0] != 0xef,
        signed.last() != ' ' as int,
        signed.last() != '\\' as int,
        signed.last() != '\r' as int,
    ensures
        ignore::without_trailing_spaces(
            ignore::without_mark(
                text::without_carriage_return(
                    signed + repeated(' ' as u8, spaces) + optional('\r' as u8, carriage_return),
                ),
            ),
        ) == signed,
{
    let spaced = signed + repeated(' ' as u8, spaces);
    let line = spaced + optional('\r' as u8, carriage_return);
    if carriage_return {
        assert(line.drop_last() =~= spaced);
        assert(line.last() == '\r' as int);
    } else {
        assert(line =~= spaced);
        if spaces > 0 {
            assert(spaced.last() == ' ' as int);
        } else {
            assert(spaced =~= signed);
        }
    }
    assert(spaced[0] == signed[0]);
    lemma_spaces(signed, spaces);
}

/// A line of an ignore file is a pattern with what may stand around it: `!` before it takes back in, a
/// slash before it ties it to the directory of the file, a slash behind it restricts it to directories,
/// and spaces and a carriage return at the end do not count. A pattern with a slash in it is tied to the
/// directory as well.
pub proof fn line_is_a_pattern_with_its_signs(
    pattern: Seq<u8>,
    takes_back: bool,
    anchored: bool,
    directories: bool,
    spaces: nat,
    carriage_return: bool,
)
    requires
        is_bare_pattern(pattern),
    ensures
        ignore::rule_of_line(
            dressed(pattern, takes_back, anchored, directories, spaces, carriage_return),
        ) == Some(
            RuleModel {
                glob: GlobModel {
                    pattern,
                    path_pattern: anchored || pattern.contains('/' as u8),
                },
                includes: takes_back,
                directory_only: directories,
            },
        ),
{
    let line = dressed(pattern, takes_back, anchored, directories, spaces, carriage_return);
    let core = optional('/' as u8, anchored) + pattern + optional('/' as u8, directories);
    let signed = optional('!' as u8, takes_back) + core;
    assert(line =~= signed + repeated(' ' as u8, spaces) + optional('\r' as u8, carriage_return));
    assert(signed.last() == core.last());
    assert(core.last() == if directories {
        '/' as u8
    } else {
        pattern.last()
    });
    assert(core[0] == if anchored {
        '/' as u8
    } else {
        pattern[0]
    });
    assert(signed[0] == if takes_back {
        '!' as u8
    } else {
        core[0]
    });
    lemma_trimmed(signed, spaces, carriage_return);
    lemma_core(pattern, anchored, directories, takes_back);
    if takes_back {
        assert(signed.subrange(1, signed.len() as int) =~= core);
    } else {
        assert(signed =~= core);
    }
}

/// An empty line holds no rule, nor does one of spaces, nor one that starts with `#`.
pub proof fn comments_hold_no_rule(line: Seq<u8>, spaces: nat)
    ensures
        ignore::rule_of_line(repeated(' ' as u8, spaces)) is None,
        line.len() > 0 && line[0] == '#' as int ==> ignore::rule_of_line(line) is None,
{
    let blank = repeated(' ' as u8, spaces);
    lemma_blank(spaces);
    if spaces > 0 {
        assert(blank.last() == ' ' as int);
        assert(blank[0] == ' ' as int);
    }
    assert(text::without_carriage_return(blank) == blank);
    assert(ignore::without_mark(blank) == blank);
    if line.len() > 0 && line[0] == '#' as int {
        let first = text::without_carriage_return(line);
        assert(first.len() > 0 && first[0] == '#' as int);
        assert(ignore::without_mark(first) == first);
        lemma_keeps_first(first);
    }
}

proof fn lemma_blank(spaces: nat)
    ensures
        ignore::without_trailing_spaces(repeated(' ' as u8, spaces)).len() == 0,
    decreases spaces,
{
    let blank = repeated(' ' as u8, spaces);
    if spaces > 0 {
        let less = (spaces - 1) as nat;
        lemma_blank(less);
        assert(blank.drop_last() =~= repeated(' ' as u8, less));
        assert(blank.last() == ' ' as int);
        if spaces > 1 {
            assert(blank[spaces - 2] == ' ' as int);
        }
        assert(!glob::escaped(blank, spaces - 1));
    }
}

proof fn lemma_keeps_first(value: Seq<u8>)
    requires
        value.len() > 0,
        value[0] != ' ' as int,
    ensures
        ignore::without_trailing_spaces(value).len() > 0,
        ignore::without_trailing_spaces(value)[0] == value[0],
    decreases value.len(),
{
    if value.last() == ' ' as int && !glob::escaped(value, value.len() - 1) {
        assert(value.len() > 1);
        lemma_keeps_first(value.drop_last());
    }
}

/// A space at the end of a line that an odd number of backslashes escapes stays.
pub proof fn escaped_space_stays(before: Seq<u8>, count: nat)
    requires
        before.len() == 0 || before.last() != '\\' as int,
        count % 2 == 1,
    ensures
        ({
            let line = before + repeated('\\' as u8, count) + seq![' ' as u8];
            ignore::without_trailing_spaces(line) == line
        }),
{
    odd_backslashes_escape(before, count, seq![' ' as u8]);
}

/// A byte order mark at the start of a line does not count.
pub proof fn mark_does_not_count(line: Seq<u8>)
    requires
        line.len() > 0,
    ensures
        ignore::without_mark(seq![0xefu8, 0xbbu8, 0xbfu8] + line) == line,
        line[0] != 0xef ==> ignore::without_mark(line) == line,
{
    let marked = seq![0xefu8, 0xbbu8, 0xbfu8] + line;
    assert(marked.subrange(3, marked.len() as int) =~= line);
}

/// The rules of a file are those of its lines, in their order.
pub proof fn rules_come_in_the_order_of_lines(lines: Seq<Seq<u8>>, line: Seq<u8>)
    ensures
        ignore::rules_of_lines(Seq::<Seq<u8>>::empty()).len() == 0,
        ignore::rules_of_lines(lines.push(line)) == match ignore::rule_of_line(line) {
            Some(rule) => ignore::rules_of_lines(lines).push(rule),
            None => ignore::rules_of_lines(lines),
        },
{
    assert(lines.push(line).drop_last() =~= lines);
}

proof fn lemma_text_end(bytes: Seq<u8>, from: int)
    requires
        0 <= from <= bytes.len(),
    ensures
        scan_laws::ends_line(bytes, from, text::line_end(bytes, from)),
    decreases bytes.len() - from,
{
    if from < bytes.len() && bytes[from] != '\n' as int {
        lemma_text_end(bytes, from + 1);
    }
}

proof fn lemma_feeds(bytes: Seq<u8>, from: int, to: int)
    requires
        0 <= from <= to <= bytes.len(),
        forall|i: int| from <= i < to ==> #[trigger] bytes[i] != '\n' as int,
    ensures
        scan_laws::feeds_before(bytes, to) == scan_laws::feeds_before(bytes, from),
    decreases to - from,
{
    if from < to {
        lemma_feeds(bytes, from, to - 1);
    }
}

proof fn lemma_line(bytes: Seq<u8>, at: int, place: int, end: int)
    requires
        scan_laws::starts_line(bytes, at),
        scan_laws::starts_line(bytes, place),
        at <= place,
        scan_laws::ends_line(bytes, place, end),
    ensures
        ({
            let lines = text::lines_from(bytes, at);
            let index = scan_laws::feeds_before(bytes, place) - scan_laws::feeds_before(bytes, at);
            &&& 0 <= index < lines.len()
            &&& lines[index] == if end < bytes.len() && end > place && bytes[end - 1]
                == '\r' as int {
                bytes.subrange(place, end - 1)
            } else {
                bytes.subrange(place, end)
            }
        }),
    decreases bytes.len() - at,
{
    let lines = text::lines_from(bytes, at);
    lemma_text_end(bytes, at);
    let stop = text::line_end(bytes, at);
    if place == at {
        assert(stop == end) by {
            if stop < end {
                assert(bytes[stop] != '\n' as int);
            }
            if end < stop {
                assert(bytes[end] != '\n' as int);
            }
        }
        let raw = bytes.subrange(place, end);
        assert(end > place ==> raw.last() == bytes[end - 1]);
        if end < bytes.len() && end > place && bytes[end - 1] == '\r' as int {
            assert(text::without_carriage_return(raw) =~= bytes.subrange(place, end - 1));
        }
    } else {
        assert(stop < place) by {
            if stop >= place {
                assert(bytes[place - 1] != '\n' as int);
            }
        }
        lemma_line(bytes, stop + 1, place, end);
        lemma_feeds(bytes, at, stop);
        assert(scan_laws::feeds_before(bytes, stop + 1) == scan_laws::feeds_before(bytes, at) + 1);
        let rest = text::lines_from(bytes, stop + 1);
        let index = scan_laws::feeds_before(bytes, place) - scan_laws::feeds_before(bytes, at);
        assert(lines[index] == rest[index - 1]);
    }
}

/// A file has the lines between its line feeds, in their order and without a carriage return before a line
/// feed.
pub proof fn lines_lie_between_feeds(bytes: Seq<u8>, place: int, end: int)
    requires
        scan_laws::starts_line(bytes, place),
        scan_laws::ends_line(bytes, place, end),
    ensures
        ({
            let lines = text::lines_from(bytes, 0);
            let index = scan_laws::feeds_before(bytes, place) as int;
            &&& index < lines.len()
            &&& lines[index] == if end < bytes.len() && end > place && bytes[end - 1]
                == '\r' as int {
                bytes.subrange(place, end - 1)
            } else {
                bytes.subrange(place, end)
            }
        }),
{
    lemma_line(bytes, 0, place, end);
}

/// The ignore files have their names.
pub proof fn ignore_files_have_their_names()
    ensures
        IgnoreFileName::Gitignore.spelling() == Some(".gitignore"@),
        IgnoreFileName::Ignore.spelling() == Some(".ignore"@),
        IgnoreFileName::Rgignore.spelling() == Some(".rgignore"@),
        IgnoreFileName::GitExclude.spelling() is None,
{
}

/// Whether a file overrides another one of the same directory: `.rgignore` all others, `.ignore` those of
/// Git, and `.gitignore` Git's exclude files.
pub open spec fn overrides(one: IgnoreFileName, other: IgnoreFileName) -> bool {
    match (one, other) {
        (IgnoreFileName::Rgignore, IgnoreFileName::Rgignore) => false,
        (IgnoreFileName::Rgignore, _) => true,
        (IgnoreFileName::Ignore, IgnoreFileName::Gitignore) => true,
        (IgnoreFileName::Ignore, IgnoreFileName::GitExclude) => true,
        (IgnoreFileName::Gitignore, IgnoreFileName::GitExclude) => true,
        _ => false,
    }
}

/// Of the files of one directory one that overrides another comes behind it, and none is lost or added.
pub proof fn overriding_files_come_last(reads: Seq<ReadModel>)
    ensures
        forall|i: int, j: int|
            0 <= i < j < context::ordered_reads(reads).len() ==> !overrides(
                (#[trigger] context::ordered_reads(reads)[i]).name,
                (#[trigger] context::ordered_reads(reads)[j]).name,
            ),
        forall|read: ReadModel|
            #[trigger] context::ordered_reads(reads).contains(read) == reads.contains(read),
{
    let git = context::reads_named(reads, IgnoreFileName::GitExclude);
    let own = context::reads_named(reads, IgnoreFileName::Gitignore);
    let general = context::reads_named(reads, IgnoreFileName::Ignore);
    let special = context::reads_named(reads, IgnoreFileName::Rgignore);
    lemma_named(reads, IgnoreFileName::GitExclude);
    lemma_named(reads, IgnoreFileName::Gitignore);
    lemma_named(reads, IgnoreFileName::Ignore);
    lemma_named(reads, IgnoreFileName::Rgignore);
    let all = context::ordered_reads(reads);
    assert(all == git + own + general + special);
    assert forall|i: int| 0 <= i < all.len() implies ({
        let name = (#[trigger] all[i]).name;
        &&& i < git.len() <==> name is GitExclude
        &&& git.len() <= i < git.len() + own.len() <==> name is Gitignore
        &&& git.len() + own.len() <= i < git.len() + own.len() + general.len() <==> name is Ignore
    }) by {
        if i < git.len() {
            assert(all[i] == git[i]);
        } else if i < git.len() + own.len() {
            assert(all[i] == own[i - git.len()]);
        } else if i < git.len() + own.len() + general.len() {
            assert(all[i] == general[i - git.len() - own.len()]);
        } else {
            assert(all[i] == special[i - git.len() - own.len() - general.len()]);
        }
    }
    assert forall|read: ReadModel| #[trigger] all.contains(read) == reads.contains(read) by {
        if all.contains(read) {
            let i = choose|i: int| 0 <= i < all.len() && all[i] == read;
            if i < git.len() {
                assert(git[i] == read);
                assert(git.contains(read));
            } else if i < git.len() + own.len() {
                assert(own[i - git.len()] == read);
                assert(own.contains(read));
            } else if i < git.len() + own.len() + general.len() {
                assert(general[i - git.len() - own.len()] == read);
                assert(general.contains(read));
            } else {
                assert(special[i - git.len() - own.len() - general.len()] == read);
                assert(special.contains(read));
            }
        }
        if reads.contains(read) {
            match read.name {
                IgnoreFileName::GitExclude => {
                    assert(git.contains(read));
                    let i = choose|i: int| 0 <= i < git.len() && git[i] == read;
                    assert(all[i] == read);
                },
                IgnoreFileName::Gitignore => {
                    assert(own.contains(read));
                    let i = choose|i: int| 0 <= i < own.len() && own[i] == read;
                    assert(all[git.len() + i] == read);
                },
                IgnoreFileName::Ignore => {
                    assert(general.contains(read));
                    let i = choose|i: int| 0 <= i < general.len() && general[i] == read;
                    assert(all[git.len() + own.len() + i] == read);
                },
                IgnoreFileName::Rgignore => {
                    assert(special.contains(read));
                    let i = choose|i: int| 0 <= i < special.len() && special[i] == read;
                    assert(all[git.len() + own.len() + general.len() + i] == read);
                },
            }
        }
    }
}

proof fn lemma_named(reads: Seq<ReadModel>, name: IgnoreFileName)
    ensures
        forall|i: int|
            0 <= i < context::reads_named(reads, name).len() ==> (#[trigger] context::reads_named(
                reads,
                name,
            )[i]).name == name,
        forall|read: ReadModel|
            #[trigger] context::reads_named(reads, name).contains(read) == (reads.contains(read)
                && read.name == name),
    decreases reads.len(),
{
    if reads.len() > 0 {
        let shorter = reads.drop_last();
        lemma_named(shorter, name);
        let before = context::reads_named(shorter, name);
        let all = context::reads_named(reads, name);
        assert forall|read: ReadModel| #[trigger] all.contains(read) == (reads.contains(read)
            && read.name == name) by {
            if all.contains(read) {
                let i = choose|i: int| 0 <= i < all.len() && all[i] == read;
                if i < before.len() {
                    assert(before[i] == read);
                    assert(before.contains(read));
                    let k = choose|k: int| 0 <= k < shorter.len() && shorter[k] == read;
                    assert(reads[k] == read);
                } else {
                    assert(reads[reads.len() - 1] == read);
                }
            }
            if reads.contains(read) && read.name == name {
                let k = choose|k: int| 0 <= k < reads.len() && reads[k] == read;
                if k < shorter.len() {
                    assert(shorter[k] == read);
                    assert(before.contains(read));
                    let i = choose|i: int| 0 <= i < before.len() && before[i] == read;
                    assert(all[i] == read);
                } else {
                    assert(all[all.len() - 1] == read);
                }
            }
        }
    }
}

/// An ignore file that was read makes one more layer of rules, tied to its directory, inside of those
/// before it; one without rules, a missing one and one that cannot be read make none, and the last of
/// these is reported.
pub proof fn each_file_makes_a_layer(
    layers: Seq<LayerModel>,
    base: Seq<PathPart>,
    reads: Seq<ReadModel>,
    read: ReadModel,
)
    ensures
        ({
            let before = context::layers_after(layers, base, reads);
            let after = context::layers_after(layers, base, reads.push(read));
            let told = context::read_errors(base, reads);
            let told_after = context::read_errors(base, reads.push(read));
            match read.outcome {
                OutcomeModel::Missing => after == before && told_after == told,
                OutcomeModel::Failed(reason) => {
                    &&& after == before
                    &&& told_after.len() == told.len() + 1
                    &&& told_after.drop_last() == told
                    &&& told_after.last().path == Some(read.path)
                    &&& told_after.last().message == reason
                },
                OutcomeModel::Bytes(bytes) => bytes.len() <= 8_388_608 ==> {
                    &&& told_after == told
                    &&& after == if ignore::rules_of_file(bytes).len() == 0 {
                        before
                    } else {
                        before.push(LayerModel { base, rules: ignore::rules_of_file(bytes) })
                    }
                },
            }
        }),
{
    assert(reads.push(read).drop_last() =~= reads);
    let told = context::read_errors(base, reads);
    let told_after = context::read_errors(base, reads.push(read));
    if read.outcome is Failed {
        assert(told_after.drop_last() =~= told);
    }
}

/// Where ignore files are left unread, none is read and no rule holds at a root.
pub proof fn no_ignore_leaves_files_unread(
    present: Option<IgnoreFilePresence>,
    walker: NativeWalker,
    root_dir: Seq<PathPart>,
    reads: Seq<Seq<ReadModel>>,
)
    ensures
        context::ordered_files(context::wanted(true, present)).len() == 0,
        walker.options.no_ignore ==> context::root_chain(walker, root_dir, reads).layers.len() == 0,
{
}

/// Otherwise those are read that a directory holds, and all where that is not known.
pub proof fn present_files_are_read(present: IgnoreFilePresence)
    ensures
        context::ordered_files(context::wanted(false, Some(present))).contains(
            IgnoreFileName::Gitignore,
        ) == present.gitignore,
        context::ordered_files(context::wanted(false, Some(present))).contains(
            IgnoreFileName::Ignore,
        ) == present.ignore,
        context::ordered_files(context::wanted(false, Some(present))).contains(
            IgnoreFileName::Rgignore,
        ) == present.rgignore,
        context::ordered_files(context::wanted(false, Some(present))).contains(
            IgnoreFileName::GitExclude,
        ) == present.dot_git,
        context::ordered_files(context::wanted(false, None)) == seq![
            IgnoreFileName::GitExclude,
            IgnoreFileName::Gitignore,
            IgnoreFileName::Ignore,
            IgnoreFileName::Rgignore,
        ],
{
    let files = context::ordered_files(context::wanted(false, Some(present)));
    let git: int = if present.dot_git {
        1
    } else {
        0
    };
    let own: int = if present.gitignore {
        git + 1
    } else {
        git
    };
    let general: int = if present.ignore {
        own + 1
    } else {
        own
    };
    if present.dot_git {
        assert(files[0] == IgnoreFileName::GitExclude);
    }
    if present.gitignore {
        assert(files[git] == IgnoreFileName::Gitignore);
    }
    if present.ignore {
        assert(files[own] == IgnoreFileName::Ignore);
    }
    if present.rgignore {
        assert(files[general] == IgnoreFileName::Rgignore);
    }
    assert(context::ordered_files(context::wanted(false, None)) =~= seq![
        IgnoreFileName::GitExclude,
        IgnoreFileName::Gitignore,
        IgnoreFileName::Ignore,
        IgnoreFileName::Rgignore,
    ]);
}

/// The directories above a path are its beginnings, each one name longer than the one before it, up to the
/// path without its last name.
pub proof fn directories_above_are_beginnings(path: Seq<PathPart>, index: int)
    requires
        0 <= index < context::ancestors(path).len(),
    ensures
        context::ancestors(path).len() <= path.len(),
        context::ancestors(path)[index] == path.subrange(
            0,
            path.len() - context::ancestors(path).len() + index,
        ),
    decreases path.len(),
{
    let above = path::parent(path)->0;
    assert(path::parent(path) is Some);
    assert(above == path.drop_last());
    let before = context::ancestors(above);
    if before.len() > 0 {
        directories_above_are_beginnings(above, if index < before.len() {
            index
        } else {
            0
        });
    }
    if index < before.len() {
        assert(context::ancestors(path)[index] == before[index]);
        assert(above.subrange(0, above.len() - before.len() + index) =~= path.subrange(
            0,
            above.len() - before.len() + index,
        ));
    } else {
        assert(context::ancestors(path)[index] == above);
        assert(above =~= path.subrange(0, path.len() - 1));
    }
}

/// The rules of an inner directory come inside of those of the outer ones.
pub proof fn inner_directories_come_last(
    layers: Seq<LayerModel>,
    directories: Seq<Seq<PathPart>>,
    reads: Seq<Seq<ReadModel>>,
    count: int,
)
    requires
        0 < count,
    ensures
        context::layers_of_directories(layers, directories, reads, 0) == layers,
        context::layers_of_directories(layers, directories, reads, count)
            == context::layers_after(
            context::layers_of_directories(layers, directories, reads, count - 1),
            directories[count - 1],
            context::ordered_reads(reads[count - 1]),
        ),
{
}

/// At a root hold the user's own rules, and inside of these the rules of the directories above it; the
/// root itself is not ignored as a whole.
pub proof fn rules_at_a_root(
    walker: NativeWalker,
    root_dir: Seq<PathPart>,
    reads: Seq<Seq<ReadModel>>,
)
    requires
        !walker.options.no_ignore,
    ensures
        ({
            let chain = context::root_chain(walker, root_dir, reads);
            let own = ignore::template_models(walker.global_rules@);
            &&& chain.explicit_root == Some(root_dir)
            &&& chain.layers == context::layers_of_directories(
                if own.len() == 0 {
                    Seq::empty()
                } else {
                    seq![LayerModel { base: root_dir, rules: own }]
                },
                context::ancestors(root_dir),
                reads,
                context::ancestors(root_dir).len() as int,
            )
        }),
{
}

/// Whether failures stand among others from a place on.
pub open spec fn stand_at(all: Seq<ErrorModel>, some: Seq<ErrorModel>, at: int) -> bool {
    0 <= at && at + some.len() <= all.len() && all.subrange(at, at + some.len()) == some
}

/// Where ignore files do not count no rule holds at a root and none of them fails; otherwise each failure
/// among the files of a directory above a root is told.
pub proof fn failures_of_ignore_files_are_told(
    walker: NativeWalker,
    root_dir: Seq<PathPart>,
    reads: Seq<Seq<ReadModel>>,
    index: int,
)
    ensures
        walker.options.no_ignore ==> {
            &&& context::root_chain_errors(walker, root_dir, reads).len() == 0
            &&& context::root_chain(walker, root_dir, reads).layers.len() == 0
            &&& context::root_chain(walker, root_dir, reads).explicit_root is None
        },
        !walker.options.no_ignore && 0 <= index < context::ancestors(root_dir).len() ==> {
            let errors = context::root_chain_errors(walker, root_dir, reads);
            let own = context::errors_inside(context::ancestors(root_dir)[index], reads[index]);
            exists|at: int| stand_at(errors, own, at)
        },
{
    let directories = context::ancestors(root_dir);
    if !walker.options.no_ignore && 0 <= index < directories.len() {
        lemma_errors_stand(directories, reads, directories.len() as int, index);
        let before = context::errors_of_directories(directories, reads, index);
        assert(stand_at(
            context::root_chain_errors(walker, root_dir, reads),
            context::errors_inside(directories[index], reads[index]),
            before.len() as int,
        ));
    }
}

proof fn lemma_errors_stand(
    directories: Seq<Seq<PathPart>>,
    reads: Seq<Seq<ReadModel>>,
    count: int,
    index: int,
)
    requires
        0 <= index < count,
    ensures
        ({
            let errors = context::errors_of_directories(directories, reads, count);
            let before = context::errors_of_directories(directories, reads, index);
            let own = context::errors_inside(directories[index], reads[index]);
            let at = before.len() as int;
            at + own.len() <= errors.len() && errors.subrange(at, at + own.len()) == own
        }),
    decreases count,
{
    let errors = context::errors_of_directories(directories, reads, count);
    let less = context::errors_of_directories(directories, reads, count - 1);
    let before = context::errors_of_directories(directories, reads, index);
    let own = context::errors_inside(directories[index], reads[index]);
    let at = before.len() as int;
    if index == count - 1 {
        assert(errors.subrange(at, at + own.len()) =~= own);
    } else {
        lemma_errors_stand(directories, reads, count - 1, index);
        assert(errors.subrange(at, at + own.len()) =~= less.subrange(at, at + own.len()));
    }
}

} // verus!
