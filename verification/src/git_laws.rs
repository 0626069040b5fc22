//! How Git's own files are read.

use vstd::prelude::*;
use vstd::utf8::*;
use crate::chars;
use crate::git;
use crate::git::{ConfigPlace, GlobalExclude, IgnorePlace, LineModel, RepositoryExclude};
use crate::ignore;
use crate::path;
use crate::path::PathPart;
use crate::platform::Platform;
use crate::walk_laws;

verus! {

/// Whether a text is made of spaces and tabs.
pub open spec fn is_blank(text: Seq<char>) -> bool {
    forall|i: int| 0 <= i < text.len() ==> #[trigger] text[i] == ' ' || text[i] == '\t'
}

/// Whether a character is an ASCII one that is seen.
pub open spec fn is_seen(value: char) -> bool {
    '!' as int <= value as int <= '~' as int
}

/// Whether a text starts and ends with characters that are seen.
pub open spec fn is_tight(text: Seq<char>) -> bool {
    text.len() > 0 && is_seen(text[0]) && is_seen(text.last())
}

proof fn lemma_seen(value: char)
    requires
        is_seen(value),
    ensures
        !chars::white_space(value),
{
}

proof fn lemma_trimmed_start(blank: Seq<char>, text: Seq<char>)
    requires
        is_blank(blank),
        text.len() == 0 || is_seen(text[0]),
    ensures
        chars::trimmed_start(blank + text) == text,
    decreases blank.len(),
{
    let all = blank + text;
    if blank.len() > 0 {
        assert(all[0] == blank[0]);
        let rest = blank.drop_first();
        assert forall|i: int| 0 <= i < rest.len() implies #[trigger] rest[i] == ' ' || rest[i]
            == '\t' by {
            assert(rest[i] == blank[i + 1]);
        }
        lemma_trimmed_start(rest, text);
        assert(all.drop_first() =~= rest + text);
    } else {
        assert(all =~= text);
        if text.len() > 0 {
            lemma_seen(text[0]);
        }
    }
}

proof fn lemma_trimmed_end(text: Seq<char>, blank: Seq<char>)
    requires
        is_blank(blank),
        text.len() == 0 || is_seen(text.last()),
    ensures
        chars::trimmed_end(text + blank) == text,
    decreases blank.len(),
{
    let all = text + blank;
    if blank.len() > 0 {
        assert(all.last() == blank.last());
        assert(blank[blank.len() - 1] == ' ' || blank[blank.len() - 1] == '\t');
        let rest = blank.drop_last();
        assert forall|i: int| 0 <= i < rest.len() implies #[trigger] rest[i] == ' ' || rest[i]
            == '\t' by {
            assert(rest[i] == blank[i]);
        }
        lemma_trimmed_end(text, rest);
        assert(all.drop_last() =~= text + rest);
    } else {
        assert(all =~= text);
        if text.len() > 0 {
            lemma_seen(text.last());
        }
    }
}

/// Spaces and tabs around a text do not count.
pub proof fn blanks_around_do_not_count(before: Seq<char>, text: Seq<char>, after: Seq<char>)
    requires
        is_blank(before),
        is_blank(after),
        is_tight(text),
    ensures
        chars::trimmed(before + text + after) == text,
{
    let rest = text + after;
    assert(before + text + after =~= before + rest);
    assert(rest[0] == text[0]);
    lemma_trimmed_start(before, rest);
    lemma_trimmed_end(text, after);
}

/// A line of a configuration file that is empty, or starts with `#` or `;`, says nothing.
pub proof fn comments_say_nothing(line: Seq<char>)
    requires
        line.len() > 0,
        line[0] == '#' || line[0] == ';',
    ensures
        git::config_line(line) == LineModel::Nothing,
        git::config_line(Seq::<char>::empty()) == LineModel::Nothing,
{
    lemma_keeps_first(line);
    assert(chars::trimmed(Seq::<char>::empty()).len() == 0);
}

proof fn lemma_keeps_first(line: Seq<char>)
    requires
        line.len() > 0,
        is_seen(line[0]),
    ensures
        chars::trimmed(line).len() > 0,
        chars::trimmed(line)[0] == line[0],
{
    lemma_seen(line[0]);
    assert(chars::trimmed_start(line) == line);
    lemma_end_keeps_first(line);
}

proof fn lemma_end_keeps_first(line: Seq<char>)
    requires
        line.len() > 0,
        is_seen(line[0]),
    ensures
        chars::trimmed_end(line).len() > 0,
        chars::trimmed_end(line)[0] == line[0],
    decreases line.len(),
{
    lemma_seen(line[0]);
    if chars::white_space(line.last()) {
        lemma_end_keeps_first(line.drop_last());
    }
}

/// A value counts only in the section `core`, and of several the first does.
pub proof fn first_value_in_core_counts(lines: Seq<Seq<char>>, index: int, value: Seq<char>)
    requires
        0 <= index < lines.len(),
    ensures
        git::config_line(lines[index]) == LineModel::ExcludesFile(value) ==> git::excludes_value(
            lines,
            index,
            true,
        ) == Some(value),
        git::config_line(lines[index]) == LineModel::ExcludesFile(value) ==> git::excludes_value(
            lines,
            index,
            false,
        ) == git::excludes_value(lines, index + 1, false),
        git::config_line(lines[index]) matches LineModel::Section { core } ==> forall|inside: bool|
            #[trigger] git::excludes_value(lines, index, inside) == git::excludes_value(
                lines,
                index + 1,
                core,
            ),
        git::config_line(lines[index]) == LineModel::Nothing ==> forall|inside: bool|
            #[trigger] git::excludes_value(lines, index, inside) == git::excludes_value(
                lines,
                index + 1,
                inside,
            ),
{
}

/// A name and a value with an equals sign between them, and blanks around each, set the file with the
/// user's own rules where the name is `excludesfile`.
pub proof fn excludes_file_is_set_by_its_name(name_space: Seq<char>, value_space: Seq<char>, value: Seq<char>)
    requires
        is_blank(name_space),
        is_blank(value_space),
        is_tight(value),
        value[0] != '"',
        value.last() != '"',
        value.last() != ']',
    ensures
        git::config_line("excludesfile"@ + name_space + seq!['='] + value_space + value)
            == LineModel::ExcludesFile(value),
{
    let name = "excludesfile"@;
    reveal_strlit("excludesfile");
    assert(name.len() == 12 && name[0] == 'e' && name[11] == 'e');
    let line = name + name_space + seq!['='] + value_space + value;
    let none = Seq::<char>::empty();
    assert(line[0] == 'e');
    assert(line.last() == value.last());
    assert(is_tight(line));
    blanks_around_do_not_count(none, line, none);
    assert(none + line + none =~= line);
    let equals = (name.len() + name_space.len()) as int;
    assert forall|i: int| 0 <= i < equals implies #[trigger] line[i] != '=' by {
        if i < name.len() {
            assert(line[i] == name[i]);
        } else {
            assert(line[i] == name_space[i - name.len()]);
        }
    }
    assert(line[equals] == '=');
    lemma_index(line, '=', 0, equals);
    assert(line.subrange(0, equals) =~= none + name + name_space);
    assert(is_tight(name)) by {
        assert(name.last() == name[11]);
    }
    blanks_around_do_not_count(none, name, name_space);
    assert(line.subrange(equals + 1, line.len() as int) =~= value_space + value + none);
    blanks_around_do_not_count(value_space, value, none);
    assert(git::unquoted_start(value) == value);
    assert(git::unquoted_end(value) == value);
}

proof fn lemma_index(text: Seq<char>, value: char, from: int, to: int)
    requires
        0 <= from <= to <= text.len(),
        forall|i: int| from <= i < to ==> #[trigger] text[i] != value,
        to < text.len() ==> text[to] == value,
    ensures
        chars::index_from(text, value, from) == to,
    decreases to - from,
{
    if from < to {
        lemma_index(text, value, from + 1, to);
    }
}

proof fn lemma_word_end(text: Seq<char>, from: int)
    requires
        0 <= from <= text.len(),
        forall|i: int| 0 <= i < text.len() ==> is_seen(#[trigger] text[i]),
    ensures
        git::word_end(text, from) == text.len(),
    decreases text.len() - from,
{
    if from < text.len() {
        lemma_seen(text[from]);
        lemma_word_end(text, from + 1);
    }
}

/// A word in brackets starts a section, which is the one that matters where the word is `core`, in upper or
/// lower case.
pub proof fn brackets_start_a_section(word: Seq<char>)
    requires
        word.len() > 0,
        forall|i: int| 0 <= i < word.len() ==> is_seen(#[trigger] word[i]),
    ensures
        git::config_line(seq!['['] + word + seq![']']) == (LineModel::Section {
            core: walk_laws::are_alike(
                Platform::Windows,
                encode_utf8(word),
                encode_utf8("core"@),
            ),
        }),
{
    let line = seq!['['] + word + seq![']'];
    let none = Seq::<char>::empty();
    assert(line[0] == '[' && line.last() == ']');
    blanks_around_do_not_count(none, line, none);
    assert(none + line + none =~= line);
    assert(line.subrange(1, line.len() - 1) =~= word);
    assert(is_seen(word[0]));
    lemma_trimmed_start(none, word);
    assert(none + word =~= word);
    lemma_word_end(word, 0);
    assert(word.subrange(0, word.len() as int) =~= word);
    walk_laws::alike_is_the_same_but_for_case(encode_utf8(word), encode_utf8("core"@));
}

/// Quotation marks around a value do not count.
pub proof fn quotation_marks_do_not_count(value: Seq<char>)
    requires
        value.len() > 0,
        value[0] != '"',
        value.last() != '"',
    ensures
        git::unquoted_end(git::unquoted_start(seq!['"'] + value + seq!['"'])) == value,
{
    let quoted = seq!['"'] + value + seq!['"'];
    let rest = value + seq!['"'];
    assert(quoted.drop_first() =~= rest);
    assert(rest[0] == value[0]);
    assert(git::unquoted_start(rest) == rest);
    assert(git::unquoted_start(quoted) == rest);
    assert(rest.drop_last() =~= value);
    assert(git::unquoted_end(value) == value);
}

/// A path that starts with `~/` lies below the user's directory.
pub proof fn tilde_is_the_users_directory(rest: Seq<char>)
    ensures
        git::below_home(seq!['~', '/'] + rest) == Some(rest),
        rest.len() == 0 || rest[0] != '~' ==> git::below_home(rest) is None,
{
    let whole = seq!['~', '/'] + rest;
    assert(whole.subrange(2, whole.len() as int) =~= rest);
}

/// A file `.git` names the directory behind `gitdir:`, in the first line that starts so.
pub proof fn git_file_names_a_directory(lines: Seq<Seq<char>>, blank: Seq<char>, value: Seq<char>)
    requires
        is_blank(blank),
        is_tight(value),
    ensures
        git::gitdir_of(seq!["gitdir:"@ + blank + value] + lines, 0) == Some(value),
        git::gitdir_of(Seq::<Seq<char>>::empty(), 0) is None,
{
    let word = "gitdir:"@;
    let line = word + blank + value;
    let all = seq![line] + lines;
    let none = Seq::<char>::empty();
    assert(all[0] == line);
    assert(line.subrange(0, word.len() as int) =~= word);
    assert(line.subrange(word.len() as int, line.len() as int) =~= blank + value + none);
    blanks_around_do_not_count(blank, value, none);
}

/// Of two exclude files of a repository its own overrides the shared one, and a shared one that is the same
/// counts once.
pub proof fn own_exclude_file_overrides_the_shared_one(
    git_dir: Seq<PathPart>,
    common: Seq<PathPart>,
)
    ensures
        git::repository_order(git_dir, None) == seq![RepositoryExclude::Own],
        git::repository_order(git_dir, Some(common)) == if path::same_path(common, git_dir) {
            seq![RepositoryExclude::Own]
        } else {
            seq![RepositoryExclude::Shared, RepositoryExclude::Own]
        },
{
}

/// Configurations are looked for in the file that is named, then in the user's directory, then in the
/// configuration directory.
pub proof fn configurations_are_looked_for_in_order(named: bool, home: bool, config_home: bool)
    ensures
        git::config_places(named, false, config_home).len() == if named {
            1nat
        } else {
            0
        },
        named ==> git::config_places(named, home, config_home)[0] == ConfigPlace::Named,
        home ==> {
            let places = git::config_places(named, home, config_home);
            let first: int = if named {
                1
            } else {
                0
            };
            &&& places.len() == first + 2
            &&& places[first] == ConfigPlace::Home
            &&& places[first + 1] == if config_home {
                ConfigPlace::ConfigHome
            } else {
                ConfigPlace::HomeConfig
            }
        },
{
}

/// Every file that a configuration names counts, in the order of the configurations, and the default one
/// only where none is named.
pub proof fn named_files_come_before_the_default(names: Seq<bool>, default: Option<IgnorePlace>)
    ensures
        forall|i: usize|
            i < names.len() && names.len() <= usize::MAX ==> #[trigger] git::named_excludes(
                names,
            ).contains(GlobalExclude::Named(i)) == names[i as int],
        git::named_excludes(names).len() == 0 ==> git::global_excludes(names, default)
            == match default {
            Some(place) => seq![GlobalExclude::Default(place)],
            None => Seq::empty(),
        },
        git::named_excludes(names).len() > 0 ==> git::global_excludes(names, default)
            == git::named_excludes(names),
    decreases names.len(),
{
    if names.len() > 0 && names.len() <= usize::MAX {
        let shorter = names.drop_last();
        named_files_come_before_the_default(shorter, default);
        let before = git::named_excludes(shorter);
        let all = git::named_excludes(names);
        let last = (names.len() - 1) as usize;
        lemma_named_places(shorter);
        assert forall|i: usize| i < names.len() implies #[trigger] all.contains(
            GlobalExclude::Named(i),
        ) == names[i as int] by {
            if i < last {
                assert(before.contains(GlobalExclude::Named(i)) == shorter[i as int]);
                if before.contains(GlobalExclude::Named(i)) {
                    let k = choose|k: int|
                        0 <= k < before.len() && before[k] == GlobalExclude::Named(i);
                    assert(all[k] == GlobalExclude::Named(i));
                }
                if all.contains(GlobalExclude::Named(i)) {
                    let k = choose|k: int| 0 <= k < all.len() && all[k] == GlobalExclude::Named(i);
                    assert(k < before.len());
                    assert(before[k] == GlobalExclude::Named(i));
                }
            } else {
                if names[i as int] {
                    assert(all[all.len() - 1] == GlobalExclude::Named(i));
                } else if all.contains(GlobalExclude::Named(i)) {
                    let k = choose|k: int| 0 <= k < all.len() && all[k] == GlobalExclude::Named(i);
                    assert(before[k] == GlobalExclude::Named(i));
                }
            }
        }
    }
}

proof fn lemma_named_places(names: Seq<bool>)
    requires
        names.len() <= usize::MAX,
    ensures
        forall|k: int|
            0 <= k < git::named_excludes(names).len() ==> ((#[trigger] git::named_excludes(
                names,
            )[k]) matches GlobalExclude::Named(place) && place < names.len()),
    decreases names.len(),
{
    if names.len() > 0 {
        lemma_named_places(names.drop_last());
    }
}

/// The user's own rules are those of the files that could be read, one behind the other.
pub proof fn own_rules_follow_one_another(files: Seq<Option<Vec<u8>>>, file: Option<Vec<u8>>)
    ensures
        git::rules_of_files(Seq::<Option<Vec<u8>>>::empty()).len() == 0,
        git::rules_of_files(files.push(file)) == match file {
            Some(bytes) => if bytes@.len() <= 8_388_608 {
                git::rules_of_files(files) + ignore::rules_of_file(bytes@)
            } else {
                git::rules_of_files(files)
            },
            None => git::rules_of_files(files),
        },
{
    assert(files.push(file).drop_last() =~= files);
}

proof fn lemma_lines_shift(head: Seq<char>, rest: Seq<char>, start: int)
    requires
        0 <= start,
    ensures
        chars::text_lines(head + rest, head.len() + start) == chars::text_lines(rest, start),
    decreases rest.len() - start,
{
    let text = head + rest;
    if start < rest.len() {
        lemma_index_shift(head, rest, start);
        let end = chars::index_from(rest, '\n', start);
        if end < start || end >= rest.len() {
            assert(text.subrange(head.len() + start, text.len() as int) =~= rest.subrange(
                start,
                rest.len() as int,
            ));
        } else {
            assert(text.subrange(head.len() + start, head.len() + end) =~= rest.subrange(start, end));
            lemma_lines_shift(head, rest, end + 1);
        }
    }
}

proof fn lemma_index_shift(head: Seq<char>, rest: Seq<char>, from: int)
    requires
        0 <= from,
    ensures
        from <= rest.len() ==> chars::index_from(head + rest, '\n', head.len() + from) == head.len()
            + chars::index_from(rest, '\n', from),
        chars::index_from(rest, '\n', from) >= from,
    decreases rest.len() - from,
{
    if from < rest.len() {
        assert((head + rest)[head.len() + from] == rest[from]);
        lemma_index_shift(head, rest, from + 1);
    }
}

/// A line of a text ends with a line feed, or with a carriage return and a line feed; neither is part of
/// it. What follows the last line feed is a line too unless it is empty.
pub proof fn lines_of_a_text_end_with_feeds(line: Seq<char>, rest: Seq<char>)
    requires
        forall|i: int| 0 <= i < line.len() ==> #[trigger] line[i] != '\n',
        line.len() > 0 ==> line.last() != '\r',
    ensures
        chars::text_lines(line + seq!['\n'] + rest, 0) == seq![line] + chars::text_lines(rest, 0),
        chars::text_lines(line + seq!['\r', '\n'] + rest, 0) == seq![line] + chars::text_lines(rest, 0),
        line.len() > 0 ==> chars::text_lines(line, 0) == seq![line],
        chars::text_lines(Seq::empty(), 0).len() == 0,
{
    let plain = line + seq!['\n'] + rest;
    let marked = line + seq!['\r', '\n'] + rest;
    let end = line.len() as int;
    assert forall|i: int| 0 <= i < end implies #[trigger] plain[i] != '\n' by {
        assert(plain[i] == line[i]);
    }
    assert forall|i: int| 0 <= i < end + 1 implies #[trigger] marked[i] != '\n' by {
        if i < end {
            assert(marked[i] == line[i]);
        }
    }
    lemma_index(plain, '\n', 0, end);
    lemma_index(marked, '\n', 0, end + 1);
    assert(plain.subrange(0, end) =~= line);
    assert(marked.subrange(0, end + 1) =~= line + seq!['\r']);
    assert((line + seq!['\r']).drop_last() =~= line);
    lemma_lines_shift(line + seq!['\n'], rest, 0);
    lemma_lines_shift(line + seq!['\r', '\n'], rest, 0);
    if line.len() > 0 {
        lemma_index(line, '\n', 0, end);
        assert(line.subrange(0, end) =~= line);
    }
}

} // verus!
