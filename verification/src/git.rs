//! Where Git keeps the ignore rules that are not in the directories themselves.

use vstd::prelude::*;
use vstd::utf8::*;
use crate::chars;
use crate::chars::{find_char, lines_of, starts_with, text_of, to_chars, trim};
use crate::ignore;
use crate::ignore::{parse_ignore_templates, RuleModel, RuleTemplate, MAX_IGNORE_FILE_BYTES};
use crate::path;
use crate::path::{paths_equal, PathComponent, PathPart};
use crate::text;
use crate::text::{equal_ignoring_case, lossy_text};

verus! {

/// Whether two texts are the same but for the case of ASCII letters.
pub open spec fn same_word(left: Seq<char>, right: Seq<char>) -> bool {
    text::same_ignoring_case(encode_utf8(left), encode_utf8(right))
}

fn is_word(value: &[char], word: &str) -> (result: bool)
    ensures
        result == same_word(value@, word@),
{
    equal_ignoring_case(text_of(value).as_str(), word)
}

/// The index of the first white space at or behind `from`, or the length.
pub open spec fn word_end(text: Seq<char>, from: int) -> int
    decreases text.len() - from,
{
    if from >= text.len() || chars::white_space(text[from]) {
        from
    } else {
        word_end(text, from + 1)
    }
}

/// The first word of a text, or nothing where there is none.
pub open spec fn first_word(text: Seq<char>) -> Seq<char> {
    let rest = chars::trimmed_start(text);
    rest.subrange(0, word_end(rest, 0))
}

fn first_word_of(text: &[char]) -> (result: &[char])
    ensures
        result@ == first_word(text@),
{
    let mut rest: &[char] = text;
    while rest.len() > 0 && chars::is_white_space(rest[0])
        invariant
            chars::trimmed_start(text@) == chars::trimmed_start(rest@),
        decreases rest.len(),
    {
        assert(rest@.subrange(1, rest.len() as int) =~= rest@.drop_first());
        rest = &rest[1..rest.len()];
    }
    let mut end: usize = 0;
    while end < rest.len() && !chars::is_white_space(rest[end])
        invariant
            end <= rest.len(),
            word_end(rest@, 0) == word_end(rest@, end as int),
        decreases rest.len() - end,
    {
        end += 1;
    }
    &rest[0..end]
}

/// A text without quotation marks at its start.
pub open spec fn unquoted_start(text: Seq<char>) -> Seq<char>
    decreases text.len(),
{
    if text.len() > 0 && text[0] == '"' {
        unquoted_start(text.drop_first())
    } else {
        text
    }
}

/// A text without quotation marks at its end.
pub open spec fn unquoted_end(text: Seq<char>) -> Seq<char>
    decreases text.len(),
{
    if text.len() > 0 && text.last() == '"' {
        unquoted_end(text.drop_last())
    } else {
        text
    }
}

fn unquote(text: &[char]) -> (result: &[char])
    ensures
        result@ == unquoted_end(unquoted_start(text@)),
{
    let mut left: &[char] = text;
    while left.len() > 0 && left[0] == '"'
        invariant
            unquoted_start(text@) == unquoted_start(left@),
        decreases left.len(),
    {
        assert(left@.subrange(1, left.len() as int) =~= left@.drop_first());
        left = &left[1..left.len()];
    }
    let ghost inner = left@;
    while left.len() > 0 && left[left.len() - 1] == '"'
        invariant
            unquoted_end(inner) == unquoted_end(left@),
        decreases left.len(),
    {
        assert(left@.subrange(0, left.len() - 1) =~= left@.drop_last());
        left = &left[0..left.len() - 1];
    }
    left
}

/// What one line of a configuration file says.
pub enum LineModel {
    /// Nothing that matters here.
    Nothing,
    /// A section starts; `core` where it is the one that matters.
    Section { core: bool },
    /// The file that holds the user's own ignore rules, if this stands in the right section.
    ExcludesFile(Seq<char>),
}

/// What one line of a configuration file says.
pub open spec fn config_line(raw: Seq<char>) -> LineModel {
    let line = chars::trimmed(raw);
    let equals = chars::index_from(line, '=', 0);
    let name = chars::trimmed(line.subrange(0, equals));
    let value = unquoted_end(
        unquoted_start(chars::trimmed(line.subrange(equals + 1, line.len() as int))),
    );
    if line.len() == 0 || line[0] == '#' || line[0] == ';' {
        LineModel::Nothing
    } else if line[0] == '[' && line.last() == ']' {
        LineModel::Section {
            core: same_word(first_word(line.subrange(1, line.len() - 1)), "core"@),
        }
    } else if equals >= line.len() || !same_word(name, "excludesfile"@) || value.len() == 0 {
        LineModel::Nothing
    } else {
        LineModel::ExcludesFile(value)
    }
}

/// The value for the user's own ignore file in lines from `index` on: the first in section `core`.
pub open spec fn excludes_value(lines: Seq<Seq<char>>, index: int, in_core: bool) -> Option<Seq<char>>
    decreases lines.len() - index,
{
    if index >= lines.len() {
        None
    } else {
        match config_line(lines[index]) {
            LineModel::Nothing => excludes_value(lines, index + 1, in_core),
            LineModel::Section { core } => excludes_value(lines, index + 1, core),
            LineModel::ExcludesFile(value) => if in_core {
                Some(value)
            } else {
                excludes_value(lines, index + 1, in_core)
            },
        }
    }
}

/// What one line of a configuration file says.
enum ConfigLine {
    Nothing,
    Section { core: bool },
    ExcludesFile(String),
}

fn read_config_line(raw: &[char]) -> (result: ConfigLine)
    ensures
        match result {
            ConfigLine::Nothing => config_line(raw@) is Nothing,
            ConfigLine::Section { core } => config_line(raw@) == (LineModel::Section { core }),
            ConfigLine::ExcludesFile(value) => config_line(raw@) == LineModel::ExcludesFile(
                value@,
            ),
        },
{
    let line: &[char] = trim(raw);
    if line.len() == 0 || line[0] == '#' || line[0] == ';' {
        return ConfigLine::Nothing;
    }
    if line[0] == '[' && line[line.len() - 1] == ']' {
        let word: &[char] = first_word_of(&line[1..line.len() - 1]);
        return ConfigLine::Section { core: is_word(word, "core") };
    }
    let equals: usize = find_char(line, '=', 0);
    if equals >= line.len() {
        return ConfigLine::Nothing;
    }
    if !is_word(trim(&line[0..equals]), "excludesfile") {
        return ConfigLine::Nothing;
    }
    let value: &[char] = unquote(trim(&line[equals + 1..line.len()]));
    if value.len() == 0 {
        return ConfigLine::Nothing;
    }
    ConfigLine::ExcludesFile(text_of(value))
}

/// The value for the user's own ignore file in the text of a configuration file.
pub fn parse_global_exclude_file(text: &str) -> (result: Option<String>)
    ensures
        text::optional_text(result) == excludes_value(chars::text_lines(text@, 0), 0, false),
{
    let characters: Vec<char> = to_chars(text);
    let lines: Vec<Vec<char>> = lines_of(characters.as_slice());
    let ghost all = chars::char_texts(lines@);
    let mut in_core: bool = false;
    let mut index: usize = 0;
    while index < lines.len()
        invariant
            index <= lines.len(),
            all == chars::char_texts(lines@),
            all == chars::text_lines(text@, 0),
            excludes_value(all, 0, false) == excludes_value(all, index as int, in_core),
        decreases lines.len() - index,
    {
        assert(all[index as int] == lines[index as int]@);
        match read_config_line(lines[index].as_slice()) {
            ConfigLine::Nothing => {},
            ConfigLine::Section { core } => {
                in_core = core;
            },
            ConfigLine::ExcludesFile(value) => {
                if in_core {
                    return Some(value);
                }
            },
        }
        index += 1;
    }
    None
}

/// Where a path of a configuration file leads.
#[derive(Debug)]
pub enum GitPath {
    /// Below the user's directory.
    Home(String),
    Absolute,
    /// Below the directory of the configuration file.
    BesideConfig,
}

/// What follows a `~/` or `~\` at the start.
pub open spec fn below_home(value: Seq<char>) -> Option<Seq<char>> {
    if value.len() >= 2 && value[0] == '~' && (value[1] == '/' || value[1] == '\\') {
        Some(value.subrange(2, value.len() as int))
    } else {
        None
    }
}

/// Where a path of a configuration file leads, given whether the user's directory is known and
/// whether the host takes the path for an absolute one.
pub fn expand_git_path(value: &str, home_is_known: bool, is_absolute: bool) -> (result: GitPath)
    ensures
        match result {
            GitPath::Home(rest) => home_is_known && below_home(value@) == Some(rest@),
            GitPath::Absolute => !(home_is_known && below_home(value@) is Some) && is_absolute,
            GitPath::BesideConfig => !(home_is_known && below_home(value@) is Some)
                && !is_absolute,
        },
{
    let characters: Vec<char> = to_chars(value);
    if home_is_known && characters.len() >= 2 && characters[0] == '~' && (characters[1] == '/'
        || characters[1] == '\\') {
        let rest: &[char] = &characters.as_slice()[2..characters.len()];
        return GitPath::Home(text_of(rest));
    }
    if is_absolute {
        GitPath::Absolute
    } else {
        GitPath::BesideConfig
    }
}

/// What the first line with `gitdir:` at its start names.
pub open spec fn gitdir_of(lines: Seq<Seq<char>>, index: int) -> Option<Seq<char>>
    decreases lines.len() - index,
{
    if index >= lines.len() {
        None
    } else if chars::begins_with(lines[index], "gitdir:"@) {
        let value = chars::trimmed(
            lines[index].subrange("gitdir:"@.len() as int, lines[index].len() as int),
        );
        if value.len() == 0 {
            None
        } else {
            Some(value)
        }
    } else {
        gitdir_of(lines, index + 1)
    }
}

/// The directory that a `.git` file names.
pub fn gitdir_target(text: &str) -> (result: Option<String>)
    ensures
        text::optional_text(result) == gitdir_of(chars::text_lines(text@, 0), 0),
{
    let characters: Vec<char> = to_chars(text);
    let lines: Vec<Vec<char>> = lines_of(characters.as_slice());
    let prefix: Vec<char> = to_chars("gitdir:");
    let ghost all = chars::char_texts(lines@);
    let mut index: usize = 0;
    while index < lines.len()
        invariant
            index <= lines.len(),
            prefix@ == "gitdir:"@,
            all == chars::char_texts(lines@),
            all == chars::text_lines(text@, 0),
            gitdir_of(all, 0) == gitdir_of(all, index as int),
        decreases lines.len() - index,
    {
        assert(all[index as int] == lines[index as int]@);
        let line: &[char] = lines[index].as_slice();
        if starts_with(line, prefix.as_slice()) {
            let value: &[char] = trim(&line[prefix.len()..line.len()]);
            if value.len() == 0 {
                return None;
            }
            return Some(text_of(value));
        }
        index += 1;
    }
    None
}

/// The first line, without white space around it, unless it is empty.
pub open spec fn first_line(lines: Seq<Seq<char>>) -> Option<Seq<char>> {
    if lines.len() == 0 || chars::trimmed(lines[0]).len() == 0 {
        None
    } else {
        Some(chars::trimmed(lines[0]))
    }
}

/// The shared directory that a `commondir` file names.
pub fn git_common_dir(text: &str) -> (result: Option<String>)
    ensures
        text::optional_text(result) == first_line(chars::text_lines(text@, 0)),
{
    let characters: Vec<char> = to_chars(text);
    let lines: Vec<Vec<char>> = lines_of(characters.as_slice());
    assert(chars::char_texts(lines@).len() == lines.len());
    if lines.len() == 0 {
        return None;
    }
    assert(chars::char_texts(lines@)[0] == lines[0]@);
    let value: &[char] = trim(lines[0].as_slice());
    if value.len() == 0 {
        None
    } else {
        Some(text_of(value))
    }
}

/// Whether the exclude file of the shared directory is read before that of the directory itself: it
/// is where the two are not the same.
pub fn common_excludes_apply(git_dir: &[PathComponent], common_dir: &Option<Vec<PathComponent>>) -> (result:
    bool)
    ensures
        result == match *common_dir {
            Some(common) => !path::same_path(path::parts(common@), path::parts(git_dir@)),
            None => false,
        },
{
    match common_dir {
        Some(common) => !paths_equal(common.as_slice(), git_dir),
        None => false,
    }
}

/// An exclude file of a repository.
#[derive(Clone, Copy, Debug, PartialEq, Eq, Structural)]
pub enum RepositoryExclude {
    /// `info/exclude` in the directory that repositories share.
    Shared,
    /// `info/exclude` in the repository's own directory.
    Own,
}

/// The exclude files of a repository, of which later ones override.
pub open spec fn repository_order(
    git_dir: Seq<PathPart>,
    common_dir: Option<Seq<PathPart>>,
) -> Seq<RepositoryExclude> {
    match common_dir {
        Some(common) => if path::same_path(common, git_dir) {
            seq![RepositoryExclude::Own]
        } else {
            seq![RepositoryExclude::Shared, RepositoryExclude::Own]
        },
        None => seq![RepositoryExclude::Own],
    }
}

/// The exclude files of a repository that lies in `git_dir`, of which later ones override.
pub fn repository_excludes(git_dir: &[PathComponent], common_dir: &Option<Vec<PathComponent>>) -> (result:
    Vec<RepositoryExclude>)
    ensures
        result@ == repository_order(
            path::parts(git_dir@),
            match *common_dir {
                Some(common) => Some(path::parts(common@)),
                None => None,
            },
        ),
{
    let mut files: Vec<RepositoryExclude> = Vec::new();
    if common_excludes_apply(git_dir, common_dir) {
        files.push(RepositoryExclude::Shared);
    }
    files.push(RepositoryExclude::Own);
    files
}

/// A place where Git's own configuration may be.
#[derive(Clone, Copy, Debug, PartialEq, Eq, Structural)]
pub enum ConfigPlace {
    /// The file that the environment names.
    Named,
    /// `.gitconfig` in the user's directory.
    Home,
    /// `git/config` in the configuration directory that the environment names.
    ConfigHome,
    /// `.config/git/config` in the user's directory.
    HomeConfig,
}

/// The places where Git's own configuration may be, first first.
pub open spec fn config_places(named: bool, home: bool, config_home: bool) -> Seq<ConfigPlace> {
    let first = if named {
        seq![ConfigPlace::Named]
    } else {
        Seq::empty()
    };
    if !home {
        first
    } else if config_home {
        first + seq![ConfigPlace::Home, ConfigPlace::ConfigHome]
    } else {
        first + seq![ConfigPlace::Home, ConfigPlace::HomeConfig]
    }
}

/// The places where Git's own configuration may be, first first, given what the environment names.
pub fn config_candidates(named: bool, home: bool, config_home: bool) -> (result: Vec<ConfigPlace>)
    ensures
        result@ == config_places(named, home, config_home),
{
    let mut places: Vec<ConfigPlace> = Vec::new();
    if named {
        places.push(ConfigPlace::Named);
    }
    if home {
        places.push(ConfigPlace::Home);
        if config_home {
            places.push(ConfigPlace::ConfigHome);
        } else {
            places.push(ConfigPlace::HomeConfig);
        }
    }
    assert(places@ =~= config_places(named, home, config_home));
    places
}

/// Where the user's own ignore rules are unless a configuration says otherwise.
#[derive(Clone, Copy, Debug, PartialEq, Eq, Structural)]
pub enum IgnorePlace {
    /// `git/ignore` in the configuration directory that the environment names.
    ConfigHome,
    /// `.config/git/ignore` in the user's directory.
    HomeConfig,
}

/// Where the user's own ignore rules are unless a configuration says otherwise.
pub fn default_ignore_place(home: bool, config_home: bool) -> (result: Option<IgnorePlace>)
    ensures
        result == (if config_home {
            Some(IgnorePlace::ConfigHome)
        } else if home {
            Some(IgnorePlace::HomeConfig)
        } else {
            None
        }),
{
    if config_home {
        Some(IgnorePlace::ConfigHome)
    } else if home {
        Some(IgnorePlace::HomeConfig)
    } else {
        None
    }
}

/// A file with ignore rules of the user's own.
#[derive(Clone, Copy, Debug, PartialEq, Eq, Structural)]
pub enum GlobalExclude {
    /// The file that the configuration at this place among the candidates names.
    Named(usize),
    /// The file that is there unless a configuration names one.
    Default(IgnorePlace),
}

/// The files that configurations name, given which of them name one.
pub open spec fn named_excludes(names: Seq<bool>) -> Seq<GlobalExclude>
    decreases names.len(),
{
    if names.len() == 0 {
        Seq::empty()
    } else {
        let before = named_excludes(names.drop_last());
        if names.last() {
            before.push(GlobalExclude::Named((names.len() - 1) as usize))
        } else {
            before
        }
    }
}

/// The files with ignore rules of the user's own: those that configurations name, and the default one
/// only where none names one.
pub open spec fn global_excludes(names: Seq<bool>, default: Option<IgnorePlace>) -> Seq<
    GlobalExclude,
> {
    let named = named_excludes(names);
    if named.len() > 0 {
        named
    } else {
        match default {
            Some(place) => seq![GlobalExclude::Default(place)],
            None => Seq::empty(),
        }
    }
}

/// The files with ignore rules of the user's own, first first, given which of the candidates for a
/// configuration name one.
pub fn global_exclude_files(names: &[bool], default: Option<IgnorePlace>) -> (result: Vec<
    GlobalExclude,
>)
    ensures
        result@ == global_excludes(names@, default),
{
    let mut files: Vec<GlobalExclude> = Vec::new();
    let mut index: usize = 0;
    while index < names.len()
        invariant
            index <= names.len(),
            files@ == named_excludes(names@.subrange(0, index as int)),
        decreases names.len() - index,
    {
        proof {
            let here = names@.subrange(0, index + 1);
            assert(here.last() == names[index as int]);
            assert(here.drop_last() =~= names@.subrange(0, index as int));
        }
        if names[index] {
            files.push(GlobalExclude::Named(index));
        }
        index += 1;
    }
    assert(names@.subrange(0, names.len() as int) =~= names@);
    if files.len() == 0 {
        if let Some(place) = default {
            files.push(GlobalExclude::Default(place));
        }
    }
    files
}

/// The first of the files with ignore rules of the user's own.
pub fn first_global_exclude(names: &[bool], default: Option<IgnorePlace>) -> (result: Option<
    GlobalExclude,
>)
    ensures
        result == (if global_excludes(names@, default).len() == 0 {
            None
        } else {
            Some(global_excludes(names@, default)[0])
        }),
{
    let files: Vec<GlobalExclude> = global_exclude_files(names, default);
    if files.len() == 0 {
        None
    } else {
        Some(files[0])
    }
}

/// The rules of files that could be read and are not too long, one behind the other.
pub open spec fn rules_of_files(files: Seq<Option<Vec<u8>>>) -> Seq<RuleModel>
    decreases files.len(),
{
    if files.len() == 0 {
        Seq::empty()
    } else {
        let before = rules_of_files(files.drop_last());
        match files.last() {
            Some(bytes) => if bytes@.len() > MAX_IGNORE_FILE_BYTES {
                before
            } else {
                before + ignore::rules_of_file(bytes@)
            },
            None => before,
        }
    }
}

/// The user's own rules, from what was read of each of the files.
pub fn load_global_rule_templates(files: &[Option<Vec<u8>>]) -> (result: Vec<RuleTemplate>)
    ensures
        ignore::templates_wf(result@),
        ignore::template_models(result@) == rules_of_files(files@),
{
    let mut rules: Vec<RuleTemplate> = Vec::new();
    let mut index: usize = 0;
    assert(ignore::template_models(rules@) =~= Seq::<RuleModel>::empty());
    while index < files.len()
        invariant
            index <= files.len(),
            ignore::templates_wf(rules@),
            ignore::template_models(rules@) == rules_of_files(files@.subrange(0, index as int)),
        decreases files.len() - index,
    {
        let ghost before = ignore::template_models(rules@);
        proof {
            let here = files@.subrange(0, index + 1);
            assert(here.last() == files[index as int]);
            assert(here.drop_last() =~= files@.subrange(0, index as int));
        }
        match &files[index] {
            Some(bytes) => {
                if bytes.len() <= MAX_IGNORE_FILE_BYTES {
                    let text: String = lossy_text(bytes.as_slice());
                    let mut added: Vec<RuleTemplate> = parse_ignore_templates(text.as_str());
                    let ghost more = ignore::template_models(added@);
                    let ghost old_rules = rules@;
                    let ghost old_added = added@;
                    rules.append(&mut added);
                    assert(ignore::template_models(rules@) =~= before + more);
                    assert forall|i: int| 0 <= i < rules.len() implies (
                    #[trigger] rules[i]).wf() by {
                        if i < old_rules.len() {
                            assert(old_rules[i].wf());
                        } else {
                            assert(old_added[i - old_rules.len()].wf());
                        }
                    }
                }
            },
            None => {},
        }
        index += 1;
    }
    assert(files@.subrange(0, files.len() as int) =~= files@);
    rules
}

} // verus!
