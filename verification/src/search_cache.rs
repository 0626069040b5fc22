//! The memory of a search: which files were found below some roots, for as long as nothing changed
//! there.
//!
//! A list of files is kept under a key that holds all that the list depends on. The lists themselves,
//! and the watches on their directories, are kept by the host under numbers.

use vstd::prelude::*;
use crate::chars;
use crate::chars::{lines_of, same_text, starts_with, text_of, to_chars};
use crate::context;
use crate::path;
use crate::path::{
    copy_path, parent_len, path_starts_with, paths_equal, PathComponent, PathName, PathPart,
};
use crate::text;
use crate::text::{byte_strings_equal, copy_bytes};
use vstd::utf8::*;

verus! {

/// The most bytes of ignore files that a key may hold.
pub const MAX_IGNORE_SNAPSHOT_BYTES: usize = 8_388_608;

/// The fewest files that are worth keeping.
pub const MIN_PATHS_PER_ENTRY: usize = 1024;

/// The most files that are kept under one key.
pub const MAX_PATHS_PER_ENTRY: usize = 300_000;

/// The most keys.
pub const MAX_CACHE_ENTRIES: usize = 4;

/// The most bytes of all lists together.
pub const MAX_TOTAL_BYTES: usize = 67_108_864;

/// What was found where an ignore file may be.
#[derive(Debug)]
pub enum IgnoreFileValue {
    Contents(Vec<u8>),
    /// The kind of the failure to read it, and its number.
    Error(String, Option<i32>),
}

/// What was found where an ignore file may be.
pub enum ValueModel {
    Contents(Seq<u8>),
    Error(Seq<char>, Option<i32>),
}

impl View for IgnoreFileValue {
    type V = ValueModel;

    open spec fn view(&self) -> ValueModel {
        match self {
            IgnoreFileValue::Contents(bytes) => ValueModel::Contents(bytes@),
            IgnoreFileValue::Error(kind, code) => ValueModel::Error(kind@, *code),
        }
    }
}

/// A place of an ignore file, and what was found there.
#[derive(Debug)]
pub struct IgnoreFileSnapshot {
    pub path: Vec<PathComponent>,
    pub value: IgnoreFileValue,
}

/// A place of an ignore file, and what was found there.
pub struct FileModel {
    pub path: Seq<PathPart>,
    pub value: ValueModel,
}

impl View for IgnoreFileSnapshot {
    type V = FileModel;

    open spec fn view(&self) -> FileModel {
        FileModel { path: path::parts(self.path@), value: self.value@ }
    }
}

/// All that was found where ignore files may be.
#[derive(Debug)]
pub struct IgnoreSnapshot {
    pub files: Vec<IgnoreFileSnapshot>,
}

/// What was found at places.
pub open spec fn file_models(files: Seq<IgnoreFileSnapshot>) -> Seq<FileModel> {
    Seq::new(files.len(), |i: int| files[i]@)
}

impl View for IgnoreSnapshot {
    type V = Seq<FileModel>;

    open spec fn view(&self) -> Seq<FileModel> {
        file_models(self.files@)
    }
}

/// Whether the same was found at the same places.
pub open spec fn same_snapshot(left: Seq<FileModel>, right: Seq<FileModel>) -> bool {
    &&& left.len() == right.len()
    &&& forall|i: int|
        0 <= i < left.len() ==> path::same_path((#[trigger] left[i]).path, right[i].path)
            && left[i].value == right[i].value
}

/// Whether the same was found.
fn values_equal(left: &IgnoreFileValue, right: &IgnoreFileValue) -> (result: bool)
    ensures
        result == (left@ == right@),
{
    match (left, right) {
        (IgnoreFileValue::Contents(a), IgnoreFileValue::Contents(b)) => byte_strings_equal(
            a.as_slice(),
            b.as_slice(),
        ),
        (IgnoreFileValue::Error(kind, code), IgnoreFileValue::Error(other, number)) => {
            let same_code: bool = match (code, number) {
                (Some(a), Some(b)) => *a == *b,
                (None, None) => true,
                _ => false,
            };
            same_code && same_text(kind.as_str(), other.as_str())
        },
        _ => false,
    }
}

/// Whether the same was found at the same places.
fn snapshots_equal(left: &IgnoreSnapshot, right: &IgnoreSnapshot) -> (result: bool)
    ensures
        result == same_snapshot(left@, right@),
{
    if left.files.len() != right.files.len() {
        return false;
    }
    let mut index: usize = 0;
    while index < left.files.len()
        invariant
            index <= left.files.len() == right.files.len(),
            forall|i: int|
                0 <= i < index ==> path::same_path((#[trigger] left@[i]).path, right@[i].path)
                    && left@[i].value == right@[i].value,
        decreases left.files.len() - index,
    {
        assert(left@[index as int] == left.files[index as int]@);
        assert(right@[index as int] == right.files[index as int]@);
        if !paths_equal(left.files[index].path.as_slice(), right.files[index].path.as_slice())
            || !values_equal(&left.files[index].value, &right.files[index].value) {
            return false;
        }
        index += 1;
    }
    true
}

/// What is kept of an ignore file that was read: nothing but an error of one that is too long.
pub fn read_snapshot_file(contents: Vec<u8>) -> (result: IgnoreFileValue)
    ensures
        result@ == (if contents@.len() > MAX_IGNORE_SNAPSHOT_BYTES {
            ValueModel::Error("InvalidData"@, None)
        } else {
            ValueModel::Contents(contents@)
        }),
{
    if contents.len() > MAX_IGNORE_SNAPSHOT_BYTES {
        return IgnoreFileValue::Error("InvalidData".to_owned(), None);
    }
    IgnoreFileValue::Contents(contents)
}

/// The bytes of ignore files.
pub open spec fn snapshot_bytes(files: Seq<FileModel>) -> int
    decreases files.len(),
{
    if files.len() == 0 {
        0
    } else {
        snapshot_bytes(files.drop_last()) + match files.last().value {
            ValueModel::Contents(bytes) => bytes.len() as int,
            ValueModel::Error(_, _) => 0,
        }
    }
}

proof fn lemma_bytes_grow(files: Seq<FileModel>, count: int)
    requires
        0 <= count <= files.len(),
    ensures
        0 <= snapshot_bytes(files.subrange(0, count)) <= snapshot_bytes(files),
    decreases files.len(),
{
    if count == files.len() {
        assert(files.subrange(0, count) =~= files);
        if files.len() > 0 {
            lemma_bytes_grow(files.drop_last(), files.len() - 1);
            assert(files.drop_last().subrange(0, files.len() - 1) =~= files.drop_last());
        }
    } else {
        lemma_bytes_grow(files.drop_last(), count);
        assert(files.drop_last().subrange(0, count) =~= files.subrange(0, count));
    }
}

/// What was found where ignore files may be, unless that is too much. Where ignore files do not count,
/// nothing is.
pub fn capture_ignore_snapshot(no_ignore: bool, files: Vec<IgnoreFileSnapshot>) -> (result: Option<
    IgnoreSnapshot,
>)
    ensures
        match result {
            Some(snapshot) => snapshot@ == (if no_ignore {
                Seq::empty()
            } else {
                file_models(files@)
            }) && (no_ignore || snapshot_bytes(file_models(files@)) <= MAX_IGNORE_SNAPSHOT_BYTES),
            None => !no_ignore && snapshot_bytes(file_models(files@)) > MAX_IGNORE_SNAPSHOT_BYTES,
        },
{
    if no_ignore {
        let empty: IgnoreSnapshot = IgnoreSnapshot { files: Vec::new() };
        assert(empty@ =~= Seq::<FileModel>::empty());
        return Some(empty);
    }
    let ghost all = file_models(files@);
    let mut total: usize = 0;
    let mut index: usize = 0;
    assert(all.subrange(0, 0) =~= Seq::<FileModel>::empty());
    while index < files.len()
        invariant
            index <= files.len(),
            !no_ignore,
            all == file_models(files@),
            total <= MAX_IGNORE_SNAPSHOT_BYTES,
            total == snapshot_bytes(all.subrange(0, index as int)),
        decreases files.len() - index,
    {
        proof {
            let here = all.subrange(0, index + 1);
            assert(here.last() == files[index as int]@);
            assert(here.drop_last() =~= all.subrange(0, index as int));
            lemma_bytes_grow(all, index + 1);
        }
        let length: usize = match &files[index].value {
            IgnoreFileValue::Contents(bytes) => bytes.len(),
            IgnoreFileValue::Error(_, _) => 0,
        };
        if length > MAX_IGNORE_SNAPSHOT_BYTES - total {
            return None;
        }
        total += length;
        index += 1;
    }
    assert(all.subrange(0, all.len() as int) =~= all);
    Some(IgnoreSnapshot { files })
}

/// A name that is plain text.
pub open spec fn plain_part(name: Seq<char>) -> PathPart {
    PathPart::Normal(path::NameModel { raw: encode_utf8(name), text: name, utf8: true })
}

/// A name that is plain text.
fn plain_component(name: &str) -> (result: PathComponent)
    ensures
        result@ == plain_part(name@),
{
    PathComponent::Normal(
        PathName { raw: copy_bytes(name.as_bytes()), text: name.to_owned(), utf8: true },
    )
}

/// A path with names behind it.
fn join_names(base: &[PathComponent], first: &str, second: Option<&str>, third: Option<&str>) -> (result:
    Vec<PathComponent>)
    ensures
        path::parts(result@) == path::parts(base@) + name_parts(first@, second, third),
{
    let ghost before = path::parts(base@);
    let mut result: Vec<PathComponent> = copy_path(base);
    result.push(plain_component(first));
    assert(path::parts(result@) =~= before + seq![plain_part(first@)]);
    if let Some(name) = second {
        let ghost here = path::parts(result@);
        result.push(plain_component(name));
        assert(path::parts(result@) =~= here.push(plain_part(name@)));
    }
    if let Some(name) = third {
        let ghost here = path::parts(result@);
        result.push(plain_component(name));
        assert(path::parts(result@) =~= here.push(plain_part(name@)));
    }
    assert(path::parts(result@) =~= before + name_parts(first@, second, third));
    result
}

/// Names behind each other.
pub open spec fn name_parts(first: Seq<char>, second: Option<&str>, third: Option<&str>) -> Seq<PathPart> {
    seq![plain_part(first)] + (match second {
        Some(name) => seq![plain_part(name@)],
        None => Seq::empty(),
    }) + (match third {
        Some(name) => seq![plain_part(name@)],
        None => Seq::empty(),
    })
}

/// The places that matter in a directory at or above a root.
pub open spec fn ancestor_places(ancestor: Seq<PathPart>) -> Seq<Seq<PathPart>> {
    seq![
        ancestor + seq![plain_part(".ignore"@)],
        ancestor + seq![plain_part(".gitignore"@)],
        ancestor + seq![plain_part(".rgignore"@)],
        ancestor + seq![plain_part(".git"@)],
        ancestor + seq![plain_part(".jj"@)],
        ancestor + seq![plain_part(".git"@), plain_part("info"@), plain_part("exclude"@)],
    ]
}

/// The places that matter in a directory at or above a root.
pub fn ancestor_candidates(ancestor: &[PathComponent]) -> (result: Vec<Vec<PathComponent>>)
    ensures
        context::path_models(result@) == ancestor_places(path::parts(ancestor@)),
{
    let mut result: Vec<Vec<PathComponent>> = Vec::new();
    result.push(join_names(ancestor, ".ignore", None, None));
    result.push(join_names(ancestor, ".gitignore", None, None));
    result.push(join_names(ancestor, ".rgignore", None, None));
    result.push(join_names(ancestor, ".git", None, None));
    result.push(join_names(ancestor, ".jj", None, None));
    result.push(join_names(ancestor, ".git", Some("info"), Some("exclude")));
    proof {
        let base = path::parts(ancestor@);
        assert(name_parts(".ignore"@, None, None) =~= seq![plain_part(".ignore"@)]);
        assert(name_parts(".gitignore"@, None, None) =~= seq![plain_part(".gitignore"@)]);
        assert(name_parts(".rgignore"@, None, None) =~= seq![plain_part(".rgignore"@)]);
        assert(name_parts(".git"@, None, None) =~= seq![plain_part(".git"@)]);
        assert(name_parts(".jj"@, None, None) =~= seq![plain_part(".jj"@)]);
        assert(name_parts(".git"@, Some("info"), Some("exclude")) =~= seq![
            plain_part(".git"@),
            plain_part("info"@),
            plain_part("exclude"@),
        ]);
        assert(context::path_models(result@) =~= ancestor_places(base));
    }
    result
}

/// The places that matter in the directory of a work tree, and in the one that it shares with others.
pub open spec fn worktree_places(git_dir: Seq<PathPart>, common: Option<Seq<PathPart>>) -> Seq<
    Seq<PathPart>,
> {
    seq![
        git_dir + seq![plain_part("info"@), plain_part("exclude"@)],
        git_dir + seq![plain_part("commondir"@)],
    ] + (match common {
        Some(shared) => seq![shared + seq![plain_part("info"@), plain_part("exclude"@)]],
        None => Seq::empty(),
    })
}

/// The places that matter in the directory of a work tree, and in the one that it shares with others.
pub fn add_worktree_ignore_candidates(
    git_dir: &[PathComponent],
    common: &Option<Vec<PathComponent>>,
) -> (result: Vec<Vec<PathComponent>>)
    ensures
        context::path_models(result@) == worktree_places(
            path::parts(git_dir@),
            match *common {
                Some(shared) => Some(path::parts(shared@)),
                None => None,
            },
        ),
{
    let mut result: Vec<Vec<PathComponent>> = Vec::new();
    result.push(join_names(git_dir, "info", Some("exclude"), None));
    result.push(join_names(git_dir, "commondir", None, None));
    proof {
        assert(name_parts("info"@, Some("exclude"), None) =~= seq![
            plain_part("info"@),
            plain_part("exclude"@),
        ]);
        assert(name_parts("commondir"@, None, None) =~= seq![plain_part("commondir"@)]);
    }
    if let Some(shared) = common {
        result.push(join_names(shared.as_slice(), "info", Some("exclude"), None));
    }
    assert(context::path_models(result@) =~= worktree_places(
        path::parts(git_dir@),
        match *common {
            Some(shared) => Some(path::parts(shared@)),
            None => None,
        },
    ));
    result
}

/// Where the file `.git` of a work tree leads, by its first line.
pub open spec fn snapshot_git_dir(text: Seq<char>) -> Option<Seq<char>> {
    let lines = chars::text_lines(text, 0);
    if lines.len() > 0 && chars::begins_with(lines[0], "gitdir: "@) {
        Some(lines[0].subrange("gitdir: "@.len() as int, lines[0].len() as int))
    } else {
        None
    }
}

/// Where the file `.git` of a work tree leads.
pub fn worktree_target(text: &str) -> (result: Option<String>)
    ensures
        text::optional_text(result) == snapshot_git_dir(text@),
{
    let letters: Vec<char> = to_chars(text);
    let lines: Vec<Vec<char>> = lines_of(letters.as_slice());
    let prefix: Vec<char> = to_chars("gitdir: ");
    assert(chars::char_texts(lines@).len() == lines.len());
    if lines.len() == 0 {
        return None;
    }
    assert(chars::char_texts(lines@)[0] == lines[0]@);
    let line: &[char] = lines[0].as_slice();
    if !starts_with(line, prefix.as_slice()) {
        return None;
    }
    Some(text_of(&line[prefix.len()..line.len()]))
}

/// Where the directory is that work trees share.
#[derive(Debug)]
pub enum CommonPlace {
    /// It is named from the directory of the work tree on.
    Below(String),
    /// It is named by itself.
    Itself(String),
}

/// Where the directory is that work trees share, by the first line of a `commondir` file.
pub fn common_place(text: &str) -> (result: Option<CommonPlace>)
    ensures
        ({
            let lines = chars::text_lines(text@, 0);
            match result {
                Some(CommonPlace::Below(name)) => lines.len() > 0 && lines[0] == name@ && name@.len()
                    > 0 && name@[0] == '.',
                Some(CommonPlace::Itself(name)) => lines.len() > 0 && lines[0] == name@ && !(
                name@.len() > 0 && name@[0] == '.'),
                None => lines.len() == 0,
            }
        }),
{
    let letters: Vec<char> = to_chars(text);
    let lines: Vec<Vec<char>> = lines_of(letters.as_slice());
    assert(chars::char_texts(lines@).len() == lines.len());
    if lines.len() == 0 {
        return None;
    }
    assert(chars::char_texts(lines@)[0] == lines[0]@);
    let line: &[char] = lines[0].as_slice();
    let name: String = text_of(line);
    if line.len() > 0 && line[0] == '.' {
        Some(CommonPlace::Below(name))
    } else {
        Some(CommonPlace::Itself(name))
    }
}

/// Whether a path is one of paths.
pub open spec fn holds_path(paths: Seq<Seq<PathPart>>, path: Seq<PathPart>) -> bool {
    exists|i: int| 0 <= i < paths.len() && path::same_path(#[trigger] paths[i], path)
}

/// Paths with others behind them, without those that are there already.
pub open spec fn with_paths(paths: Seq<Seq<PathPart>>, more: Seq<Seq<PathPart>>) -> Seq<Seq<PathPart>>
    decreases more.len(),
{
    if more.len() == 0 {
        paths
    } else {
        let before = with_paths(paths, more.drop_last());
        if holds_path(before, more.last()) {
            before
        } else {
            before.push(more.last())
        }
    }
}

/// Whether a path is one of paths.
fn contains_path(paths: &Vec<Vec<PathComponent>>, path: &[PathComponent]) -> (result: bool)
    ensures
        result == holds_path(context::path_models(paths@), path::parts(path@)),
{
    let ghost models = context::path_models(paths@);
    let mut index: usize = 0;
    while index < paths.len()
        invariant
            index <= paths.len(),
            models == context::path_models(paths@),
            forall|i: int|
                0 <= i < index ==> !path::same_path(#[trigger] models[i], path::parts(path@)),
        decreases paths.len() - index,
    {
        assert(models[index as int] == path::parts(paths[index as int]@));
        if paths_equal(paths[index].as_slice(), path) {
            assert(path::same_path(models[index as int], path::parts(path@)));
            return true;
        }
        index += 1;
    }
    false
}

/// Puts paths behind others, without those that are there already.
pub fn add_candidates(candidates: &mut Vec<Vec<PathComponent>>, more: Vec<Vec<PathComponent>>)
    ensures
        context::path_models(final(candidates)@) == with_paths(
            context::path_models(old(candidates)@),
            context::path_models(more@),
        ),
{
    let ghost before = context::path_models(candidates@);
    let ghost all = context::path_models(more@);
    let mut index: usize = 0;
    assert(all.subrange(0, 0) =~= Seq::<Seq<PathPart>>::empty());
    while index < more.len()
        invariant
            index <= more.len(),
            all == context::path_models(more@),
            context::path_models(candidates@) == with_paths(before, all.subrange(0, index as int)),
        decreases more.len() - index,
    {
        proof {
            let here = all.subrange(0, index + 1);
            assert(here.last() == path::parts(more[index as int]@));
            assert(here.drop_last() =~= all.subrange(0, index as int));
        }
        let ghost sofar = context::path_models(candidates@);
        if !contains_path(candidates, more[index].as_slice()) {
            candidates.push(copy_path(more[index].as_slice()));
            assert(context::path_models(candidates@) =~= sofar.push(
                path::parts(more[index as int]@),
            ));
        }
        index += 1;
    }
    assert(all.subrange(0, all.len() as int) =~= all);
}

/// No place is looked at twice.
pub proof fn candidates_are_distinct(paths: Seq<Seq<PathPart>>, more: Seq<Seq<PathPart>>)
    requires
        forall|i: int, j: int|
            0 <= i < j < paths.len() ==> !path::same_path(#[trigger] paths[i], #[trigger] paths[j]),
    ensures
        forall|i: int, j: int|
            0 <= i < j < with_paths(paths, more).len() ==> !path::same_path(
                #[trigger] with_paths(paths, more)[i],
                #[trigger] with_paths(paths, more)[j],
            ),
        forall|i: int|
            0 <= i < more.len() ==> holds_path(with_paths(paths, more), #[trigger] more[i]),
    decreases more.len(),
{
    if more.len() > 0 {
        let before = with_paths(paths, more.drop_last());
        let after = with_paths(paths, more);
        candidates_are_distinct(paths, more.drop_last());
        assert forall|i: int| 0 <= i < more.len() implies holds_path(after, #[trigger] more[i]) by {
            if i < more.len() - 1 {
                assert(more.drop_last()[i] == more[i]);
                let k = choose|k: int|
                    0 <= k < before.len() && path::same_path(#[trigger] before[k], more[i]);
                assert(after[k] == before[k]);
            } else if !holds_path(before, more[i]) {
                assert(after[before.len() as int] == more[i]);
                assert(path::same_path(more[i], more[i]));
            }
        }
    }
}

/// How a path of Windows starts.
#[derive(Clone, Copy, Debug, PartialEq, Eq, Structural)]
pub enum PrefixKind {
    Verbatim,
    VerbatimUnc,
    VerbatimDisk,
    DeviceNamespace,
    Unc,
    Disk,
}

/// Whether a path that starts like this is on another machine, or a device.
pub open spec fn is_remote(prefix: Option<PrefixKind>) -> bool {
    prefix == Some(PrefixKind::Unc) || prefix == Some(PrefixKind::VerbatimUnc) || prefix == Some(
        PrefixKind::DeviceNamespace,
    )
}

/// Whether a path that starts like this is on another machine, or a device.
pub fn is_unc_or_device_path(prefix: Option<PrefixKind>) -> (result: bool)
    ensures
        result == is_remote(prefix),
{
    matches!(
        prefix,
        Some(PrefixKind::Unc) | Some(PrefixKind::VerbatimUnc) | Some(PrefixKind::DeviceNamespace)
    )
}

/// A root of a search as it was given, and what the host says of it.
#[derive(Debug)]
pub struct CacheRoot {
    pub input: Vec<PathComponent>,
    /// The path itself without links, where the host finds it.
    pub canonical: Option<Vec<PathComponent>>,
    pub is_directory: bool,
    pub prefix: Option<PrefixKind>,
}

/// All that a list of files depends on.
#[derive(Debug)]
pub struct FileListCacheKey {
    pub input_roots: Vec<Vec<PathComponent>>,
    pub canonical_roots: Vec<Vec<PathComponent>>,
    pub current_dir: Vec<PathComponent>,
    pub hidden: bool,
    pub no_ignore: bool,
    pub globs: Vec<String>,
    pub ignore_snapshot: IgnoreSnapshot,
}

/// All that a list of files depends on.
pub struct KeyModel {
    pub input_roots: Seq<Seq<PathPart>>,
    pub canonical_roots: Seq<Seq<PathPart>>,
    pub current_dir: Seq<PathPart>,
    pub hidden: bool,
    pub no_ignore: bool,
    pub globs: Seq<Seq<char>>,
    pub ignore_snapshot: Seq<FileModel>,
}

impl View for FileListCacheKey {
    type V = KeyModel;

    open spec fn view(&self) -> KeyModel {
        KeyModel {
            input_roots: context::path_models(self.input_roots@),
            canonical_roots: context::path_models(self.canonical_roots@),
            current_dir: path::parts(self.current_dir@),
            hidden: self.hidden,
            no_ignore: self.no_ignore,
            globs: text::texts(self.globs@),
            ignore_snapshot: self.ignore_snapshot@,
        }
    }
}

/// Whether two lists of paths name the same ones.
pub open spec fn same_paths(left: Seq<Seq<PathPart>>, right: Seq<Seq<PathPart>>) -> bool {
    &&& left.len() == right.len()
    &&& forall|i: int| 0 <= i < left.len() ==> path::same_path(#[trigger] left[i], right[i])
}

/// Whether two lists depend on the same.
pub open spec fn same_key(left: KeyModel, right: KeyModel) -> bool {
    &&& same_paths(left.input_roots, right.input_roots)
    &&& same_paths(left.canonical_roots, right.canonical_roots)
    &&& path::same_path(left.current_dir, right.current_dir)
    &&& left.hidden == right.hidden
    &&& left.no_ignore == right.no_ignore
    &&& left.globs == right.globs
    &&& same_snapshot(left.ignore_snapshot, right.ignore_snapshot)
}

/// Whether two lists of paths name the same ones.
fn path_lists_equal(left: &Vec<Vec<PathComponent>>, right: &Vec<Vec<PathComponent>>) -> (result: bool)
    ensures
        result == same_paths(context::path_models(left@), context::path_models(right@)),
{
    let ghost lefts = context::path_models(left@);
    let ghost rights = context::path_models(right@);
    if left.len() != right.len() {
        return false;
    }
    let mut index: usize = 0;
    while index < left.len()
        invariant
            index <= left.len() == right.len(),
            lefts == context::path_models(left@),
            rights == context::path_models(right@),
            forall|i: int| 0 <= i < index ==> path::same_path(#[trigger] lefts[i], rights[i]),
        decreases left.len() - index,
    {
        assert(lefts[index as int] == path::parts(left[index as int]@));
        assert(rights[index as int] == path::parts(right[index as int]@));
        if !paths_equal(left[index].as_slice(), right[index].as_slice()) {
            return false;
        }
        index += 1;
    }
    true
}

/// Whether two lists of texts are the same.
fn text_lists_equal(left: &Vec<String>, right: &Vec<String>) -> (result: bool)
    ensures
        result == (text::texts(left@) == text::texts(right@)),
{
    let ghost lefts = text::texts(left@);
    let ghost rights = text::texts(right@);
    if left.len() != right.len() {
        assert(lefts.len() != rights.len());
        return false;
    }
    let mut index: usize = 0;
    while index < left.len()
        invariant
            index <= left.len() == right.len(),
            lefts == text::texts(left@),
            rights == text::texts(right@),
            forall|i: int| 0 <= i < index ==> lefts[i] == rights[i],
        decreases left.len() - index,
    {
        if !same_text(left[index].as_str(), right[index].as_str()) {
            assert(lefts[index as int] != rights[index as int]);
            return false;
        }
        index += 1;
    }
    assert(lefts =~= rights);
    true
}

/// Whether two lists depend on the same.
pub(crate) fn keys_equal(left: &FileListCacheKey, right: &FileListCacheKey) -> (result: bool)
    ensures
        result == same_key(left@, right@),
{
    path_lists_equal(&left.input_roots, &right.input_roots) && path_lists_equal(
        &left.canonical_roots,
        &right.canonical_roots,
    ) && paths_equal(left.current_dir.as_slice(), right.current_dir.as_slice()) && left.hidden
        == right.hidden && left.no_ignore == right.no_ignore && text_lists_equal(
        &left.globs,
        &right.globs,
    ) && snapshots_equal(&left.ignore_snapshot, &right.ignore_snapshot)
}

/// Whether lists of files below roots may be kept: the host finds each as a directory, and it is not
/// on another machine.
pub open spec fn roots_can_be_kept(roots: Seq<CacheRoot>) -> bool {
    &&& roots.len() > 0
    &&& forall|i: int|
        0 <= i < roots.len() ==> (#[trigger] roots[i]).canonical is Some && roots[i].is_directory
            && !is_remote(roots[i].prefix)
}

/// Roots as they were given.
pub open spec fn root_inputs(roots: Seq<CacheRoot>) -> Seq<Seq<PathPart>> {
    Seq::new(roots.len(), |i: int| path::parts(roots[i].input@))
}

/// Roots without links.
pub open spec fn root_canonicals(roots: Seq<CacheRoot>) -> Seq<Seq<PathPart>> {
    Seq::new(roots.len(), |i: int| path::parts(roots[i].canonical->0@))
}

impl FileListCacheKey {
    /// The key of a search, unless its list is not to be kept: where links are followed, where a root
    /// is not a directory of a drive of this machine, or where too many ignore files matter.
    pub fn new(
        roots: &[CacheRoot],
        current_dir: &Option<Vec<PathComponent>>,
        hidden: bool,
        no_ignore: bool,
        follow: bool,
        globs: &[String],
        local_fixed: bool,
        ignore_snapshot: Option<IgnoreSnapshot>,
    ) -> (result: Option<Self>)
        ensures
            result is Some == (!follow && roots_can_be_kept(roots@) && local_fixed
                && ignore_snapshot is Some && current_dir is Some),
            result matches Some(key) ==> key@ == (KeyModel {
                input_roots: root_inputs(roots@),
                canonical_roots: root_canonicals(roots@),
                current_dir: path::parts(current_dir->0@),
                hidden,
                no_ignore,
                globs: text::texts(globs@),
                ignore_snapshot: ignore_snapshot->0@,
            }),
    {
        if follow || roots.len() == 0 {
            return None;
        }
        let mut input_roots: Vec<Vec<PathComponent>> = Vec::new();
        let mut canonical_roots: Vec<Vec<PathComponent>> = Vec::new();
        let mut index: usize = 0;
        while index < roots.len()
            invariant
                index <= roots.len(),
                input_roots.len() == index,
                canonical_roots.len() == index,
                forall|i: int|
                    0 <= i < index ==> (#[trigger] roots@[i]).canonical is Some
                        && roots@[i].is_directory && !is_remote(roots@[i].prefix),
                forall|i: int|
                    0 <= i < index ==> path::parts((#[trigger] input_roots[i])@) == path::parts(
                        roots@[i].input@,
                    ),
                forall|i: int|
                    0 <= i < index ==> path::parts((#[trigger] canonical_roots[i])@)
                        == path::parts(roots@[i].canonical->0@),
            decreases roots.len() - index,
        {
            let root: &CacheRoot = &roots[index];
            assert(*root == roots@[index as int]);
            match &root.canonical {
                Some(canonical) => {
                    if !root.is_directory || is_unc_or_device_path(root.prefix) {
                        return None;
                    }
                    canonical_roots.push(copy_path(canonical.as_slice()));
                },
                None => {
                    return None;
                },
            }
            input_roots.push(copy_path(root.input.as_slice()));
            index += 1;
        }
        if !local_fixed {
            return None;
        }
        let ignore_snapshot: IgnoreSnapshot = match ignore_snapshot {
            Some(snapshot) => snapshot,
            None => {
                return None;
            },
        };
        let current_dir: Vec<PathComponent> = match current_dir {
            Some(directory) => copy_path(directory.as_slice()),
            None => {
                return None;
            },
        };
        proof {
            assert(context::path_models(input_roots@) =~= root_inputs(roots@));
            assert(context::path_models(canonical_roots@) =~= root_canonicals(roots@));
        }
        Some(
            FileListCacheKey {
                input_roots,
                canonical_roots,
                current_dir,
                hidden,
                no_ignore,
                globs: copy_texts(globs),
                ignore_snapshot,
            },
        )
    }

    /// The roots without links.
    pub fn roots(&self) -> (result: &Vec<Vec<PathComponent>>)
        ensures
            context::path_models(result@) == self@.canonical_roots,
    {
        &self.canonical_roots
    }

    /// Whether a fresh look at the ignore files finds what the key holds.
    pub fn ignore_snapshot_is_current(&self, fresh: &Option<IgnoreSnapshot>) -> (result: bool)
        ensures
            result == snapshot_current(self@, *fresh),
    {
        match fresh {
            Some(snapshot) => snapshots_equal(snapshot, &self.ignore_snapshot),
            None => false,
        }
    }
}

/// Whether a fresh look at the ignore files finds what a key holds.
pub open spec fn snapshot_current(key: KeyModel, fresh: Option<IgnoreSnapshot>) -> bool {
    match fresh {
        Some(snapshot) => same_snapshot(snapshot@, key.ignore_snapshot),
        None => false,
    }
}

/// A copy of texts.
fn copy_texts(values: &[String]) -> (result: Vec<String>)
    ensures
        text::texts(result@) == text::texts(values@),
{
    let mut result: Vec<String> = Vec::new();
    let mut index: usize = 0;
    while index < values.len()
        invariant
            index <= values.len(),
            result.len() == index,
            forall|i: int| 0 <= i < index ==> (#[trigger] result[i])@ == values@[i]@,
        decreases values.len() - index,
    {
        result.push(values[index].clone());
        index += 1;
    }
    assert(text::texts(result@) =~= text::texts(values@));
    result
}

/// A directory to watch for changes.
#[derive(Debug)]
pub struct WatchOrder {
    pub path: Vec<PathComponent>,
    /// Whether all that lies below is watched too.
    pub recursive: bool,
}

/// The roots to watch with all below them: those that lie below no other before them.
pub open spec fn watched_roots(roots: Seq<Seq<PathPart>>) -> Seq<Seq<PathPart>>
    decreases roots.len(),
{
    if roots.len() == 0 {
        roots
    } else {
        let before = watched_roots(roots.drop_last());
        if covered(before, roots.last()) {
            before
        } else {
            before.push(roots.last())
        }
    }
}

/// Whether a path is one of others or lies below one of them.
pub open spec fn covered(watched: Seq<Seq<PathPart>>, path: Seq<PathPart>) -> bool {
    exists|i: int| 0 <= i < watched.len() && path::path_below(path, #[trigger] watched[i])
}

/// The directories that hold roots, each once, unless a root is in none.
pub open spec fn watched_parents(roots: Seq<Seq<PathPart>>) -> Option<Seq<Seq<PathPart>>>
    decreases roots.len(),
{
    if roots.len() == 0 {
        Some(roots)
    } else {
        match (watched_parents(roots.drop_last()), path::parent(roots.last())) {
            (Some(before), Some(above)) => if holds_path(before, above) {
                Some(before)
            } else {
                Some(before.push(above))
            },
            _ => None,
        }
    }
}

/// The paths to watch with or without what lies below.
pub open spec fn order_paths(orders: Seq<WatchOrder>) -> Seq<Seq<PathPart>> {
    Seq::new(orders.len(), |i: int| path::parts(orders[i].path@))
}

/// The directories to watch for a key: its roots with all below them, and the directories that hold
/// the roots, so that a root that is replaced is noticed. There are none where a root is in no other
/// directory.
pub fn begin(key: &FileListCacheKey) -> (result: Option<(Vec<WatchOrder>, Vec<WatchOrder>)>)
    ensures
        match result {
            Some((inside, above)) => {
                &&& order_paths(inside@) == watched_roots(key@.canonical_roots)
                &&& forall|i: int| 0 <= i < inside@.len() ==> (#[trigger] inside@[i]).recursive
                &&& watched_parents(key@.canonical_roots) == Some(order_paths(above@))
                &&& forall|i: int| 0 <= i < above@.len() ==> !(#[trigger] above@[i]).recursive
            },
            None => watched_parents(key@.canonical_roots) is None,
        },
{
    let roots: &Vec<Vec<PathComponent>> = &key.canonical_roots;
    let ghost all = key@.canonical_roots;
    let mut inside: Vec<WatchOrder> = Vec::new();
    let mut index: usize = 0;
    assert(all.subrange(0, 0) =~= Seq::<Seq<PathPart>>::empty());
    assert(order_paths(inside@) =~= Seq::<Seq<PathPart>>::empty());
    while index < roots.len()
        invariant
            index <= roots.len(),
            all == context::path_models(roots@),
            order_paths(inside@) == watched_roots(all.subrange(0, index as int)),
            forall|i: int| 0 <= i < inside@.len() ==> (#[trigger] inside@[i]).recursive,
        decreases roots.len() - index,
    {
        proof {
            let here = all.subrange(0, index + 1);
            assert(here.last() == path::parts(roots[index as int]@));
            assert(here.drop_last() =~= all.subrange(0, index as int));
        }
        let ghost before = order_paths(inside@);
        if !is_covered(&inside, roots[index].as_slice()) {
            inside.push(WatchOrder { path: copy_path(roots[index].as_slice()), recursive: true });
            assert(order_paths(inside@) =~= before.push(path::parts(roots[index as int]@)));
        }
        index += 1;
    }
    let mut above: Vec<WatchOrder> = Vec::new();
    index = 0;
    assert(order_paths(above@) =~= Seq::<Seq<PathPart>>::empty());
    while index < roots.len()
        invariant
            index <= roots.len(),
            all == context::path_models(roots@),
            all == key@.canonical_roots,
            watched_parents(all.subrange(0, index as int)) == Some(order_paths(above@)),
            forall|i: int| 0 <= i < above@.len() ==> !(#[trigger] above@[i]).recursive,
        decreases roots.len() - index,
    {
        proof {
            let here = all.subrange(0, index + 1);
            assert(here.last() == path::parts(roots[index as int]@));
            assert(here.drop_last() =~= all.subrange(0, index as int));
        }
        let ghost before = order_paths(above@);
        match parent_len(roots[index].as_slice()) {
            Some(length) => {
                let root: &[PathComponent] = roots[index].as_slice();
                let parent: Vec<PathComponent> = copy_path(&root[0..length]);
                let ghost model = path::parts(parent@);
                if !is_ordered(&above, parent.as_slice()) {
                    above.push(WatchOrder { path: parent, recursive: false });
                    assert(order_paths(above@) =~= before.push(model));
                }
            },
            None => {
                proof {
                    lemma_no_parents(all, index + 1);
                }
                return None;
            },
        }
        index += 1;
    }
    assert(all.subrange(0, all.len() as int) =~= all);
    Some((inside, above))
}

proof fn lemma_no_parents(roots: Seq<Seq<PathPart>>, count: int)
    requires
        0 <= count <= roots.len(),
        watched_parents(roots.subrange(0, count)) is None,
    ensures
        watched_parents(roots) is None,
    decreases roots.len(),
{
    if count == roots.len() {
        assert(roots.subrange(0, count) =~= roots);
    } else {
        assert(roots.drop_last().subrange(0, count) =~= roots.subrange(0, count));
        lemma_no_parents(roots.drop_last(), count);
    }
}

/// Whether a path is one of those that are watched or lies below one of them.
fn is_covered(orders: &Vec<WatchOrder>, path: &[PathComponent]) -> (result: bool)
    ensures
        result == covered(order_paths(orders@), path::parts(path@)),
{
    let ghost paths = order_paths(orders@);
    let mut index: usize = 0;
    while index < orders.len()
        invariant
            index <= orders.len(),
            paths == order_paths(orders@),
            forall|i: int|
                0 <= i < index ==> !path::path_below(path::parts(path@), #[trigger] paths[i]),
        decreases orders.len() - index,
    {
        assert(paths[index as int] == path::parts(orders[index as int].path@));
        if path_starts_with(path, orders[index].path.as_slice()) {
            assert(path::path_below(path::parts(path@), paths[index as int]));
            return true;
        }
        index += 1;
    }
    false
}

/// Whether a path is one of those that are watched.
fn is_ordered(orders: &Vec<WatchOrder>, path: &[PathComponent]) -> (result: bool)
    ensures
        result == holds_path(order_paths(orders@), path::parts(path@)),
{
    let ghost paths = order_paths(orders@);
    let mut index: usize = 0;
    while index < orders.len()
        invariant
            index <= orders.len(),
            paths == order_paths(orders@),
            forall|i: int|
                0 <= i < index ==> !path::same_path(#[trigger] paths[i], path::parts(path@)),
        decreases orders.len() - index,
    {
        assert(paths[index as int] == path::parts(orders[index as int].path@));
        if paths_equal(orders[index].path.as_slice(), path) {
            assert(path::same_path(paths[index as int], path::parts(path@)));
            return true;
        }
        index += 1;
    }
    false
}

/// Every root is watched: it is one of the watched directories or lies below one.
pub proof fn every_root_is_watched(roots: Seq<Seq<PathPart>>, index: int)
    requires
        0 <= index < roots.len(),
    ensures
        covered(watched_roots(roots), roots[index]),
    decreases roots.len(),
{
    let before = watched_roots(roots.drop_last());
    let after = watched_roots(roots);
    if index < roots.len() - 1 {
        every_root_is_watched(roots.drop_last(), index);
        let k = choose|k: int|
            0 <= k < before.len() && path::path_below(roots[index], #[trigger] before[k]);
        assert(after[k] == before[k]);
    } else if !covered(before, roots[index]) {
        assert(after[before.len() as int] == roots[index]);
    }
}

} // verus!
