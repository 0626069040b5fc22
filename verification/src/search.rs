//! How `rg` goes about a search: what it prepares, how it divides the work, and what it reports.

use vstd::prelude::*;
use crate::context::{ErrorModel, WalkError};
use crate::glob::GlobError;
use crate::order;
use crate::order::{sort_indices, SortKey};
use crate::platform::Platform;
use crate::search_args::{OptionsModel, SearchOptions};
use crate::text;
use crate::text::{copy_bytes, path_text};
use crate::walk::{NativeWalkOptions, WrittenPath};
use crate::wire::{ErrorReport, ReportModel};

verus! {

/// The number of files up to which one worker does all.
pub const FILE_THRESHOLD: usize = 64;

/// The number of directory entries up to which one worker does all.
pub const ENTRY_THRESHOLD: usize = 256;

/// The most paths of a stored list that one worker searches alone.
pub const SEQUENTIAL_PATHS: usize = 64;

pub open spec fn least(left: int, right: int) -> int {
    if left < right {
        left
    } else {
        right
    }
}

pub open spec fn greatest(left: int, right: int) -> int {
    if left > right {
        left
    } else {
        right
    }
}

fn lesser(left: usize, right: usize) -> (result: usize)
    ensures
        result == least(left as int, right as int),
{
    if left < right {
        left
    } else {
        right
    }
}

fn greater(left: usize, right: usize) -> (result: usize)
    ensures
        result == greatest(left as int, right as int),
{
    if left > right {
        left
    } else {
        right
    }
}

/// The number of workers: up to 12 on storage that is not known to be fast, and otherwise as many as
/// there are cores, from 12 up to 20, and never more than run at a time.
pub open spec fn thread_count(logical: int, physical: int, fast_storage: bool) -> int {
    let available = greatest(logical, 1);
    if !fast_storage {
        least(available, 12)
    } else {
        let cores = least(greatest(physical, 1), available);
        least(least(available, greatest(cores, 12)), 20)
    }
}

/// The number of workers for a search.
pub fn choose_thread_count(logical: usize, physical: usize, fast_storage: bool) -> (result: usize)
    ensures
        result == thread_count(logical as int, physical as int, fast_storage),
{
    let available: usize = greater(logical, 1);
    if !fast_storage {
        return lesser(available, 12);
    }
    let cores: usize = lesser(greater(physical, 1), available);
    lesser(lesser(available, greater(cores, 12)), 20)
}

/// There is at least one worker, no more than run at a time, and no more than 20.
pub proof fn thread_count_is_in_range(logical: int, physical: int, fast_storage: bool)
    ensures
        1 <= thread_count(logical, physical, fast_storage) <= 20,
        logical >= 1 ==> thread_count(logical, physical, fast_storage) <= logical,
{
}

/// What an entry is, for the question whether to divide the work.
#[derive(Clone, Copy, Debug, PartialEq, Eq, Structural)]
pub enum ProbeKind {
    File,
    Directory,
    Symlink,
    Other,
    /// It could not be told.
    Failed,
}

/// How much there is to search, as far as was looked.
#[derive(Clone, Copy, Debug, PartialEq, Eq, Structural)]
pub struct ParallelProbe {
    pub file_count: usize,
    pub entry_count: usize,
}

/// What an entry says about the question whether to divide the work.
#[derive(Clone, Copy, Debug, PartialEq, Eq, Structural)]
pub enum ProbeStep {
    /// There is enough work to divide.
    Parallel,
    /// The entry is a directory to look into later.
    LookInto,
    Next,
}

/// Whether there is enough work to divide.
pub open spec fn enough_work(file_count: int, entry_count: int) -> bool {
    file_count > FILE_THRESHOLD || entry_count > ENTRY_THRESHOLD
}

/// What one more entry says, with `files` and `entries` counted before it.
pub open spec fn probe_step(files: int, entries: int, kind: ProbeKind, follow: bool) -> ProbeStep {
    let more_files = files + if kind is File {
        1int
    } else {
        0
    };
    if kind is Failed || (follow && kind is Symlink) || enough_work(more_files, entries + 1) {
        ProbeStep::Parallel
    } else if kind is Directory {
        ProbeStep::LookInto
    } else {
        ProbeStep::Next
    }
}

impl ParallelProbe {
    /// Less work than is divided was seen.
    pub open spec fn wf(self) -> bool {
        !enough_work(self.file_count as int, self.entry_count as int)
    }

    /// Starts with the roots; `None` where these are enough work to divide.
    pub fn new(file_roots: usize, root_count: usize) -> (result: Option<Self>)
        ensures
            match result {
                None => file_roots > FILE_THRESHOLD || root_count > ENTRY_THRESHOLD,
                Some(probe) => {
                    &&& probe.wf()
                    &&& probe.file_count == file_roots
                    &&& probe.entry_count == 0
                    &&& !(file_roots > FILE_THRESHOLD || root_count > ENTRY_THRESHOLD)
                },
            },
    {
        if file_roots > FILE_THRESHOLD || root_count > ENTRY_THRESHOLD {
            None
        } else {
            Some(ParallelProbe { file_count: file_roots, entry_count: 0 })
        }
    }

    /// Counts one more entry.
    pub fn observe(&mut self, kind: ProbeKind, follow: bool) -> (result: ProbeStep)
        requires
            old(self).wf(),
        ensures
            result == probe_step(
                old(self).file_count as int,
                old(self).entry_count as int,
                kind,
                follow,
            ),
            !(result is Parallel) ==> final(self).wf(),
            final(self).entry_count == old(self).entry_count + 1,
            final(self).file_count == old(self).file_count + if kind is File {
                1int
            } else {
                0
            },
    {
        self.entry_count = self.entry_count + 1;
        match kind {
            ProbeKind::Failed => {
                return ProbeStep::Parallel;
            },
            ProbeKind::File => {
                self.file_count = self.file_count + 1;
            },
            ProbeKind::Symlink => {
                if follow {
                    return ProbeStep::Parallel;
                }
            },
            _ => {},
        }
        if self.file_count > FILE_THRESHOLD || self.entry_count > ENTRY_THRESHOLD {
            return ProbeStep::Parallel;
        }
        match kind {
            ProbeKind::Directory => ProbeStep::LookInto,
            _ => ProbeStep::Next,
        }
    }
}

/// The number of files among entries.
pub open spec fn files_among(kinds: Seq<ProbeKind>) -> int
    decreases kinds.len(),
{
    if kinds.len() == 0 {
        0
    } else {
        files_among(kinds.drop_last()) + if kinds.last() is File {
            1int
        } else {
            0
        }
    }
}

/// Whether some of the entries, taken in order behind `files` files, make enough work to divide.
pub open spec fn probe_finds_work(files: int, kinds: Seq<ProbeKind>, follow: bool) -> bool
    decreases kinds.len(),
{
    kinds.len() > 0 && (probe_finds_work(files, kinds.drop_last(), follow) || probe_step(
        files + files_among(kinds.drop_last()),
        kinds.len() - 1,
        kinds.last(),
        follow,
    ) is Parallel)
}

/// The work is divided exactly where there are more than `FILE_THRESHOLD` files or more than
/// `ENTRY_THRESHOLD` entries, an entry cannot be told, or a link is to be followed.
pub proof fn work_is_divided_above_thresholds(files: int, kinds: Seq<ProbeKind>, follow: bool)
    requires
        0 <= files <= FILE_THRESHOLD,
    ensures
        probe_finds_work(files, kinds, follow) == (files + files_among(kinds) > FILE_THRESHOLD
            || kinds.len() > ENTRY_THRESHOLD || kinds.contains(ProbeKind::Failed) || (follow
            && kinds.contains(ProbeKind::Symlink))),
    decreases kinds.len(),
{
    if kinds.len() > 0 {
        let before = kinds.drop_last();
        work_is_divided_above_thresholds(files, before, follow);
        lemma_last_or_before(kinds, ProbeKind::Failed);
        lemma_last_or_before(kinds, ProbeKind::Symlink);
    }
}

proof fn lemma_last_or_before(kinds: Seq<ProbeKind>, kind: ProbeKind)
    requires
        kinds.len() > 0,
    ensures
        kinds.contains(kind) == (kinds.drop_last().contains(kind) || kinds.last() == kind),
{
    let before = kinds.drop_last();
    if kinds.contains(kind) {
        let i = choose|i: int| 0 <= i < kinds.len() && kinds[i] == kind;
        if i < before.len() {
            assert(before[i] == kind);
        }
    }
    if before.contains(kind) {
        let i = choose|i: int| 0 <= i < before.len() && before[i] == kind;
        assert(kinds[i] == kind);
    }
    if kinds.last() == kind {
        assert(kinds[kinds.len() - 1] == kind);
    }
}

/// Whether a file is likely to be read to its end.
pub open spec fn reads_to_the_end(options: OptionsModel) -> bool {
    !options.files_with_matches && options.max_count is None
}

/// Whether a file is likely to be read to its end, so that the host may be told so.
pub fn use_sequential_hint(options: &SearchOptions) -> (result: bool)
    ensures
        result == reads_to_the_end(options@),
{
    !options.files_with_matches && options.max_count.is_none()
}

/// What the lines of the output start with: the path where there is more than one root or a root is
/// a directory.
pub fn shows_paths(root_count: usize, some_directory: bool) -> (result: bool)
    ensures
        result == (root_count > 1 || some_directory),
{
    root_count > 1 || some_directory
}

/// The number of workers for a stored list of paths: one does all of a short list.
pub fn path_worker_count(paths: usize, threads: usize) -> (result: usize)
    ensures
        result == (if paths <= SEQUENTIAL_PATHS {
            1int
        } else {
            least(threads as int, paths as int)
        }),
{
    if paths <= SEQUENTIAL_PATHS {
        1
    } else {
        lesser(threads, paths)
    }
}

/// What texts are.
fn copy_texts(values: &[String]) -> (result: Vec<String>)
    ensures
        text::texts(result@) == text::texts(values@),
{
    let mut result: Vec<String> = Vec::new();
    let mut index: usize = 0;
    while index < values.len()
        invariant
            index <= values.len(),
            result.len() == index,
            forall|i: int| 0 <= i < index ==> (#[trigger] result[i])@ == values[i]@,
        decreases values.len() - index,
    {
        result.push(values[index].clone());
        index += 1;
    }
    assert(text::texts(result@) =~= text::texts(values@));
    result
}

/// What a search asks of the walk.
pub fn walk_options(options: &SearchOptions, current_dir: Option<WrittenPath>) -> (result:
    NativeWalkOptions)
    ensures
        result.hidden == options@.hidden,
        result.no_ignore == options@.no_ignore,
        result.follow_links == options@.follow,
        text::texts(result.globs@) == options@.globs,
        result.current_dir == current_dir,
{
    NativeWalkOptions {
        hidden: options.hidden,
        no_ignore: options.no_ignore,
        follow_links: options.follow,
        globs: copy_texts(options.globs.as_slice()),
        current_dir,
    }
}

/// The report of a pattern that cannot be searched for.
pub fn pattern_report(pattern: &str, reason: &str) -> (result: ErrorReport)
    ensures
        result@ == (ReportModel {
            code: "InvalidPattern"@,
            category: "InvalidArgument"@,
            message: "rg の正規表現が不正です: "@ + reason@,
            path: Some(pattern@),
        }),
{
    ErrorReport::about(
        "InvalidPattern",
        "InvalidArgument",
        "rg の正規表現が不正です: ".to_owned().concat(reason),
        pattern.to_owned(),
    )
}

/// The report of a walk that cannot start: a pattern for paths that is refused, or a directory that
/// cannot be told.
pub fn walk_start_report(error: &GlobError) -> (result: ErrorReport)
    ensures
        result@ == match text::optional_text(error.pattern) {
            Some(pattern) => ReportModel {
                code: "InvalidGlob"@,
                category: "InvalidArgument"@,
                message: "rg のglobが不正です: "@ + error.message@,
                path: Some(pattern),
            },
            None => ReportModel {
                code: "WalkFailed"@,
                category: "ReadError"@,
                message: "rg のファイル走査を初期化できませんでした: "@ + error.message@,
                path: None,
            },
        },
{
    match error.pattern() {
        Some(pattern) => ErrorReport::about(
            "InvalidGlob",
            "InvalidArgument",
            "rg のglobが不正です: ".to_owned().concat(error.message.as_str()),
            pattern.to_owned(),
        ),
        None => ErrorReport::new(
            "WalkFailed",
            "ReadError",
            "rg のファイル走査を初期化できませんでした: ".to_owned().concat(
                error.message.as_str(),
            ),
        ),
    }
}

/// The path of a failure as text.
pub open spec fn error_path(error: ErrorModel, platform: Platform) -> Option<Seq<char>> {
    match error.path {
        Some(path) => Some(text::path_shown(platform, path)),
        None => None,
    }
}

/// The path of a failure as text.
pub fn walk_error_path(error: &WalkError, platform: Platform) -> (result: Option<String>)
    ensures
        text::optional_text(result) == error_path(error@, platform),
{
    match error.path() {
        Some(path) => Some(path_text(path, platform)),
        None => None,
    }
}

/// What a failure of the walk says: its path, where it has one, and its message.
pub open spec fn walk_error_text(error: ErrorModel, platform: Platform) -> Seq<char> {
    match error_path(error, platform) {
        Some(path) => path + ": "@ + error.message,
        None => error.message,
    }
}

/// The report of a failure of the walk.
pub fn walk_report(error: &WalkError, platform: Platform) -> (result: ErrorReport)
    ensures
        result@ == (ReportModel {
            code: "WalkFailed"@,
            category: "ReadError"@,
            message: "rg のファイル走査に失敗しました: "@ + walk_error_text(error@, platform),
            path: error_path(error@, platform),
        }),
{
    let path: Option<String> = walk_error_path(error, platform);
    let said: String = match &path {
        Some(path) => path.clone().concat(": ").concat(error.message.as_str()),
        None => error.message.clone(),
    };
    ErrorReport {
        code: "WalkFailed".to_owned(),
        category: "ReadError".to_owned(),
        message: "rg のファイル走査に失敗しました: ".to_owned().concat(said.as_str()),
        path,
    }
}

/// The report of a file that could not be searched.
pub fn search_report(path: &str, reason: &str) -> (result: ErrorReport)
    ensures
        result@ == (ReportModel {
            code: "SearchFailed"@,
            category: "ReadError"@,
            message: "rg でファイルを検索できませんでした: "@ + reason@,
            path: Some(path@),
        }),
{
    ErrorReport::about(
        "SearchFailed",
        "ReadError",
        "rg でファイルを検索できませんでした: ".to_owned().concat(reason),
        path.to_owned(),
    )
}

/// The paths that one worker found, each with its number among all that were found.
#[derive(Debug)]
pub struct ThreadPathCollector {
    pub local: Vec<(usize, Vec<u8>)>,
    /// Whether paths are collected at all.
    pub collecting: bool,
}

/// Numbered paths.
pub open spec fn numbered(paths: Seq<(usize, Vec<u8>)>) -> Seq<(usize, Seq<u8>)> {
    Seq::new(paths.len(), |i: int| (paths[i].0, paths[i].1@))
}

impl ThreadPathCollector {
    pub fn new(collecting: bool) -> (result: Self)
        ensures
            result.collecting == collecting,
            result.local@.len() == 0,
    {
        ThreadPathCollector { local: Vec::new(), collecting }
    }

    /// Adds a path with its number, where paths are collected.
    pub fn push(&mut self, sequence: usize, path: &[u8])
        ensures
            final(self).collecting == old(self).collecting,
            numbered(final(self).local@) == (if old(self).collecting {
                numbered(old(self).local@).push((sequence, path@))
            } else {
                numbered(old(self).local@)
            }),
    {
        if self.collecting {
            let ghost before = numbered(self.local@);
            self.local.push((sequence, copy_bytes(path)));
            assert(numbered(self.local@) =~= before.push((sequence, path@)));
        }
    }
}

/// Whether `result` holds the paths in the order of their numbers: `order` is that order.
pub open spec fn in_sequence(
    paths: Seq<(usize, Seq<u8>)>,
    order: Seq<usize>,
    result: Seq<Seq<u8>>,
) -> bool {
    &&& order.len() == paths.len() == result.len()
    &&& order.no_duplicates()
    &&& forall|i: int|
        0 <= i < order.len() ==> (#[trigger] order[i]) < paths.len() && result[i]
            == paths[order[i] as int].1
    &&& forall|i: int, j: int|
        0 <= i < j < order.len() ==> paths[#[trigger] order[i] as int].0
            <= paths[#[trigger] order[j] as int].0
}

/// The paths that all workers found, in the order of their numbers.
pub fn ordered_paths(paths: &[(usize, Vec<u8>)]) -> (result: Vec<Vec<u8>>)
    ensures
        exists|order: Seq<usize>| #[trigger]
            in_sequence(numbered(paths@), order, text::byte_strings(result@)),
{
    let mut keys: Vec<usize> = Vec::new();
    let mut all: Vec<usize> = Vec::new();
    let mut index: usize = 0;
    while index < paths.len()
        invariant
            index <= paths.len(),
            keys.len() == index,
            all.len() == index,
            forall|i: int| 0 <= i < index ==> #[trigger] keys[i] == paths[i].0,
            forall|i: int| 0 <= i < index ==> #[trigger] all[i] == i,
        decreases paths.len() - index,
    {
        keys.push(paths[index].0);
        all.push(index);
        index += 1;
    }
    let order: Vec<usize> = sort_indices(keys.as_slice(), all.as_slice());
    let mut result: Vec<Vec<u8>> = Vec::new();
    let mut place: usize = 0;
    while place < order.len()
        invariant
            place <= order.len(),
            result.len() == place,
            keys.len() == paths.len(),
            forall|i: int| 0 <= i < order.len() ==> (#[trigger] order[i]) < paths.len(),
            forall|i: int|
                0 <= i < place ==> (#[trigger] result[i])@ == paths[order[i] as int].1@,
        decreases order.len() - place,
    {
        result.push(copy_bytes(paths[order[place]].1.as_slice()));
        place += 1;
    }
    proof {
        let models = numbered(paths@);
        let found = text::byte_strings(result@);
        assert forall|i: int, j: int| 0 <= i < j < order@.len() implies models[
        #[trigger] order@[i] as int].0 <= models[#[trigger] order@[j] as int].0 by {
            assert(keys@[order@[i] as int].key_le(keys@[order@[j] as int]));
        }
        assert(in_sequence(models, order@, found));
    }
    result
}

/// Whether the paths that a search found may be stored for the next one: they were collected, the
/// search went to its end, and no failure left some out.
pub fn keeps_paths(collecting: bool, stopped: bool, failed: bool) -> (result: bool)
    ensures
        result == (collecting && !stopped && !failed),
{
    collecting && !stopped && !failed
}

} // verus!
