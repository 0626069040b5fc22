//! How a walk goes through one directory: which ignore files it looks for, and in which pieces it
//! hands on what it finds.

use vstd::prelude::*;
use crate::context;
use crate::context::{ErrorModel, IgnoreFilePresence, LayerRead, ReadModel, WalkError};
use crate::expand;
use crate::expand::{
    ClassifiedEntry, ClassifyStep, DirectoryTask, EntryFacts, EntryModel, EntryPlace, EntryType,
    StepModel, TaskModel, WalkEntry, WalkRuntime, WorkItem, WorkModel,
};
use crate::ignore::{ChainModel, RuleChain};
use crate::path;
use crate::path::{copy_path, join_shown, PathComponent, PathName, PathPart};
use crate::walk;
use crate::walk::{NativeWalker, FILE_BATCH_SIZE, MAX_BUFFERED_DIRECTORY_ENTRIES};

verus! {

/// One entry of a directory.
#[derive(Debug)]
pub struct ListedEntry {
    pub name: PathName,
    pub facts: EntryFacts,
}

/// What was seen of a directory before its rules are loaded.
#[derive(Clone, Copy, Debug)]
pub struct DirectoryScan {
    pub present: IgnoreFilePresence,
    pub seen: usize,
}

/// The name of an entry where it is text.
pub open spec fn entry_text(entry: Result<ListedEntry, String>) -> Option<Seq<char>> {
    match entry {
        Ok(listed) => if listed.name.utf8 {
            Some(listed.name.text@)
        } else {
            None
        },
        Err(_) => None,
    }
}

/// Which of the names that matter are among the first entries.
pub open spec fn present_among(entries: Seq<Result<ListedEntry, String>>) -> IgnoreFilePresence
    decreases entries.len(),
{
    if entries.len() == 0 {
        IgnoreFilePresence { dot_git: false, gitignore: false, ignore: false, rgignore: false }
    } else {
        let before = present_among(entries.drop_last());
        match entry_text(entries.last()) {
            Some(name) => before.with_name(name),
            None => before,
        }
    }
}

/// Which of the names that matter a directory holds; not known of one with too many entries.
pub open spec fn known_presence(entries: Seq<Result<ListedEntry, String>>) -> Option<
    IgnoreFilePresence,
> {
    if entries.len() > MAX_BUFFERED_DIRECTORY_ENTRIES {
        None
    } else {
        Some(present_among(entries))
    }
}

impl DirectoryScan {
    /// Whether the first `seen` of `entries` were seen.
    pub open spec fn covers(self, entries: Seq<Result<ListedEntry, String>>) -> bool {
        &&& self.seen == entries.len()
        &&& self.present == present_among(entries)
    }

    pub fn new() -> (result: Self)
        ensures
            result.covers(Seq::empty()),
    {
        DirectoryScan { present: IgnoreFilePresence::none(), seen: 0 }
    }

    /// Takes note of one more entry, and says whether to look at another one before the rules are
    /// loaded.
    pub fn observe(&mut self, entry: &Result<ListedEntry, String>) -> (result: bool)
        requires
            old(self).seen <= MAX_BUFFERED_DIRECTORY_ENTRIES,
        ensures
            forall|entries: Seq<Result<ListedEntry, String>>|
                old(self).covers(entries) ==> #[trigger] final(self).covers(entries.push(*entry)),
            final(self).seen == old(self).seen + 1,
            result == (final(self).seen <= MAX_BUFFERED_DIRECTORY_ENTRIES),
    {
        proof {
            assert forall|entries: Seq<Result<ListedEntry, String>>| #[trigger]
                entries.push(*entry).drop_last() == entries by {
                assert(entries.push(*entry).drop_last() =~= entries);
            }
        }
        if let Ok(listed) = entry {
            if listed.name.utf8 {
                self.present.observe(Some(listed.name.text.as_str()));
            }
        }
        self.seen = self.seen + 1;
        self.seen <= MAX_BUFFERED_DIRECTORY_ENTRIES
    }

    /// Which of the names that matter the directory holds, if all of it was seen.
    pub fn presence(&self) -> (result: Option<IgnoreFilePresence>)
        ensures
            forall|entries: Seq<Result<ListedEntry, String>>|
                #[trigger] self.covers(entries) ==> result == known_presence(entries),
    {
        if self.seen > MAX_BUFFERED_DIRECTORY_ENTRIES {
            None
        } else {
            Some(self.present)
        }
    }
}

/// How far a walk through one directory is: the directories on record, what was handed on, and the
/// files that wait to be handed on together.
pub struct ExpansionModel {
    pub visited: Option<Set<Seq<u8>>>,
    pub emitted: Seq<WorkModel>,
    pub files: Seq<EntryModel>,
}

/// The same, with one more item handed on.
pub open spec fn with_item(state: ExpansionModel, item: WorkModel) -> ExpansionModel {
    ExpansionModel { emitted: state.emitted.push(item), ..state }
}

/// The state once an entry came to `step`. Files are held back until a batch is full.
pub open spec fn after_step(state: ExpansionModel, step: StepModel) -> ExpansionModel {
    match step {
        StepModel::File(entry) => {
            let files = state.files.push(entry);
            if files.len() == FILE_BATCH_SIZE {
                ExpansionModel {
                    visited: state.visited,
                    emitted: state.emitted.push(WorkModel::Files(files)),
                    files: Seq::empty(),
                }
            } else {
                ExpansionModel { files, ..state }
            }
        },
        StepModel::Directory(task) => with_item(state, WorkModel::Directory(task)),
        StepModel::Error(error) => with_item(state, WorkModel::Error(error)),
        _ => state,
    }
}

/// What bears on every entry of one directory.
pub struct DirectoryModel {
    pub rules: walk::WalkRules,
    pub follow_links: bool,
    pub path: Seq<PathPart>,
    pub display_path: Seq<u8>,
    pub context: ChainModel,
    pub root_base: Seq<PathPart>,
}

/// Where an entry of a directory lies: its name follows the directory's path, and behind a separator
/// the directory's path as it is shown.
pub open spec fn place_of(directory: DirectoryModel, entry: ListedEntry) -> EntryPlace {
    EntryPlace {
        context: directory.context,
        root_base: directory.root_base,
        path: directory.path.push(PathPart::Normal(entry.name@)),
        display_path: path::shown_join(
            directory.rules.platform,
            directory.display_path,
            entry.name@.raw,
        ),
    }
}

/// The record of directories after an entry was judged.
pub open spec fn visited_after_entry(
    directory: DirectoryModel,
    visited: Option<Set<Seq<u8>>>,
    entry: ListedEntry,
) -> Option<Set<Seq<u8>>> {
    if expand::is_registered(
        directory.rules,
        directory.follow_links,
        place_of(directory, entry),
        entry.facts,
    ) {
        expand::visited_after(visited, expand::identity_model(entry.facts.identity))
    } else {
        visited
    }
}

/// The step that an entry comes to.
pub open spec fn entry_step(
    directory: DirectoryModel,
    visited: Option<Set<Seq<u8>>>,
    entry: ListedEntry,
) -> StepModel {
    expand::classified(
        directory.rules,
        directory.follow_links,
        visited,
        place_of(directory, entry),
        entry.facts,
    )
}

/// The state after one more entry, or one more failure to read an entry.
pub open spec fn after_entry(
    directory: DirectoryModel,
    state: ExpansionModel,
    entry: Result<ListedEntry, String>,
) -> ExpansionModel {
    match entry {
        Err(reason) => with_item(
            state,
            WorkModel::Error(
                ErrorModel { path: Some(directory.display_path), message: reason@ },
            ),
        ),
        Ok(listed) => after_step(
            ExpansionModel {
                visited: visited_after_entry(directory, state.visited, listed),
                ..state
            },
            entry_step(directory, state.visited, listed),
        ),
    }
}

/// The state after all of `entries`.
pub open spec fn after_entries(
    directory: DirectoryModel,
    state: ExpansionModel,
    entries: Seq<Result<ListedEntry, String>>,
) -> ExpansionModel
    decreases entries.len(),
{
    if entries.len() == 0 {
        state
    } else {
        after_entry(
            directory,
            after_entries(directory, state, entries.drop_last()),
            entries.last(),
        )
    }
}

/// All that is handed on once the directory is at its end: the files that wait come last.
pub open spec fn all_emitted(state: ExpansionModel) -> Seq<WorkModel> {
    if state.files.len() == 0 {
        state.emitted
    } else {
        state.emitted.push(WorkModel::Files(state.files))
    }
}

/// Failures as pieces of work.
pub open spec fn error_items(errors: Seq<ErrorModel>) -> Seq<WorkModel> {
    Seq::new(errors.len(), |i: int| WorkModel::Error(errors[i]))
}

/// The chain of rules inside a directory.
pub open spec fn inner_chain(
    no_ignore: bool,
    context: ChainModel,
    path: Seq<PathPart>,
    reads: Seq<ReadModel>,
) -> ChainModel {
    if no_ignore {
        context
    } else {
        ChainModel {
            layers: context::layers_inside(context.layers, path, reads),
            explicit_root: context.explicit_root,
        }
    }
}

/// The failures among the ignore files of a directory.
pub open spec fn rule_errors(no_ignore: bool, path: Seq<PathPart>, reads: Seq<ReadModel>) -> Seq<
    ErrorModel,
> {
    if no_ignore {
        Seq::empty()
    } else {
        context::errors_inside(path, reads)
    }
}

/// What bears on every entry of the directory that a task names.
pub open spec fn directory_of_task(
    walker: NativeWalker,
    task: TaskModel,
    reads: Seq<ReadModel>,
) -> DirectoryModel {
    DirectoryModel {
        rules: walker.rules(),
        follow_links: walker.options.follow_links,
        path: task.path,
        display_path: task.display_path,
        context: inner_chain(walker.options.no_ignore, task.context, task.path, reads),
        root_base: task.root_base,
    }
}

/// The state before the first entry: failures to read ignore files come first.
pub open spec fn first_state(
    walker: NativeWalker,
    task: TaskModel,
    reads: Seq<ReadModel>,
    visited: Option<Set<Seq<u8>>>,
) -> ExpansionModel {
    ExpansionModel {
        visited,
        emitted: error_items(rule_errors(walker.options.no_ignore, task.path, reads)),
        files: Seq::empty(),
    }
}

/// Whether all that could be asked for about an entry was looked up.
pub open spec fn looked_up(follow_links: bool, facts: EntryFacts) -> bool {
    follow_links ==> facts.identity is Some && (facts.file_type == Ok::<EntryType, String>(
        EntryType::Symlink,
    ) ==> facts.target is Some)
}

/// A walk through one directory.
#[derive(Debug)]
pub struct DirectoryExpansion {
    pub path: Vec<PathComponent>,
    pub display_path: Vec<u8>,
    pub context: RuleChain,
    pub root_base: Vec<PathComponent>,
    pub files: Vec<WalkEntry>,
}

/// What an entry gives: an item to hand on, nothing, or a question that is to be answered first.
#[derive(Debug)]
pub enum ExpandStep {
    Emit(WorkItem),
    Quiet,
    NeedTarget,
    NeedIdentity,
}

impl ExpandStep {
    /// The item that is handed on, if one is.
    pub open spec fn items(self) -> Seq<WorkModel> {
        match self {
            ExpandStep::Emit(item) => seq![item@],
            _ => Seq::empty(),
        }
    }

    pub open spec fn wf(self) -> bool {
        self matches ExpandStep::Emit(item) ==> item.wf()
    }
}

impl DirectoryExpansion {
    pub open spec fn wf(self) -> bool {
        self.context.wf() && self.files.len() < FILE_BATCH_SIZE
    }

    /// What bears on every entry.
    pub open spec fn directory(self, walker: NativeWalker) -> DirectoryModel {
        DirectoryModel {
            rules: walker.rules(),
            follow_links: walker.options.follow_links,
            path: path::parts(self.path@),
            display_path: self.display_path@,
            context: self.context@,
            root_base: path::parts(self.root_base@),
        }
    }

    /// Starts on a directory whose ignore files were read, and gives the failures to hand on.
    pub fn begin(walker: &NativeWalker, task: DirectoryTask, reads: &[LayerRead]) -> (result: (
        Self,
        Vec<WorkItem>,
    ))
        requires
            task.wf(),
        ensures
            result.0.wf(),
            result.0.directory(*walker) == directory_of_task(
                *walker,
                task@,
                context::read_models(reads@),
            ),
            result.0.files@.len() == 0,
            expand::work_wf(result.1@),
            expand::work_models(result.1@) == error_items(
                rule_errors(
                    walker.options.no_ignore,
                    task@.path,
                    context::read_models(reads@),
                ),
            ),
    {
        let (context, errors) = walker.extend_context_for_directory(
            task.context,
            task.path.as_slice(),
            reads,
        );
        let items: Vec<WorkItem> = errors_as_work(errors);
        (
            DirectoryExpansion {
                path: task.path,
                display_path: task.display_path,
                context,
                root_base: task.root_base,
                files: Vec::new(),
            },
            items,
        )
    }

    /// The item for a failure to read an entry.
    pub fn entry_failed(&self, reason: &str) -> (result: WorkItem)
        ensures
            result.wf(),
            result@ == WorkModel::Error(
                ErrorModel { path: Some(self.display_path@), message: reason@ },
            ),
    {
        WorkItem::Error(WalkError::io(self.display_path.as_slice(), reason))
    }

    /// Judges one entry.
    pub fn accept(&mut self, walker: &NativeWalker, runtime: &mut WalkRuntime, entry: &ListedEntry) -> (result:
        ExpandStep)
        requires
            walker.wf(),
            old(self).wf(),
        ensures
            final(self).wf(),
            final(self).directory(*walker) == old(self).directory(*walker),
            result.wf(),
            ({
                let directory = old(self).directory(*walker);
                let step = entry_step(directory, old(runtime).visited(), *entry);
                let before = ExpansionModel {
                    visited: visited_after_entry(directory, old(runtime).visited(), *entry),
                    emitted: Seq::empty(),
                    files: expand::entry_models(old(self).files@),
                };
                &&& result is NeedTarget == step is NeedTarget
                &&& result is NeedIdentity == step is NeedIdentity
                &&& ExpansionModel {
                    visited: final(runtime).visited(),
                    emitted: result.items(),
                    files: expand::entry_models(final(self).files@),
                } == after_step(before, step)
            }),
    {
        let mut path: Vec<PathComponent> = copy_path(self.path.as_slice());
        path.push(PathComponent::Normal(entry.name.clone()));
        let ghost here = path::parts(self.path@);
        assert(path::parts(path@) =~= here.push(PathPart::Normal(entry.name@)));
        let shown: Vec<u8> = join_shown(
            self.display_path.as_slice(),
            entry.name.raw.as_slice(),
            walker.platform,
        );
        let ghost held = expand::entry_models(self.files@);
        match walker.classify_entry(
            runtime,
            &self.context,
            self.root_base.as_slice(),
            &entry.facts,
            path.as_slice(),
            shown.as_slice(),
        ) {
            ClassifyStep::NeedTarget => {
                assert(ExpandStep::NeedTarget.items() =~= Seq::<WorkModel>::empty());
                ExpandStep::NeedTarget
            },
            ClassifyStep::NeedIdentity => {
                assert(ExpandStep::NeedIdentity.items() =~= Seq::<WorkModel>::empty());
                ExpandStep::NeedIdentity
            },
            ClassifyStep::Classified(ClassifiedEntry::Skip) => ExpandStep::Quiet,
            ClassifyStep::Classified(ClassifiedEntry::Error(error)) => {
                let ghost items = seq![WorkModel::Error(error@)];
                assert(items =~= Seq::<WorkModel>::empty().push(WorkModel::Error(error@)));
                ExpandStep::Emit(WorkItem::Error(error))
            },
            ClassifyStep::Classified(ClassifiedEntry::Directory(task)) => {
                let ghost items = seq![WorkModel::Directory(task@)];
                assert(items =~= Seq::<WorkModel>::empty().push(WorkModel::Directory(task@)));
                ExpandStep::Emit(WorkItem::Directory(task))
            },
            ClassifyStep::Classified(ClassifiedEntry::File(file)) => {
                let ghost model = file@;
                self.files.push(file);
                assert(expand::entry_models(self.files@) =~= held.push(model));
                if self.files.len() == FILE_BATCH_SIZE {
                    let mut batch: Vec<WalkEntry> = Vec::new();
                    batch.append(&mut self.files);
                    assert(expand::entry_models(batch@) =~= held.push(model));
                    assert(expand::entry_models(self.files@) =~= Seq::<EntryModel>::empty());
                    let ghost item = WorkModel::Files(held.push(model));
                    assert(seq![item] =~= Seq::<WorkModel>::empty().push(item));
                    ExpandStep::Emit(WorkItem::Files(batch))
                } else {
                    ExpandStep::Quiet
                }
            },
        }
    }

    /// The files that are left when the directory is at its end.
    pub fn finish(self) -> (result: Option<WorkItem>)
        ensures
            match result {
                Some(item) => item.wf() && item@ == WorkModel::Files(
                    expand::entry_models(self.files@),
                ) && self.files@.len() > 0,
                None => self.files@.len() == 0,
            },
    {
        if self.files.len() == 0 {
            None
        } else {
            Some(WorkItem::Files(self.files))
        }
    }
}

/// Failures as pieces of work.
pub(crate) fn errors_as_work(errors: Vec<WalkError>) -> (result: Vec<WorkItem>)
    ensures
        expand::work_wf(result@),
        expand::work_models(result@) == error_items(context::error_models(errors@)),
{
    let mut items: Vec<WorkItem> = Vec::new();
    let ghost expected = error_items(context::error_models(errors@));
    let mut rest: Vec<WalkError> = errors;
    let ghost all = rest@;
    while rest.len() > 0
        invariant
            expected == error_items(context::error_models(all)),
            rest.len() + items.len() == all.len(),
            rest@ == all.subrange(items.len() as int, all.len() as int),
            expand::work_wf(items@),
            forall|i: int| 0 <= i < items.len() ==> (#[trigger] items[i])@ == expected[i],
        decreases rest.len(),
    {
        let error: WalkError = rest.remove(0);
        items.push(WorkItem::Error(error));
        assert(rest@ =~= all.subrange(items.len() as int, all.len() as int));
    }
    assert(expand::work_models(items@) =~= expected);
    items
}

/// What a directory gives whose entries cannot be listed.
pub open spec fn unlisted_items(display_path: Seq<u8>, reason: Seq<char>) -> Seq<WorkModel> {
    seq![WorkModel::Error(ErrorModel { path: Some(display_path), message: reason })]
}

/// What a directory gives.
pub open spec fn expanded_items(
    walker: NativeWalker,
    task: TaskModel,
    reads: Seq<ReadModel>,
    listing: Result<Vec<Result<ListedEntry, String>>, String>,
    visited: Option<Set<Seq<u8>>>,
) -> Seq<WorkModel> {
    match listing {
        Err(reason) => unlisted_items(task.display_path, reason@),
        Ok(entries) => all_emitted(
            after_entries(
                directory_of_task(walker, task, reads),
                first_state(walker, task, reads, visited),
                entries@,
            ),
        ),
    }
}

/// Goes through a directory of which everything was looked up beforehand: its listing, what a walk
/// may ask about the entries, and its ignore files.
pub fn expand_directory(
    walker: &NativeWalker,
    runtime: &mut WalkRuntime,
    task: DirectoryTask,
    listing: &Result<Vec<Result<ListedEntry, String>>, String>,
    reads: &[LayerRead],
) -> (result: Vec<WorkItem>)
    requires
        walker.wf(),
        task.wf(),
        old(runtime).visited() is Some ==> walker.options.follow_links,
        listing matches Ok(entries) ==> forall|i: int|
            0 <= i < entries.len() ==> (#[trigger] entries[i] matches Ok(listed) ==> looked_up(
                walker.options.follow_links,
                listed.facts,
            )),
    ensures
        expand::work_wf(result@),
        expand::work_models(result@) == expanded_items(
            *walker,
            task@,
            context::read_models(reads@),
            *listing,
            old(runtime).visited(),
        ),
        final(runtime).visited() == match *listing {
            Ok(entries) => after_entries(
                directory_of_task(*walker, task@, context::read_models(reads@)),
                first_state(
                    *walker,
                    task@,
                    context::read_models(reads@),
                    old(runtime).visited(),
                ),
                entries@,
            ).visited,
            Err(_) => old(runtime).visited(),
        },
{
    let entries: &Vec<Result<ListedEntry, String>> = match listing {
        Ok(entries) => entries,
        Err(reason) => {
            let mut items: Vec<WorkItem> = Vec::new();
            items.push(
                WorkItem::Error(WalkError::io(task.display_path.as_slice(), reason.as_str())),
            );
            assert(expand::work_models(items@) =~= unlisted_items(task@.display_path, reason@));
            return items;
        },
    };
    let ghost first_visited = runtime.visited();
    let ghost task_model = task@;
    let ghost rule_reads = context::read_models(reads@);
    let ghost directory = directory_of_task(*walker, task_model, rule_reads);
    let ghost first = first_state(*walker, task_model, rule_reads, first_visited);
    let (mut expansion, mut items) = DirectoryExpansion::begin(walker, task, reads);
    assert(expand::entry_models(expansion.files@) =~= Seq::<EntryModel>::empty());
    let mut index: usize = 0;
    while index < entries.len()
        invariant
            index <= entries.len(),
            walker.wf(),
            expansion.wf(),
            expand::work_wf(items@),
            expansion.directory(*walker) == directory,
            runtime.visited() is Some ==> walker.options.follow_links,
            directory.follow_links == walker.options.follow_links,
            forall|i: int|
                0 <= i < entries.len() ==> (#[trigger] entries[i] matches Ok(listed) ==> looked_up(
                    walker.options.follow_links,
                    listed.facts,
                )),
            after_entries(directory, first, entries@.subrange(0, index as int)) == (
            ExpansionModel {
                visited: runtime.visited(),
                emitted: expand::work_models(items@),
                files: expand::entry_models(expansion.files@),
            }),
        decreases entries.len() - index,
    {
        let ghost emitted = expand::work_models(items@);
        let ghost held = expand::entry_models(expansion.files@);
        let ghost visited = runtime.visited();
        proof {
            let here = entries@.subrange(0, index + 1);
            assert(here.last() == entries[index as int]);
            assert(here.drop_last() =~= entries@.subrange(0, index as int));
        }
        match &entries[index] {
            Err(reason) => {
                let item: WorkItem = expansion.entry_failed(reason.as_str());
                let ghost model = item@;
                items.push(item);
                assert(expand::work_models(items@) =~= emitted.push(model));
            },
            Ok(listed) => {
                let step: ExpandStep = expansion.accept(walker, runtime, listed);
                let ghost given = step.items();
                proof {
                    let model = entry_step(directory, visited, *listed);
                    let seen = visited_after_entry(directory, visited, *listed);
                    lemma_after_step(seen, emitted, held, model);
                    lemma_looked_up_needs_nothing(directory, visited, *listed);
                }
                match step {
                    ExpandStep::Emit(item) => {
                        let ghost model = item@;
                        items.push(item);
                        assert(expand::work_models(items@) =~= emitted.push(model));
                        assert(emitted.push(model) =~= emitted + given);
                    },
                    _ => {
                        assert(emitted + given =~= emitted);
                    },
                }
            },
        }
        index += 1;
    }
    assert(entries@.subrange(0, entries.len() as int) =~= entries@);
    let ghost emitted = expand::work_models(items@);
    if let Some(item) = expansion.finish() {
        let ghost model = item@;
        items.push(item);
        assert(expand::work_models(items@) =~= emitted.push(model));
    }
    items
}

/// What was handed on before does not bear on what an entry adds.
proof fn lemma_after_step(
    visited: Option<Set<Seq<u8>>>,
    emitted: Seq<WorkModel>,
    files: Seq<EntryModel>,
    step: StepModel,
)
    ensures
        ({
            let bare = after_step(
                ExpansionModel { visited, emitted: Seq::empty(), files },
                step,
            );
            after_step(ExpansionModel { visited, emitted, files }, step) == (ExpansionModel {
                emitted: emitted + bare.emitted,
                ..bare
            })
        }),
{
    let bare = after_step(ExpansionModel { visited, emitted: Seq::empty(), files }, step);
    let whole = after_step(ExpansionModel { visited, emitted, files }, step);
    assert(whole.emitted =~= emitted + bare.emitted);
}

proof fn lemma_looked_up_needs_nothing(
    directory: DirectoryModel,
    visited: Option<Set<Seq<u8>>>,
    entry: ListedEntry,
)
    requires
        looked_up(directory.follow_links, entry.facts),
        visited is Some ==> directory.follow_links,
    ensures
        !(entry_step(directory, visited, entry) is NeedTarget),
        !(entry_step(directory, visited, entry) is NeedIdentity),
        visited_after_entry(directory, visited, entry) is Some ==> visited is Some,
{
}

/// The files in pieces of work, in order.
pub open spec fn files_of(items: Seq<WorkModel>) -> Seq<EntryModel>
    decreases items.len(),
{
    if items.len() == 0 {
        Seq::empty()
    } else {
        let before = files_of(items.drop_last());
        match items.last() {
            WorkModel::Files(files) => before + files,
            _ => before,
        }
    }
}

/// The files that entries come to, in order.
pub open spec fn found_files(
    directory: DirectoryModel,
    state: ExpansionModel,
    entries: Seq<Result<ListedEntry, String>>,
) -> Seq<EntryModel>
    decreases entries.len(),
{
    if entries.len() == 0 {
        Seq::empty()
    } else {
        let before = entries.drop_last();
        let found = found_files(directory, state, before);
        match entries.last() {
            Ok(listed) => match entry_step(
                directory,
                after_entries(directory, state, before).visited,
                listed,
            ) {
                StepModel::File(file) => found.push(file),
                _ => found,
            },
            Err(_) => found,
        }
    }
}

/// Batching loses no file and keeps their order: behind the failures to read ignore files, what is handed
/// on holds exactly the files that the entries come to, one after the other. Every batch holds
/// `FILE_BATCH_SIZE` files, but for one that is the last item, which may hold fewer.
pub proof fn batches_hold_every_file_in_order(
    directory: DirectoryModel,
    visited: Option<Set<Seq<u8>>>,
    errors: Seq<ErrorModel>,
    entries: Seq<Result<ListedEntry, String>>,
)
    ensures
        ({
            let first = ExpansionModel {
                visited,
                emitted: error_items(errors),
                files: Seq::empty(),
            };
            let items = all_emitted(after_entries(directory, first, entries));
            &&& files_of(items) == found_files(directory, first, entries)
            &&& forall|i: int|
                0 <= i < items.len() ==> (#[trigger] items[i] matches WorkModel::Files(files) ==> {
                    &&& 1 <= files.len() <= FILE_BATCH_SIZE
                    &&& i + 1 < items.len() ==> files.len() == FILE_BATCH_SIZE
                })
        }),
{
    let first = ExpansionModel { visited, emitted: error_items(errors), files: Seq::empty() };
    lemma_errors_hold_no_files(errors);
    lemma_batches(directory, first, entries);
    let state = after_entries(directory, first, entries);
    if state.files.len() > 0 {
        let items = all_emitted(state);
        assert(items.drop_last() =~= state.emitted);
    } else {
        assert(files_of(state.emitted) + state.files =~= files_of(state.emitted));
    }
}

proof fn lemma_errors_hold_no_files(errors: Seq<ErrorModel>)
    ensures
        files_of(error_items(errors)) == Seq::<EntryModel>::empty(),
    decreases errors.len(),
{
    if errors.len() > 0 {
        lemma_errors_hold_no_files(errors.drop_last());
        assert(error_items(errors).drop_last() =~= error_items(errors.drop_last()));
    }
}

/// Whether all batches among items are full.
spec fn batches_are_full(items: Seq<WorkModel>) -> bool {
    forall|i: int|
        0 <= i < items.len() ==> (#[trigger] items[i] matches WorkModel::Files(files)
            ==> files.len() == FILE_BATCH_SIZE)
}

proof fn lemma_batches(
    directory: DirectoryModel,
    first: ExpansionModel,
    entries: Seq<Result<ListedEntry, String>>,
)
    requires
        files_of(first.emitted) == Seq::<EntryModel>::empty(),
        batches_are_full(first.emitted),
        first.files.len() == 0,
    ensures
        ({
            let state = after_entries(directory, first, entries);
            &&& files_of(state.emitted) + state.files == found_files(directory, first, entries)
            &&& state.files.len() < FILE_BATCH_SIZE
            &&& batches_are_full(state.emitted)
        }),
    decreases entries.len(),
{
    let state = after_entries(directory, first, entries);
    if entries.len() == 0 {
        assert(files_of(state.emitted) + state.files =~= Seq::<EntryModel>::empty());
    } else {
        let before = after_entries(directory, first, entries.drop_last());
        lemma_batches(directory, first, entries.drop_last());
        if state.emitted != before.emitted {
            assert(state.emitted.drop_last() =~= before.emitted);
            match state.emitted.last() {
                WorkModel::Files(files) => {
                    assert(files_of(state.emitted) + state.files =~= files_of(before.emitted)
                        + before.files.push(files.last()));
                    assert(files =~= before.files.push(files.last()));
                    assert(files_of(before.emitted) + before.files.push(files.last()) =~= (
                    files_of(before.emitted) + before.files).push(files.last()));
                },
                _ => {},
            }
        } else {
            match entries.last() {
                Ok(listed) => match entry_step(directory, before.visited, listed) {
                    StepModel::File(file) => {
                        assert(files_of(before.emitted) + before.files.push(file) =~= (files_of(
                            before.emitted,
                        ) + before.files).push(file));
                    },
                    _ => {},
                },
                Err(_) => {},
            }
        }
    }
}

/// Whether a file is found under the name of one of entries.
pub open spec fn is_found_under(
    directory: DirectoryModel,
    file: EntryModel,
    entry: Result<ListedEntry, String>,
) -> bool {
    entry matches Ok(listed) && {
        &&& file.path == path::shown_join(
            directory.rules.platform,
            directory.display_path,
            listed.name@.raw,
        )
        &&& file.filesystem_path == directory.path.push(PathPart::Normal(listed.name@))
    }
}

/// Every file that is found lies in the directory: its path, and its path as it is shown, are those of
/// the directory with the name of an entry behind them.
pub proof fn found_files_lie_in_the_directory(
    directory: DirectoryModel,
    state: ExpansionModel,
    entries: Seq<Result<ListedEntry, String>>,
)
    ensures
        ({
            let files = found_files(directory, state, entries);
            forall|i: int|
                0 <= i < files.len() ==> exists|j: int|
                    0 <= j < entries.len() && is_found_under(
                        directory,
                        #[trigger] files[i],
                        #[trigger] entries[j],
                    )
        }),
    decreases entries.len(),
{
    let files = found_files(directory, state, entries);
    if entries.len() > 0 {
        let before = entries.drop_last();
        let found = found_files(directory, state, before);
        found_files_lie_in_the_directory(directory, state, before);
        assert forall|i: int| 0 <= i < files.len() implies exists|j: int|
            0 <= j < entries.len() && is_found_under(
                directory,
                #[trigger] files[i],
                #[trigger] entries[j],
            ) by {
            if i < found.len() {
                assert(files[i] == found[i]);
                let j = choose|j: int|
                    0 <= j < before.len() && is_found_under(
                        directory,
                        #[trigger] found[i],
                        #[trigger] before[j],
                    );
                assert(entries[j] == before[j]);
            } else {
                assert(is_found_under(directory, files[i], entries[entries.len() - 1]));
            }
        }
    }
}

/// What was handed on stays as it is: stopping early leaves a beginning of what the whole directory
/// gives.
pub proof fn stopping_early_leaves_a_beginning(
    directory: DirectoryModel,
    state: ExpansionModel,
    entries: Seq<Result<ListedEntry, String>>,
    count: int,
)
    requires
        0 <= count <= entries.len(),
    ensures
        after_entries(directory, state, entries.subrange(0, count)).emitted.is_prefix_of(
            all_emitted(after_entries(directory, state, entries)),
        ),
    decreases entries.len() - count,
{
    if count < entries.len() {
        let next = entries.subrange(0, count + 1);
        assert(next.drop_last() =~= entries.subrange(0, count));
        stopping_early_leaves_a_beginning(directory, state, entries, count + 1);
    } else {
        assert(entries.subrange(0, count) =~= entries);
    }
}

} // verus!
