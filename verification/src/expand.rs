//! What a walk makes of the entries of directories and of its roots.

use vstd::prelude::*;
use crate::context;
use crate::context::{ErrorModel, WalkError};
use crate::identity_set::IdentitySet;
use crate::ignore::{ChainModel, RuleChain};
use crate::path;
use crate::path::{copy_path, PathComponent, PathPart};
use crate::platform::Platform;
use crate::text;
use crate::text::{copy_bytes, lower_case_text};
use crate::walk;
use crate::walk::NativeWalker;

verus! {

/// A file that a walk finds.
#[derive(Debug)]
pub struct WalkEntry {
    /// The path as it is shown.
    pub path: Vec<u8>,
    /// The absolute path.
    pub filesystem_path: Vec<PathComponent>,
    /// The file's length where it is known, and 0 otherwise.
    pub length: u64,
}

/// What a file that a walk finds is.
pub struct EntryModel {
    pub path: Seq<u8>,
    pub filesystem_path: Seq<PathPart>,
    pub length: u64,
}

impl View for WalkEntry {
    type V = EntryModel;

    open spec fn view(&self) -> EntryModel {
        EntryModel {
            path: self.path@,
            filesystem_path: path::parts(self.filesystem_path@),
            length: self.length,
        }
    }
}

impl WalkEntry {
    pub fn new(path: Vec<u8>, filesystem_path: Vec<PathComponent>, length: u64) -> (result: Self)
        ensures
            result@ == (EntryModel {
                path: path@,
                filesystem_path: path::parts(filesystem_path@),
                length,
            }),
    {
        WalkEntry { path, filesystem_path, length }
    }

    /// The path as it is shown.
    pub fn path(&self) -> (result: &[u8])
        ensures
            result@ == self@.path,
    {
        self.path.as_slice()
    }

    /// The absolute path.
    pub fn filesystem_path(&self) -> (result: &[PathComponent])
        ensures
            path::parts(result@) == self@.filesystem_path,
    {
        self.filesystem_path.as_slice()
    }

    pub fn len(&self) -> (result: u64)
        ensures
            result == self@.length,
    {
        self.length
    }
}

/// A directory that a walk is to go into.
#[derive(Debug)]
pub struct DirectoryTask {
    pub path: Vec<PathComponent>,
    pub display_path: Vec<u8>,
    /// The rules from outside; those of the directory itself come with its entries.
    pub context: RuleChain,
    pub root_base: Vec<PathComponent>,
}

/// What a directory that a walk is to go into is.
pub struct TaskModel {
    pub path: Seq<PathPart>,
    pub display_path: Seq<u8>,
    pub context: ChainModel,
    pub root_base: Seq<PathPart>,
}

impl View for DirectoryTask {
    type V = TaskModel;

    open spec fn view(&self) -> TaskModel {
        TaskModel {
            path: path::parts(self.path@),
            display_path: self.display_path@,
            context: self.context@,
            root_base: path::parts(self.root_base@),
        }
    }
}

impl DirectoryTask {
    pub open spec fn wf(self) -> bool {
        self.context.wf()
    }
}

/// A piece of the work of a walk.
#[derive(Debug)]
pub enum WorkItem {
    Directory(DirectoryTask),
    Files(Vec<WalkEntry>),
    Error(WalkError),
}

/// What a piece of work is.
pub enum WorkModel {
    Directory(TaskModel),
    Files(Seq<EntryModel>),
    Error(ErrorModel),
}

/// What files are.
pub open spec fn entry_models(entries: Seq<WalkEntry>) -> Seq<EntryModel> {
    Seq::new(entries.len(), |i: int| entries[i]@)
}

impl View for WorkItem {
    type V = WorkModel;

    open spec fn view(&self) -> WorkModel {
        match self {
            WorkItem::Directory(task) => WorkModel::Directory(task@),
            WorkItem::Files(entries) => WorkModel::Files(entry_models(entries@)),
            WorkItem::Error(error) => WorkModel::Error(error@),
        }
    }
}

impl WorkItem {
    pub open spec fn wf(self) -> bool {
        self matches WorkItem::Directory(task) ==> task.wf()
    }
}

/// What pieces of work are.
pub open spec fn work_models(items: Seq<WorkItem>) -> Seq<WorkModel> {
    Seq::new(items.len(), |i: int| items[i]@)
}

pub open spec fn work_wf(items: Seq<WorkItem>) -> bool {
    forall|i: int| 0 <= i < items.len() ==> (#[trigger] items[i]).wf()
}

/// The directories that a walk has been to, where it follows links and so could come back.
pub struct WalkRuntime {
    pub visited_directories: Option<IdentitySet>,
}

impl WalkRuntime {
    pub open spec fn visited(self) -> Option<Set<Seq<u8>>> {
        match self.visited_directories {
            Some(set) => Some(set@),
            None => None,
        }
    }

    pub fn new(follow_links: bool) -> (result: Self)
        ensures
            result.visited() == (if follow_links {
                Some(Set::<Seq<u8>>::empty())
            } else {
                None
            }),
    {
        if follow_links {
            WalkRuntime { visited_directories: Some(IdentitySet::new()) }
        } else {
            WalkRuntime { visited_directories: None }
        }
    }
}

/// The bytes by which a directory is known again: on Windows its resolved path in lower case, and
/// elsewhere its resolved path.
pub open spec fn directory_identity(
    platform: Platform,
    raw: Seq<u8>,
    text: Seq<char>,
) -> Seq<u8> {
    match platform {
        Platform::Windows => vstd::utf8::encode_utf8(text::lower_case(text)),
        Platform::Other => raw,
    }
}

/// The bytes by which a directory is known again, from its resolved path as bytes and as text.
pub fn normalize_directory_identity(raw: Vec<u8>, text: &str, platform: Platform) -> (result: Vec<
    u8,
>)
    ensures
        result@ == directory_identity(platform, raw@, text@),
{
    match platform {
        Platform::Windows => copy_bytes(lower_case_text(text).as_str().as_bytes()),
        Platform::Other => raw,
    }
}

/// What came of resolving a directory's path.
pub open spec fn identity_model(identity: Option<Result<Vec<u8>, String>>) -> Option<
    Result<Seq<u8>, Seq<char>>,
> {
    match identity {
        None => None,
        Some(Ok(bytes)) => Some(Ok(bytes@)),
        Some(Err(reason)) => Some(Err(reason@)),
    }
}

/// What registering a directory comes to.
pub enum Registration {
    /// The directory's resolved path is needed first.
    NeedIdentity,
    New,
    Known,
    Failed(Seq<char>),
}

/// Whether a directory is new to a walk; every one is to a walk that keeps no record.
pub open spec fn registration(
    visited: Option<Set<Seq<u8>>>,
    identity: Option<Result<Seq<u8>, Seq<char>>>,
) -> Registration {
    match visited {
        None => Registration::New,
        Some(known) => match identity {
            None => Registration::NeedIdentity,
            Some(Err(reason)) => Registration::Failed(reason),
            Some(Ok(bytes)) => if known.contains(bytes) {
                Registration::Known
            } else {
                Registration::New
            },
        },
    }
}

/// The record after a directory was registered.
pub open spec fn visited_after(
    visited: Option<Set<Seq<u8>>>,
    identity: Option<Result<Seq<u8>, Seq<char>>>,
) -> Option<Set<Seq<u8>>> {
    match (visited, identity) {
        (Some(known), Some(Ok(bytes))) => Some(known.insert(bytes)),
        _ => visited,
    }
}

/// Records a directory and says whether it is new. `None` asks for its resolved path first.
pub fn register_directory(
    runtime: &mut WalkRuntime,
    identity: &Option<Result<Vec<u8>, String>>,
    display_path: &[u8],
) -> (result: Option<Result<bool, WalkError>>)
    ensures
        final(runtime).visited() == visited_after(
            old(runtime).visited(),
            identity_model(*identity),
        ),
        match registration(old(runtime).visited(), identity_model(*identity)) {
            Registration::NeedIdentity => result is None,
            Registration::New => result == Some(Ok::<bool, WalkError>(true)),
            Registration::Known => result == Some(Ok::<bool, WalkError>(false)),
            Registration::Failed(reason) => result matches Some(Err(error)) && error@ == (
            ErrorModel { path: Some(display_path@), message: reason }),
        },
{
    let mut set: IdentitySet = match runtime.visited_directories.take() {
        Some(set) => set,
        None => {
            return Some(Ok(true));
        },
    };
    let result: Option<Result<bool, WalkError>> = match identity {
        None => None,
        Some(Err(reason)) => Some(Err(WalkError::io(display_path, reason.as_str()))),
        Some(Ok(bytes)) => {
            let added: bool = set.insert(copy_bytes(bytes.as_slice()));
            Some(Ok(added))
        },
    };
    runtime.visited_directories = Some(set);
    result
}

/// What a directory entry is by its own type.
#[derive(Clone, Copy, Debug, PartialEq, Eq, Structural)]
pub enum EntryType {
    Symlink,
    File,
    Directory,
    Other,
}

/// What a link leads to.
#[derive(Clone, Copy, Debug, PartialEq, Eq, Structural)]
pub struct TargetFacts {
    pub is_file: bool,
    pub is_dir: bool,
    pub length: u64,
}

/// What is known of a directory entry. What a link leads to and a directory's resolved path are
/// looked up when they are asked for.
#[derive(Debug)]
pub struct EntryFacts {
    pub file_type: Result<EntryType, String>,
    pub target: Option<Result<TargetFacts, String>>,
    pub identity: Option<Result<Vec<u8>, String>>,
}

/// What a directory entry comes to.
#[derive(Debug)]
pub enum ClassifiedEntry {
    Skip,
    File(WalkEntry),
    Directory(DirectoryTask),
    Error(WalkError),
}

/// The next step for a directory entry.
#[derive(Debug)]
pub enum ClassifyStep {
    Classified(ClassifiedEntry),
    NeedTarget,
    NeedIdentity,
}

/// The next step for a directory entry.
pub enum StepModel {
    Skip,
    File(EntryModel),
    Directory(TaskModel),
    Error(ErrorModel),
    NeedTarget,
    NeedIdentity,
}

impl View for ClassifyStep {
    type V = StepModel;

    open spec fn view(&self) -> StepModel {
        match self {
            ClassifyStep::Classified(ClassifiedEntry::Skip) => StepModel::Skip,
            ClassifyStep::Classified(ClassifiedEntry::File(entry)) => StepModel::File(entry@),
            ClassifyStep::Classified(ClassifiedEntry::Directory(task)) => StepModel::Directory(
                task@,
            ),
            ClassifyStep::Classified(ClassifiedEntry::Error(error)) => StepModel::Error(error@),
            ClassifyStep::NeedTarget => StepModel::NeedTarget,
            ClassifyStep::NeedIdentity => StepModel::NeedIdentity,
        }
    }
}

impl ClassifyStep {
    pub open spec fn wf(self) -> bool {
        self matches ClassifyStep::Classified(ClassifiedEntry::Directory(task)) ==> task.wf()
    }
}

/// Where an entry lies.
pub struct EntryPlace {
    pub context: ChainModel,
    pub root_base: Seq<PathPart>,
    pub path: Seq<PathPart>,
    pub display_path: Seq<u8>,
}

/// The step for a file of the given length.
pub open spec fn file_step(rules: walk::WalkRules, place: EntryPlace, length: u64) -> StepModel {
    if walk::emits_file(rules, place.context, place.root_base, place.path) {
        StepModel::File(
            EntryModel {
                path: place.display_path,
                filesystem_path: place.path,
                length,
            },
        )
    } else {
        StepModel::Skip
    }
}

/// The step for a directory, if it is one.
pub open spec fn directory_step(
    rules: walk::WalkRules,
    visited: Option<Set<Seq<u8>>>,
    place: EntryPlace,
    is_directory: bool,
    identity: Option<Result<Seq<u8>, Seq<char>>>,
) -> StepModel {
    if !is_directory || !walk::descends(rules, place.context, place.root_base, place.path) {
        StepModel::Skip
    } else {
        match registration(visited, identity) {
            Registration::NeedIdentity => StepModel::NeedIdentity,
            Registration::Known => StepModel::Skip,
            Registration::Failed(reason) => StepModel::Error(
                ErrorModel { path: Some(place.display_path), message: reason },
            ),
            Registration::New => StepModel::Directory(
                TaskModel {
                    path: place.path,
                    display_path: place.display_path,
                    context: place.context,
                    root_base: place.root_base,
                },
            ),
        }
    }
}

/// Whether an entry is a directory that is gone into, so that it is put on record.
pub open spec fn is_registered(
    rules: walk::WalkRules,
    follow_links: bool,
    place: EntryPlace,
    facts: EntryFacts,
) -> bool {
    &&& walk::descends(rules, place.context, place.root_base, place.path)
    &&& match facts.file_type {
        Ok(EntryType::Directory) => true,
        Ok(EntryType::Symlink) => follow_links && (facts.target matches Some(Ok(target))
            && !target.is_file && target.is_dir),
        _ => false,
    }
}

/// What an entry comes to: a link is skipped unless links are followed, and then goes by what it
/// leads to. The length of a file is looked up only for one behind a link.
pub open spec fn classified(
    rules: walk::WalkRules,
    follow_links: bool,
    visited: Option<Set<Seq<u8>>>,
    place: EntryPlace,
    facts: EntryFacts,
) -> StepModel {
    match facts.file_type {
        Err(reason) => StepModel::Error(
            ErrorModel { path: Some(place.display_path), message: reason@ },
        ),
        Ok(EntryType::Symlink) => if !follow_links {
            StepModel::Skip
        } else {
            match facts.target {
                None => StepModel::NeedTarget,
                Some(Err(reason)) => StepModel::Error(
                    ErrorModel { path: Some(place.display_path), message: reason@ },
                ),
                Some(Ok(target)) => if target.is_file {
                    file_step(rules, place, target.length)
                } else {
                    directory_step(
                        rules,
                        visited,
                        place,
                        target.is_dir,
                        identity_model(facts.identity),
                    )
                },
            }
        },
        Ok(EntryType::File) => file_step(rules, place, 0),
        Ok(other) => directory_step(
            rules,
            visited,
            place,
            other is Directory,
            identity_model(facts.identity),
        ),
    }
}

impl NativeWalker {
    /// What an entry comes to, or what is to be looked up first.
    pub fn classify_entry(
        &self,
        runtime: &mut WalkRuntime,
        context: &RuleChain,
        root_base: &[PathComponent],
        facts: &EntryFacts,
        path: &[PathComponent],
        display_path: &[u8],
    ) -> (result: ClassifyStep)
        requires
            self.wf(),
            context.wf(),
        ensures
            result.wf(),
            ({
                let place = EntryPlace {
                    context: context@,
                    root_base: path::parts(root_base@),
                    path: path::parts(path@),
                    display_path: display_path@,
                };
                &&& result@ == classified(
                    self.rules(),
                    self.options.follow_links,
                    old(runtime).visited(),
                    place,
                    *facts,
                )
                &&& final(runtime).visited() == if is_registered(
                    self.rules(),
                    self.options.follow_links,
                    place,
                    *facts,
                ) {
                    visited_after(old(runtime).visited(), identity_model(facts.identity))
                } else {
                    old(runtime).visited()
                }
            }),
    {
        match &facts.file_type {
            Err(reason) => ClassifyStep::Classified(
                ClassifiedEntry::Error(WalkError::io(display_path, reason.as_str())),
            ),
            Ok(EntryType::Symlink) => {
                if !self.options.follow_links {
                    return ClassifyStep::Classified(ClassifiedEntry::Skip);
                }
                match &facts.target {
                    None => ClassifyStep::NeedTarget,
                    Some(Err(reason)) => ClassifyStep::Classified(
                        ClassifiedEntry::Error(WalkError::io(display_path, reason.as_str())),
                    ),
                    Some(Ok(target)) => {
                        if target.is_file {
                            self.classify_file(context, root_base, path, display_path, target.length)
                        } else {
                            self.classify_directory(
                                runtime,
                                context,
                                root_base,
                                path,
                                display_path,
                                target.is_dir,
                                &facts.identity,
                            )
                        }
                    },
                }
            },
            Ok(EntryType::File) => self.classify_file(context, root_base, path, display_path, 0),
            Ok(other) => {
                let is_directory: bool = matches!(other, EntryType::Directory);
                self.classify_directory(
                    runtime,
                    context,
                    root_base,
                    path,
                    display_path,
                    is_directory,
                    &facts.identity,
                )
            },
        }
    }

    fn classify_file(
        &self,
        context: &RuleChain,
        root_base: &[PathComponent],
        path: &[PathComponent],
        display_path: &[u8],
        length: u64,
    ) -> (result: ClassifyStep)
        requires
            self.wf(),
            context.wf(),
        ensures
            result.wf(),
            result@ == file_step(
                self.rules(),
                EntryPlace {
                    context: context@,
                    root_base: path::parts(root_base@),
                    path: path::parts(path@),
                    display_path: display_path@,
                },
                length,
            ),
    {
        if self.should_emit_file(context, root_base, path) {
            ClassifyStep::Classified(
                ClassifiedEntry::File(
                    WalkEntry::new(copy_bytes(display_path), copy_path(path), length),
                ),
            )
        } else {
            ClassifyStep::Classified(ClassifiedEntry::Skip)
        }
    }

    /// What a directory comes to: it is gone into where the rules let it and it is new.
    pub fn classify_directory(
        &self,
        runtime: &mut WalkRuntime,
        context: &RuleChain,
        root_base: &[PathComponent],
        path: &[PathComponent],
        display_path: &[u8],
        is_directory: bool,
        identity: &Option<Result<Vec<u8>, String>>,
    ) -> (result: ClassifyStep)
        requires
            self.wf(),
            context.wf(),
        ensures
            result.wf(),
            ({
                let place = EntryPlace {
                    context: context@,
                    root_base: path::parts(root_base@),
                    path: path::parts(path@),
                    display_path: display_path@,
                };
                let goes_in = is_directory && walk::descends(
                    self.rules(),
                    place.context,
                    place.root_base,
                    place.path,
                );
                &&& result@ == directory_step(
                    self.rules(),
                    old(runtime).visited(),
                    place,
                    is_directory,
                    identity_model(*identity),
                )
                &&& final(runtime).visited() == if goes_in {
                    visited_after(old(runtime).visited(), identity_model(*identity))
                } else {
                    old(runtime).visited()
                }
            }),
    {
        if !is_directory || !self.should_descend(context, root_base, path) {
            return ClassifyStep::Classified(ClassifiedEntry::Skip);
        }
        match register_directory(runtime, identity, display_path) {
            None => ClassifyStep::NeedIdentity,
            Some(Err(error)) => ClassifyStep::Classified(ClassifiedEntry::Error(error)),
            Some(Ok(false)) => ClassifyStep::Classified(ClassifiedEntry::Skip),
            Some(Ok(true)) => ClassifyStep::Classified(
                ClassifiedEntry::Directory(
                    DirectoryTask {
                        path: copy_path(path),
                        display_path: copy_bytes(display_path),
                        context: context.clone(),
                        root_base: copy_path(root_base),
                    },
                ),
            ),
        }
    }
}

/// A walk that follows links goes into no directory twice: once a directory was registered, it is
/// not new again.
pub proof fn no_directory_is_entered_twice(
    visited: Option<Set<Seq<u8>>>,
    identity: Option<Result<Seq<u8>, Seq<char>>>,
)
    requires
        visited is Some,
        registration(visited, identity) is New,
    ensures
        registration(visited_after(visited, identity), identity) is Known,
{
}

} // verus!
