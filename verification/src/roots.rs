//! The first work of a walk: what its roots are.

use vstd::prelude::*;
use crate::context;
use crate::context::{ErrorModel, LayerRead, WalkError};
use crate::directory;
use crate::directory::errors_as_work;
use crate::expand;
use crate::expand::{
    register_directory, DirectoryTask, EntryModel, EntryType, Registration, TargetFacts,
    TaskModel, WalkEntry, WalkRuntime, WorkItem, WorkModel,
};
use crate::ignore::{ChainModel, RuleChain};
use crate::path;
use crate::queue::{NativeWalk, PullModel};
use crate::path::{copy_path, parent_len, PathComponent, PathPart};
use crate::text::copy_bytes;
use crate::walk;
use crate::walk::{NativeWalker, RootModel, RootSpec};

verus! {

/// What a root is by itself.
#[derive(Clone, Copy, Debug, PartialEq, Eq, Structural)]
pub struct RootFile {
    pub file_type: EntryType,
    pub length: u64,
}

/// What was looked up about a root.
#[derive(Debug)]
pub struct RootFacts {
    pub metadata: Result<RootFile, String>,
    /// What the root leads to, where it is a link that is followed.
    pub target: Option<Result<TargetFacts, String>>,
    /// The root's resolved path, where links are followed.
    pub identity: Option<Result<Vec<u8>, String>>,
    /// What was read for each of the directories above the root's directory, outermost first.
    pub reads: Vec<Vec<LayerRead>>,
}

/// The directory that a root lies in; a root of the file system lies in itself.
pub open spec fn base_of_root(traversal: Seq<PathPart>) -> Seq<PathPart> {
    match path::parent(traversal) {
        Some(above) => above,
        None => traversal,
    }
}

/// The directory whose rules hold for a root: the root itself where it is one.
pub open spec fn directory_of_root(traversal: Seq<PathPart>, is_directory: bool) -> Seq<PathPart> {
    if is_directory {
        traversal
    } else {
        base_of_root(traversal)
    }
}

/// Whether enough was looked up about a root.
pub open spec fn root_looked_up(walker: NativeWalker, root: RootModel, facts: RootFacts) -> bool {
    facts.metadata matches Ok(file) ==> {
        &&& facts.reads@.len() == context::ancestors(
            directory_of_root(root.traversal, file.file_type is Directory),
        ).len()
        &&& walker.options.follow_links ==> facts.identity is Some && (file.file_type is Symlink
            ==> facts.target is Some)
    }
}

/// One file as a piece of work.
pub open spec fn one_file(root: RootModel, length: u64) -> WorkModel {
    WorkModel::Files(
        seq![EntryModel { path: root.display, filesystem_path: root.traversal, length }],
    )
}

/// A failure at a root as a piece of work.
pub open spec fn root_error(root: RootModel, reason: Seq<char>) -> WorkModel {
    WorkModel::Error(ErrorModel { path: Some(root.display), message: reason })
}

/// The work for a root that is a directory; none where the walk has been there.
pub open spec fn directory_work(
    root: RootModel,
    context: ChainModel,
    visited: Option<Set<Seq<u8>>>,
    identity: Option<Result<Seq<u8>, Seq<char>>>,
) -> Seq<WorkModel> {
    match expand::registration(visited, identity) {
        Registration::Failed(reason) => seq![root_error(root, reason)],
        Registration::New => seq![
            WorkModel::Directory(
                TaskModel {
                    path: root.traversal,
                    display_path: root.display,
                    context,
                    root_base: base_of_root(root.traversal),
                },
            ),
        ],
        _ => Seq::empty(),
    }
}

/// Whether a root is a directory that is put on record.
pub open spec fn root_is_registered(follow_links: bool, facts: RootFacts) -> bool {
    match facts.metadata {
        Err(_) => false,
        Ok(file) => match file.file_type {
            EntryType::Directory => true,
            EntryType::Symlink => follow_links && (facts.target matches Some(Ok(target))
                && !target.is_file && target.is_dir),
            _ => false,
        },
    }
}

/// The work for a root, failures to read ignore files apart. A root that is a file is found whatever
/// the patterns and rules say; one that is a link is left out unless links are followed.
pub open spec fn own_work(
    follow_links: bool,
    root: RootModel,
    file: RootFile,
    context: ChainModel,
    visited: Option<Set<Seq<u8>>>,
    facts: RootFacts,
) -> Seq<WorkModel> {
    let identity = expand::identity_model(facts.identity);
    match file.file_type {
        EntryType::Symlink => if !follow_links {
            Seq::empty()
        } else {
            match facts.target {
                None => Seq::empty(),
                Some(Err(reason)) => seq![root_error(root, reason@)],
                Some(Ok(target)) => if target.is_file {
                    seq![one_file(root, target.length)]
                } else if target.is_dir {
                    directory_work(root, context, visited, identity)
                } else {
                    Seq::empty()
                },
            }
        },
        EntryType::File => seq![one_file(root, file.length)],
        EntryType::Directory => directory_work(root, context, visited, identity),
        EntryType::Other => Seq::empty(),
    }
}

/// The work for a root.
pub open spec fn root_work(
    walker: NativeWalker,
    root: RootModel,
    visited: Option<Set<Seq<u8>>>,
    facts: RootFacts,
) -> Seq<WorkModel> {
    match facts.metadata {
        Err(reason) => seq![root_error(root, reason@)],
        Ok(file) => {
            let base = directory_of_root(root.traversal, file.file_type is Directory);
            let reads = context::all_read_models(facts.reads@);
            directory::error_items(context::root_chain_errors(walker, base, reads)) + own_work(
                walker.options.follow_links,
                root,
                file,
                context::root_chain(walker, base, reads),
                visited,
                facts,
            )
        },
    }
}

/// The directories on record once a root was taken up.
pub open spec fn visited_after_root(
    follow_links: bool,
    visited: Option<Set<Seq<u8>>>,
    facts: RootFacts,
) -> Option<Set<Seq<u8>>> {
    if root_is_registered(follow_links, facts) {
        expand::visited_after(visited, expand::identity_model(facts.identity))
    } else {
        visited
    }
}

/// The directories on record once the first `count` roots were taken up.
pub open spec fn visited_after_roots(
    follow_links: bool,
    visited: Option<Set<Seq<u8>>>,
    facts: Seq<RootFacts>,
    count: int,
) -> Option<Set<Seq<u8>>>
    decreases count,
{
    if count <= 0 {
        visited
    } else {
        visited_after_root(
            follow_links,
            visited_after_roots(follow_links, visited, facts, count - 1),
            facts[count - 1],
        )
    }
}

/// The work for the first `count` roots, in order.
pub open spec fn work_of_roots(
    walker: NativeWalker,
    roots: Seq<RootModel>,
    visited: Option<Set<Seq<u8>>>,
    facts: Seq<RootFacts>,
    count: int,
) -> Seq<WorkModel>
    decreases count,
{
    if count <= 0 {
        Seq::empty()
    } else {
        work_of_roots(walker, roots, visited, facts, count - 1) + root_work(
            walker,
            roots[count - 1],
            visited_after_roots(walker.options.follow_links, visited, facts, count - 1),
            facts[count - 1],
        )
    }
}

/// The directory that a root lies in.
pub fn root_base(traversal: &[PathComponent]) -> (result: Vec<PathComponent>)
    ensures
        path::parts(result@) == base_of_root(path::parts(traversal@)),
{
    match parent_len(traversal) {
        Some(length) => copy_path(&traversal[0..length]),
        None => copy_path(traversal),
    }
}

/// The directory whose rules hold for a root.
pub fn root_directory(traversal: &[PathComponent], is_directory: bool) -> (result: Vec<
    PathComponent,
>)
    ensures
        path::parts(result@) == directory_of_root(path::parts(traversal@), is_directory),
{
    if is_directory {
        copy_path(traversal)
    } else {
        root_base(traversal)
    }
}

impl NativeWalker {
    /// The work that the roots make, given what was looked up about each.
    pub fn initial_work(&self, runtime: &mut WalkRuntime, facts: &[RootFacts]) -> (result: Vec<
        WorkItem,
    >)
        requires
            self.wf(),
            facts.len() == self.roots.len(),
            old(runtime).visited() is Some == self.options.follow_links,
            forall|i: int|
                0 <= i < facts.len() ==> root_looked_up(
                    *self,
                    self.roots[i]@,
                    #[trigger] facts[i],
                ),
        ensures
            expand::work_wf(result@),
            expand::work_models(result@) == work_of_roots(
                *self,
                walk::root_models(self.roots@),
                old(runtime).visited(),
                facts@,
                facts@.len() as int,
            ),
            final(runtime).visited() == visited_after_roots(
                self.options.follow_links,
                old(runtime).visited(),
                facts@,
                facts@.len() as int,
            ),
    {
        let ghost first = runtime.visited();
        let ghost roots = walk::root_models(self.roots@);
        let mut work: Vec<WorkItem> = Vec::new();
        assert(expand::work_models(work@) =~= Seq::<WorkModel>::empty());
        let mut index: usize = 0;
        while index < facts.len()
            invariant
                index <= facts.len() == self.roots.len(),
                self.wf(),
                roots == walk::root_models(self.roots@),
                runtime.visited() is Some == self.options.follow_links,
                forall|i: int|
                    0 <= i < facts.len() ==> root_looked_up(
                        *self,
                        self.roots[i]@,
                        #[trigger] facts[i],
                    ),
                expand::work_wf(work@),
                expand::work_models(work@) == work_of_roots(
                    *self,
                    roots,
                    first,
                    facts@,
                    index as int,
                ),
                runtime.visited() == visited_after_roots(
                    self.options.follow_links,
                    first,
                    facts@,
                    index as int,
                ),
            decreases facts.len() - index,
        {
            let ghost before = expand::work_models(work@);
            assert(roots[index as int] == self.roots[index as int]@);
            let mut added: Vec<WorkItem> = self.work_of_root(
                &self.roots[index],
                runtime,
                &facts[index],
            );
            let ghost more = expand::work_models(added@);
            work.append(&mut added);
            assert(expand::work_models(work@) =~= before + more);
            index += 1;
        }
        work
    }

    /// A walk over the roots that is pulled entry by entry, given what was looked up about each.
    pub fn build(&self, runtime: &mut WalkRuntime, facts: &[RootFacts]) -> (result: NativeWalk)
        requires
            self.wf(),
            facts.len() == self.roots.len(),
            old(runtime).visited() is Some == self.options.follow_links,
            forall|i: int|
                0 <= i < facts.len() ==> root_looked_up(
                    *self,
                    self.roots[i]@,
                    #[trigger] facts[i],
                ),
        ensures
            result.wf(),
            result@ == (PullModel {
                pending: work_of_roots(
                    *self,
                    walk::root_models(self.roots@),
                    old(runtime).visited(),
                    facts@,
                    facts@.len() as int,
                ),
                batch: Seq::empty(),
            }),
            final(runtime).visited() == visited_after_roots(
                self.options.follow_links,
                old(runtime).visited(),
                facts@,
                facts@.len() as int,
            ),
    {
        NativeWalk::new(self.initial_work(runtime, facts))
    }

    fn work_of_root(&self, root: &RootSpec, runtime: &mut WalkRuntime, facts: &RootFacts) -> (result:
        Vec<WorkItem>)
        requires
            self.wf(),
            old(runtime).visited() is Some == self.options.follow_links,
            root_looked_up(*self, root@, *facts),
        ensures
            expand::work_wf(result@),
            expand::work_models(result@) == root_work(
                *self,
                root@,
                old(runtime).visited(),
                *facts,
            ),
            final(runtime).visited() == visited_after_root(
                self.options.follow_links,
                old(runtime).visited(),
                *facts,
            ),
    {
        let file: RootFile = match &facts.metadata {
            Ok(file) => *file,
            Err(reason) => {
                let mut work: Vec<WorkItem> = Vec::new();
                work.push(
                    WorkItem::Error(
                        WalkError::io(root.display_path.as_slice(), reason.as_str()),
                    ),
                );
                assert(expand::work_models(work@) =~= seq![root_error(root@, reason@)]);
                return work;
            },
        };
        let is_directory: bool = matches!(file.file_type, EntryType::Directory);
        let root_dir: Vec<PathComponent> = root_directory(
            root.traversal_path.as_slice(),
            is_directory,
        );
        let (context, errors) = self.initial_context(root_dir.as_slice(), facts.reads.as_slice());
        let ghost chain = context@;
        let ghost visited = runtime.visited();
        let mut work: Vec<WorkItem> = errors_as_work(errors);
        let ghost before = expand::work_models(work@);
        let ghost own = own_work(
            self.options.follow_links,
            root@,
            file,
            chain,
            visited,
            *facts,
        );
        let item: Option<WorkItem> = match file.file_type {
            EntryType::Symlink => {
                if !self.options.follow_links {
                    None
                } else {
                    match &facts.target {
                        None => None,
                        Some(Err(reason)) => Some(
                            WorkItem::Error(
                                WalkError::io(root.display_path.as_slice(), reason.as_str()),
                            ),
                        ),
                        Some(Ok(target)) => if target.is_file {
                            Some(root_file(root, target.length))
                        } else if target.is_dir {
                            root_directory_work(root, context, runtime, &facts.identity)
                        } else {
                            None
                        },
                    }
                }
            },
            EntryType::File => Some(root_file(root, file.length)),
            EntryType::Directory => root_directory_work(root, context, runtime, &facts.identity),
            EntryType::Other => None,
        };
        match item {
            Some(item) => {
                let ghost model = item@;
                assert(own =~= seq![model]);
                work.push(item);
                assert(expand::work_models(work@) =~= before + seq![model]);
            },
            None => {
                assert(own =~= Seq::<WorkModel>::empty());
                assert(before + Seq::<WorkModel>::empty() =~= before);
            },
        }
        work
    }
}

fn root_file(root: &RootSpec, length: u64) -> (result: WorkItem)
    ensures
        result.wf(),
        result@ == one_file(root@, length),
{
    let mut files: Vec<WalkEntry> = Vec::new();
    files.push(
        WalkEntry::new(
            copy_bytes(root.display_path.as_slice()),
            copy_path(root.traversal_path.as_slice()),
            length,
        ),
    );
    let ghost entry = EntryModel {
        path: root@.display,
        filesystem_path: root@.traversal,
        length,
    };
    assert(expand::entry_models(files@) =~= seq![entry]);
    WorkItem::Files(files)
}

fn root_directory_work(
    root: &RootSpec,
    context: RuleChain,
    runtime: &mut WalkRuntime,
    identity: &Option<Result<Vec<u8>, String>>,
) -> (result: Option<WorkItem>)
    requires
        context.wf(),
        old(runtime).visited() is Some ==> *identity is Some,
    ensures
        match result {
            Some(item) => item.wf() && directory_work(
                root@,
                context@,
                old(runtime).visited(),
                expand::identity_model(*identity),
            ) == seq![item@],
            None => directory_work(
                root@,
                context@,
                old(runtime).visited(),
                expand::identity_model(*identity),
            ).len() == 0,
        },
        final(runtime).visited() == expand::visited_after(
            old(runtime).visited(),
            expand::identity_model(*identity),
        ),
{
    match register_directory(runtime, identity, root.display_path.as_slice()) {
        None => None,
        Some(Err(error)) => Some(WorkItem::Error(error)),
        Some(Ok(false)) => None,
        Some(Ok(true)) => {
            let task: DirectoryTask = DirectoryTask {
                path: copy_path(root.traversal_path.as_slice()),
                display_path: copy_bytes(root.display_path.as_slice()),
                context,
                root_base: root_base(root.traversal_path.as_slice()),
            };
            Some(WorkItem::Directory(task))
        },
    }
}

/// A root that is a file by itself is found as it was written, whatever the patterns, hidden names
/// and ignore rules say.
pub proof fn file_root_is_always_found(
    walker: NativeWalker,
    root: RootModel,
    visited: Option<Set<Seq<u8>>>,
    facts: RootFacts,
    length: u64,
)
    requires
        facts.metadata == Ok::<RootFile, String>(RootFile { file_type: EntryType::File, length }),
    ensures
        root_work(walker, root, visited, facts).len() > 0,
        root_work(walker, root, visited, facts).last() == one_file(root, length),
{
}

} // verus!
