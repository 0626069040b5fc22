//! What becomes of the entries of a directory and of the roots of a walk: links, paths, and the directories
//! that are gone into.

use vstd::prelude::*;
use vstd::utf8::encode_utf8;
use crate::context;
use crate::context::ReadModel;
use crate::directory;
use crate::directory::{DirectoryModel, ExpansionModel, ListedEntry};
use crate::expand;
use crate::expand::{EntryFacts, EntryModel, EntryPlace, EntryType, StepModel, TaskModel, WorkModel};
use crate::ignore::ChainModel;
use crate::path;
use crate::path::PathPart;
use crate::platform::Platform;
use crate::roots;
use crate::roots::RootFacts;
use crate::walk;
use crate::walk::{NativeWalker, RootModel, WalkRules, WrittenModel};
use crate::walk_laws;

verus! {

/// A regular file is found just where the walk finds files of its path, under its own path.
pub proof fn regular_file_is_judged_by_its_path(
    rules: WalkRules,
    follow_links: bool,
    visited: Option<Set<Seq<u8>>>,
    place: EntryPlace,
    facts: EntryFacts,
)
    requires
        facts.file_type == Ok::<EntryType, String>(EntryType::File),
    ensures
        expand::classified(rules, follow_links, visited, place, facts) == if walk::emits_file(
            rules,
            place.context,
            place.root_base,
            place.path,
        ) {
            StepModel::File(
                EntryModel { path: place.display_path, filesystem_path: place.path, length: 0 },
            )
        } else {
            StepModel::Skip
        },
{
}

/// A link is passed over unless links are followed. One that is followed is found like a file where it
/// leads to one, and gone into like a directory where it leads to one; one that leads to neither is passed
/// over.
pub proof fn links_count_only_where_followed(
    rules: WalkRules,
    visited: Option<Set<Seq<u8>>>,
    place: EntryPlace,
    facts: EntryFacts,
)
    requires
        facts.file_type == Ok::<EntryType, String>(EntryType::Symlink),
    ensures
        expand::classified(rules, false, visited, place, facts) == StepModel::Skip,
        facts.target matches Some(Ok(target)) ==> ({
            let step = expand::classified(rules, true, visited, place, facts);
            if target.is_file {
                step == if walk::emits_file(rules, place.context, place.root_base, place.path) {
                    StepModel::File(
                        EntryModel {
                            path: place.display_path,
                            filesystem_path: place.path,
                            length: target.length,
                        },
                    )
                } else {
                    StepModel::Skip
                }
            } else if target.is_dir {
                step == expand::classified(
                    rules,
                    true,
                    visited,
                    place,
                    EntryFacts {
                        file_type: Ok(EntryType::Directory),
                        target: facts.target,
                        identity: facts.identity,
                    },
                )
            } else {
                step == StepModel::Skip
            }
        }),
{
}

/// A directory is gone into just where the walk goes into directories of its path and has not been there;
/// it is then taken up under its own path, with the rules that hold where it lies.
pub proof fn directory_is_judged_by_its_path(
    rules: WalkRules,
    follow_links: bool,
    visited: Option<Set<Seq<u8>>>,
    place: EntryPlace,
    facts: EntryFacts,
)
    requires
        facts.file_type == Ok::<EntryType, String>(EntryType::Directory),
    ensures
        ({
            let step = expand::classified(rules, follow_links, visited, place, facts);
            let descends = walk::descends(rules, place.context, place.root_base, place.path);
            let been_there = visited matches Some(known) && (facts.identity matches Some(Ok(bytes))
                && known.contains(bytes@));
            let task = StepModel::Directory(
                TaskModel {
                    path: place.path,
                    display_path: place.display_path,
                    context: place.context,
                    root_base: place.root_base,
                },
            );
            &&& !descends ==> step == StepModel::Skip
            &&& descends && visited is None ==> step == task
            &&& descends && been_there ==> step == StepModel::Skip
            &&& descends && !been_there && (facts.identity matches Some(Ok(_))) ==> step == task
        }),
{
}

/// What is neither a file, a directory nor a link is passed over.
pub proof fn other_entries_are_passed_over(
    rules: WalkRules,
    follow_links: bool,
    visited: Option<Set<Seq<u8>>>,
    place: EntryPlace,
    facts: EntryFacts,
)
    requires
        facts.file_type == Ok::<EntryType, String>(EntryType::Other),
    ensures
        expand::classified(rules, follow_links, visited, place, facts) == StepModel::Skip,
{
}

/// One more entry of a directory adds its file to those that are found, where it comes to one, and takes
/// none away.
pub proof fn each_entry_adds_its_own_file(
    directory: DirectoryModel,
    state: ExpansionModel,
    entries: Seq<Result<ListedEntry, String>>,
    entry: ListedEntry,
)
    requires
        entry.facts.file_type == Ok::<EntryType, String>(EntryType::File),
    ensures
        ({
            let before = directory::found_files(directory, state, entries);
            let after = directory::found_files(
                directory,
                state,
                entries.push(Ok::<ListedEntry, String>(entry)),
            );
            let name = entry.name@;
            let path = directory.path.push(PathPart::Normal(name));
            let shown = path::shown_join(
                directory.rules.platform,
                directory.display_path,
                name.raw,
            );
            after == if walk::emits_file(
                directory.rules,
                directory.context,
                directory.root_base,
                path,
            ) {
                before.push(EntryModel { path: shown, filesystem_path: path, length: 0 })
            } else {
                before
            }
        }),
{
    let longer = entries.push(Ok::<ListedEntry, String>(entry));
    assert(longer.drop_last() =~= entries);
    assert(longer.last() == Ok::<ListedEntry, String>(entry));
}

/// Inside of a directory hold the rules that hold where it lies, and inside of these those of its own
/// ignore files; where ignore files are left unread, just the former.
pub proof fn rules_inside_a_directory(
    context: ChainModel,
    path: Seq<PathPart>,
    reads: Seq<ReadModel>,
)
    ensures
        directory::inner_chain(true, context, path, reads) == context,
        directory::inner_chain(false, context, path, reads).explicit_root == context.explicit_root,
        directory::inner_chain(false, context, path, reads).layers == context::layers_after(
            context.layers,
            path,
            context::ordered_reads(reads),
        ),
{
}

/// A root that cannot be looked up is reported as it was written. A link as a root is left out unless links
/// are followed. A directory as a root is walked whatever patterns and rules say of it.
pub proof fn roots_are_taken_as_asked(
    walker: NativeWalker,
    root: RootModel,
    visited: Option<Set<Seq<u8>>>,
    facts: RootFacts,
)
    ensures
        ({
            let work = roots::root_work(walker, root, visited, facts);
            match facts.metadata {
                Err(reason) => work.len() == 1 && (work[0] matches WorkModel::Error(error)
                    && error.path == Some(root.display) && error.message == reason@),
                Ok(file) => {
                    let base = roots::directory_of_root(
                        root.traversal,
                        file.file_type is Directory,
                    );
                    let reads = context::all_read_models(facts.reads@);
                    let errors = context::root_chain_errors(walker, base, reads).len();
                    &&& file.file_type is Symlink && !walker.options.follow_links ==> work.len()
                        == errors
                    &&& file.file_type is Other ==> work.len() == errors
                    &&& file.file_type is Directory && visited is None ==> {
                        &&& work.len() == errors + 1
                        &&& work.last() matches WorkModel::Directory(task) && {
                            &&& task.path == root.traversal
                            &&& task.display_path == root.display
                            &&& task.context == context::root_chain(
                                walker,
                                root.traversal,
                                reads,
                            )
                        }
                    }
                },
            }
        }),
{
}

/// The directory that a root lies in is its path without the last name.
pub proof fn root_lies_in_the_directory_above(above: Seq<PathPart>, name: path::NameModel)
    ensures
        roots::base_of_root(above.push(PathPart::Normal(name))) == above,
        roots::directory_of_root(above.push(PathPart::Normal(name)), false) == above,
        roots::directory_of_root(above.push(PathPart::Normal(name)), true) == above.push(
            PathPart::Normal(name),
        ),
{
    assert(above.push(PathPart::Normal(name)).drop_last() =~= above);
}

/// A name is put at the end of a path, `.` changes nothing, and `..` takes the last name off; what leads
/// nowhere above a root stays there.
pub proof fn dots_are_taken_out(path: Seq<PathPart>, name: path::NameModel)
    ensures
        path::normalized(path.push(PathPart::CurDir)) == path::normalized(path),
        path::normalized(path.push(PathPart::Normal(name))) == path::normalized(path).push(
            PathPart::Normal(name),
        ),
        path::normalized(path.push(PathPart::Normal(name)).push(PathPart::ParentDir))
            == path::normalized(path),
        path::normalized(seq![PathPart::RootDir, PathPart::ParentDir]) == seq![PathPart::RootDir],
        path::normalized(seq![PathPart::RootDir]) == seq![PathPart::RootDir],
{
    assert(path.push(PathPart::CurDir).drop_last() =~= path);
    let named = path.push(PathPart::Normal(name));
    assert(named.drop_last() =~= path);
    assert(path::normalized(named) == path::normalized(path).push(PathPart::Normal(name)));
    assert(path::normalized(named).last() == PathPart::Normal(name));
    let back = named.push(PathPart::ParentDir);
    assert(back.drop_last() =~= named);
    assert(back.last() == PathPart::ParentDir);
    assert(path::normalized(path).push(PathPart::Normal(name)).drop_last() =~= path::normalized(
        path,
    ));
    let root = seq![PathPart::RootDir];
    assert(root.drop_last() =~= Seq::<PathPart>::empty());
    assert(path::normalized(Seq::<PathPart>::empty()) =~= Seq::<PathPart>::empty());
    assert(path::normalized(root) =~= root);
    assert(seq![PathPart::RootDir, PathPart::ParentDir].drop_last() =~= root);
}

/// A path with a root of its own stands alone where there are no prefixes, and any other lies below the
/// directory that it is seen from.
pub proof fn relative_paths_lie_below(base: Seq<PathPart>, path: Seq<PathPart>)
    requires
        base.len() == 0 || !(base[0] is Prefix),
        path.len() > 0,
        !(path[0] is Prefix),
    ensures
        path[0] is RootDir ==> path::joined(base, path) == path,
        !(path[0] is RootDir) ==> path::joined(base, path) == base + path,
{
}

/// The roots of a walk are those that are given, each shown as it was written and reached from the current
/// directory; without any, the root is the current directory, shown as a dot.
pub proof fn roots_are_those_given(current_dir: Seq<PathPart>, given: Seq<WrittenModel>, index: int)
    ensures
        given.len() > 0 ==> walk::resolved_roots(current_dir, given).len() == given.len(),
        0 <= index < given.len() ==> ({
            let root = walk::resolved_roots(current_dir, given)[index];
            &&& root.display == given[index].spelling
            &&& root.traversal == path::normalized(path::joined(current_dir, given[index].parts))
        }),
        given.len() == 0 ==> {
            &&& walk::resolved_roots(current_dir, given).len() == 1
            &&& walk::resolved_roots(current_dir, given)[0].display == seq!['.' as u8]
            &&& walk::resolved_roots(current_dir, given)[0].traversal == path::normalized(
                current_dir,
            )
        },
{
    if given.len() == 0 {
        assert(current_dir + seq![PathPart::CurDir] =~= current_dir.push(PathPart::CurDir));
        assert(current_dir.push(PathPart::CurDir).drop_last() =~= current_dir);
    }
}

/// The path of an entry is shown behind that of its directory: with a slash between them, or a backslash
/// on Windows, unless the directory's path ends with one or is empty.
pub proof fn shown_paths_have_one_separator(directory: Seq<u8>, name: Seq<u8>)
    ensures
        directory.len() == 0 ==> path::shown_join(Platform::Other, directory, name) == name,
        directory.len() > 0 && directory.last() == '/' as int ==> path::shown_join(
            Platform::Other,
            directory,
            name,
        ) == directory + name,
        directory.len() > 0 && directory.last() != '/' as int ==> path::shown_join(
            Platform::Other,
            directory,
            name,
        ) == directory + seq!['/' as u8] + name,
        directory.len() > 0 && directory.last() == '\\' as int ==> path::shown_join(
            Platform::Windows,
            directory,
            name,
        ) == directory + name,
        directory.len() > 2 && directory.last() != '/' as int && directory.last() != '\\' as int
            ==> path::shown_join(Platform::Windows, directory, name) == directory + seq![
            '\\' as u8,
        ] + name,
{
    assert(Seq::<u8>::empty() + name =~= name);
    if directory.len() == 0 {
        assert(directory + name =~= name);
    }
    assert(directory.push('/' as u8) =~= directory + seq!['/' as u8]);
    assert(directory.push('\\' as u8) =~= directory + seq!['\\' as u8]);
}

/// Whether bytes start with two backslashes, a question mark and a backslash.
pub open spec fn is_taken_literally(bytes: Seq<u8>) -> bool {
    bytes.len() >= 4 && bytes[0] == '\\' as int && bytes[1] == '\\' as int && bytes[2] == '?' as int
        && bytes[3] == '\\' as int
}

/// On Windows a slash at the end of a path is a separator too, unless the path is taken literally; and a
/// name stands directly behind a drive.
pub proof fn slashes_and_drives_take_names(directory: Seq<u8>, name: Seq<u8>, letter: u8)
    ensures
        directory.len() > 0 && directory.last() == '/' as int ==> path::shown_join(
            Platform::Windows,
            directory,
            name,
        ) == if is_taken_literally(directory) {
            directory + seq!['\\' as u8] + name
        } else {
            directory + name
        },
        'A' as int <= letter <= 'Z' as int || 'a' as int <= letter <= 'z' as int ==> path::shown_join(
            Platform::Windows,
            seq![letter, ':' as u8],
            name,
        ) == seq![letter, ':' as u8] + name,
{
    assert(directory.push('\\' as u8) =~= directory + seq!['\\' as u8]);
    let drive = seq![letter, ':' as u8];
    assert(drive[0] == letter && drive[1] == ':' as u8 && drive.len() == 2);
}

/// Names are the same on Windows where they are alike but for the case of ASCII letters, and elsewhere
/// only where they have the same bytes.
pub proof fn names_are_told_apart_as_the_host_does(left: path::NameModel, right: path::NameModel)
    ensures
        path::same_name(Platform::Windows, left, right) == walk_laws::are_alike(
            Platform::Windows,
            encode_utf8(left.text),
            encode_utf8(right.text),
        ),
        path::same_name(Platform::Other, left, right) == (left.raw == right.raw),
{
    walk_laws::alike_is_the_same_but_for_case(encode_utf8(left.text), encode_utf8(right.text));
}

/// A root that is a file is found, and so is one that is a link to a file where links are followed; a
/// link to a directory is walked as one, and a link that leads nowhere is reported.
pub proof fn followed_roots_are_what_they_lead_to(
    root: RootModel,
    file: roots::RootFile,
    context: ChainModel,
    visited: Option<Set<Seq<u8>>>,
    facts: RootFacts,
)
    ensures
        file.file_type is File ==> {
            let work = roots::own_work(false, root, file, context, visited, facts);
            work.len() == 1 && (work[0] matches WorkModel::Files(files) && files.len() == 1
                && files[0].path == root.display && files[0].filesystem_path == root.traversal
                && files[0].length == file.length)
        },
        file.file_type is Symlink ==> {
            let work = roots::own_work(true, root, file, context, visited, facts);
            match facts.target {
                Some(Err(reason)) => work.len() == 1 && (work[0] matches WorkModel::Error(error)
                    && error.path == Some(root.display) && error.message == reason@),
                Some(Ok(target)) => {
                    &&& target.is_file ==> work.len() == 1 && (work[0] matches WorkModel::Files(files)
                        && files.len() == 1 && files[0].path == root.display
                        && files[0].filesystem_path == root.traversal && files[0].length
                        == target.length)
                    &&& !target.is_file && target.is_dir && visited is None ==> work.len() == 1
                        && (work[0] matches WorkModel::Directory(task) && task.path
                        == root.traversal && task.display_path == root.display)
                    &&& !target.is_file && !target.is_dir ==> work.len() == 0
                },
                None => work.len() == 0,
            }
        },
{
}

} // verus!
