//! What is seen in a directory, and what is told of it.

use vstd::prelude::*;
use vstd::utf8::encode_utf8;
use crate::chars;
use crate::context;
use crate::context::{ErrorModel, IgnoreFilePresence, ReadModel};
use crate::directory;
use crate::directory::ListedEntry;
use crate::expand;
use crate::expand::{TaskModel, WorkModel};
use crate::git;
use crate::path;
use crate::path::PathPart;
use crate::platform::Platform;
use crate::queue;
use crate::roots;
use crate::roots::RootFacts;
use crate::search;
use crate::search_cache;
use crate::search_cache::{CacheRoot, FileModel};
use crate::search_platform;
use crate::text;
use crate::walk;
use crate::walk::{NativeWalkOptions, NativeWalker};
use crate::walk_laws;

verus! {

/// Whether a name is another one but for the case of ASCII letters.
pub open spec fn is_called(name: Seq<char>, other: Seq<char>) -> bool {
    walk_laws::are_alike(Platform::Windows, encode_utf8(name), encode_utf8(other))
}

/// An entry adds what its name says to what is present in a directory, and takes nothing away. Its name
/// counts in upper and in lower case, and one that is no text says nothing.
pub proof fn names_tell_what_is_present(
    entries: Seq<Result<ListedEntry, String>>,
    entry: Result<ListedEntry, String>,
)
    ensures
        ({
            let before = directory::present_among(entries);
            let after = directory::present_among(entries.push(entry));
            match entry {
                Ok(listed) if listed.name.utf8 => {
                    let name = listed.name.text@;
                    &&& after.dot_git == (before.dot_git || is_called(name, ".git"@))
                    &&& !is_called(name, ".git"@) ==> {
                        &&& after.gitignore == (before.gitignore || is_called(name, ".gitignore"@))
                        &&& !is_called(name, ".gitignore"@) ==> {
                            &&& after.ignore == (before.ignore || is_called(name, ".ignore"@))
                            &&& !is_called(name, ".ignore"@) ==> after.rgignore == (before.rgignore
                                || is_called(name, ".rgignore"@))
                        }
                    }
                },
                _ => after == before,
            }
        }),
        directory::present_among(Seq::empty()) == (IgnoreFilePresence {
            dot_git: false,
            gitignore: false,
            ignore: false,
            rgignore: false,
        }),
{
    assert(entries.push(entry).drop_last() =~= entries);
    if let Ok(listed) = entry {
        let bytes = encode_utf8(listed.name.text@);
        walk_laws::alike_is_the_same_but_for_case(bytes, encode_utf8(".git"@));
        walk_laws::alike_is_the_same_but_for_case(bytes, encode_utf8(".gitignore"@));
        walk_laws::alike_is_the_same_but_for_case(bytes, encode_utf8(".ignore"@));
        walk_laws::alike_is_the_same_but_for_case(bytes, encode_utf8(".rgignore"@));
    }
}

/// What is present is known of directories of up to 4096 entries.
pub proof fn small_directories_are_known(entries: Seq<Result<ListedEntry, String>>)
    ensures
        entries.len() <= 4096 ==> directory::known_presence(entries) == Some(
            directory::present_among(entries),
        ),
        entries.len() > 4096 ==> directory::known_presence(entries) is None,
{
}

/// A directory that cannot be listed makes one failure, with its path and the reason.
pub proof fn unlisted_directory_is_told(
    walker: NativeWalker,
    task: TaskModel,
    reads: Seq<ReadModel>,
    reason: String,
    visited: Option<Set<Seq<u8>>>,
)
    ensures
        ({
            let items = directory::expanded_items(walker, task, reads, Err(reason), visited);
            &&& items.len() == 1
            &&& items[0] == WorkModel::Error(
                ErrorModel { path: Some(task.display_path), message: reason@ },
            )
        }),
{
}

/// A directory without entries makes no work but the failures among its ignore files, and without
/// ignore files none at all.
pub proof fn empty_directory_makes_no_work(
    walker: NativeWalker,
    task: TaskModel,
    reads: Seq<ReadModel>,
    entries: Vec<Result<ListedEntry, String>>,
    visited: Option<Set<Seq<u8>>>,
)
    requires
        entries@.len() == 0,
    ensures
        ({
            let items = directory::expanded_items(walker, task, reads, Ok(entries), visited);
            let errors = context::errors_inside(task.path, reads);
            &&& walker.options.no_ignore ==> items.len() == 0
            &&& !walker.options.no_ignore ==> items.len() == errors.len() && forall|i: int|
                0 <= i < items.len() ==> #[trigger] items[i] == WorkModel::Error(errors[i])
        }),
{
}

/// A directory is on record once it was taken up as a root: a directory itself, and a link to one where
/// links are followed. Nothing else is.
pub proof fn roots_are_recorded_once(follow_links: bool, known: Set<Seq<u8>>, facts: RootFacts, identity: Seq<u8>)
    requires
        facts.identity matches Some(Ok(bytes)) && bytes@ == identity,
    ensures
        ({
            let after = roots::visited_after_root(follow_links, Some(known), facts);
            match facts.metadata {
                Err(_) => after == Some(known),
                Ok(file) => {
                    &&& file.file_type is Directory ==> after == Some(known.insert(identity))
                    &&& file.file_type is File || file.file_type is Other ==> after == Some(known)
                    &&& file.file_type is Symlink && !follow_links ==> after == Some(known)
                    &&& file.file_type is Symlink && follow_links ==> match facts.target {
                        Some(Ok(target)) => after == Some(
                            if target.is_dir && !target.is_file {
                                known.insert(identity)
                            } else {
                                known
                            },
                        ),
                        _ => after == Some(known),
                    }
                },
            }
        }),
        roots::visited_after_root(follow_links, None, facts) is None,
{
}

/// The three bytes of a half of a surrogate pair.
pub open spec fn is_half(bytes: Seq<u8>) -> bool {
    bytes.len() == 3 && bytes[0] == 0xed && 0xa0 <= bytes[1] <= 0xbf && 0x80 <= bytes[2] <= 0xbf
}

/// Bytes without halves of surrogate pairs are shown on Windows as they are shown elsewhere.
pub proof fn plain_paths_are_shown_alike(bytes: Seq<u8>)
    requires
        forall|i: int| 0 <= i <= bytes.len() - 3 ==> !is_half(#[trigger] bytes.subrange(i, i + 3)),
    ensures
        text::path_shown(Platform::Windows, bytes) == text::path_shown(Platform::Other, bytes),
{
    lemma_kept(bytes, 0);
    assert(bytes.subrange(0, bytes.len() as int) =~= bytes);
}

proof fn lemma_kept(bytes: Seq<u8>, from: int)
    requires
        0 <= from <= bytes.len(),
        forall|i: int| 0 <= i <= bytes.len() - 3 ==> !is_half(#[trigger] bytes.subrange(i, i + 3)),
    ensures
        text::surrogates_replaced(bytes, from) == bytes.subrange(from, bytes.len() as int),
    decreases bytes.len() - from,
{
    if from < bytes.len() {
        lemma_kept(bytes, from + 1);
        if from <= bytes.len() - 3 {
            let three = bytes.subrange(from, from + 3);
            assert(three[0] == bytes[from] && three[1] == bytes[from + 1] && three[2]
                == bytes[from + 2]);
        }
        assert(!text::is_surrogate_at(bytes, from));
        assert(bytes.subrange(from, bytes.len() as int) =~= seq![bytes[from]] + bytes.subrange(
            from + 1,
            bytes.len() as int,
        ));
    } else {
        assert(bytes.subrange(from, bytes.len() as int) =~= Seq::<u8>::empty());
    }
}

/// The three bytes of a half of a surrogate pair are shown on Windows as one replacement character.
pub proof fn halves_are_replaced(before: Seq<u8>, half: Seq<u8>, after: Seq<u8>)
    requires
        is_half(half),
        forall|i: int| 0 <= i < before.len() ==> #[trigger] before[i] != 0xed,
        forall|i: int| 0 <= i < after.len() ==> #[trigger] after[i] != 0xed,
    ensures
        text::path_shown(Platform::Windows, before + half + after) == text::path_shown(
            Platform::Other,
            before + encode_utf8(seq!['\u{fffd}']) + after,
        ),
{
    let bytes = before + half + after;
    lemma_replaced(before, half, after, 0);
    lemma_replacement();
    let mark = seq![0xefu8, 0xbfu8, 0xbdu8];
    assert(before.subrange(0, before.len() as int) =~= before);
    assert(text::surrogates_replaced(bytes, 0) =~= before + mark + after);
}

proof fn lemma_replacement()
    ensures
        encode_utf8(seq!['\u{fffd}']) == seq![0xefu8, 0xbfu8, 0xbdu8],
{
    let value = seq!['\u{fffd}'];
    assert(value.drop_first() =~= Seq::<char>::empty());
    reveal_with_fuel(encode_utf8, 2);
    assert((0xfffdu32 >> 12) & 0xf == 0xf) by (bit_vector);
    assert((0xfffdu32 >> 6) & 0x3f == 0x3f) by (bit_vector);
    assert(0xfffdu32 & 0x3f == 0x3d) by (bit_vector);
    assert(0xe0u8 | 0xfu8 == 0xefu8) by (bit_vector);
    assert(0x80u8 | 0x3fu8 == 0xbfu8) by (bit_vector);
    assert(0x80u8 | 0x3du8 == 0xbdu8) by (bit_vector);
    assert(encode_utf8(value) =~= seq![0xefu8, 0xbfu8, 0xbdu8]);
}

proof fn lemma_replaced(before: Seq<u8>, half: Seq<u8>, after: Seq<u8>, from: int)
    requires
        is_half(half),
        0 <= from <= before.len(),
        forall|i: int| 0 <= i < before.len() ==> #[trigger] before[i] != 0xed,
        forall|i: int| 0 <= i < after.len() ==> #[trigger] after[i] != 0xed,
    ensures
        text::surrogates_replaced(before + half + after, from) == before.subrange(
            from,
            before.len() as int,
        ) + seq![0xefu8, 0xbfu8, 0xbdu8] + after,
    decreases before.len() - from,
{
    let bytes = before + half + after;
    let mark = seq![0xefu8, 0xbfu8, 0xbdu8];
    if from < before.len() {
        assert(bytes[from] == before[from]);
        lemma_replaced(before, half, after, from + 1);
        assert(before.subrange(from, before.len() as int) =~= seq![before[from]] + before.subrange(
            from + 1,
            before.len() as int,
        ));
        assert(text::surrogates_replaced(bytes, from) =~= before.subrange(from, before.len() as int)
            + mark + after);
    } else {
        assert(bytes[from] == half[0]);
        assert(bytes[from + 1] == half[1]);
        assert(bytes[from + 2] == half[2]);
        assert(text::is_surrogate_at(bytes, from));
        assert(after =~= bytes.subrange(from + 3, bytes.len() as int));
        lemma_kept_behind(bytes, from + 3, after);
        assert(before.subrange(from, before.len() as int) =~= Seq::<u8>::empty());
        assert(text::surrogates_replaced(bytes, from) =~= before.subrange(from, before.len() as int)
            + mark + after);
    }
}

proof fn lemma_kept_behind(bytes: Seq<u8>, from: int, rest: Seq<u8>)
    requires
        0 <= from <= bytes.len(),
        rest == bytes.subrange(from, bytes.len() as int),
        forall|i: int| 0 <= i < rest.len() ==> #[trigger] rest[i] != 0xed,
    ensures
        text::surrogates_replaced(bytes, from) == rest,
    decreases bytes.len() - from,
{
    if from < bytes.len() {
        let less = bytes.subrange(from + 1, bytes.len() as int);
        assert forall|i: int| 0 <= i < less.len() implies #[trigger] less[i] != 0xed by {
            assert(less[i] == rest[i + 1]);
        }
        assert(rest[0] == bytes[from]);
        lemma_kept_behind(bytes, from + 1, less);
        assert(rest =~= seq![bytes[from]] + less);
    } else {
        assert(rest =~= Seq::<u8>::empty());
    }
}

/// The file that leads to a shared directory says where by its first line, without the blanks around
/// it; a blank first line says nothing.
pub proof fn shared_directory_is_on_the_first_line(lines: Seq<Seq<char>>)
    ensures
        lines.len() == 0 ==> git::first_line(lines) is None,
        lines.len() > 0 && chars::trimmed(lines[0]).len() == 0 ==> git::first_line(lines) is None,
        lines.len() > 0 && chars::trimmed(lines[0]).len() > 0 ==> git::first_line(lines) == Some(
            chars::trimmed(lines[0]),
        ),
{
}

/// A failure of a walk is told with its path before it, where it has one.
pub proof fn failures_of_a_walk_name_the_path(message: Seq<char>, path: Seq<u8>, platform: Platform)
    ensures
        search::walk_error_text(ErrorModel { path: None, message }, platform) == message,
        search::error_path(ErrorModel { path: None, message }, platform) is None,
        search::walk_error_text(ErrorModel { path: Some(path), message }, platform)
            == text::path_shown(platform, path) + ": "@ + message,
        search::error_path(ErrorModel { path: Some(path), message }, platform) == Some(
            text::path_shown(platform, path),
        ),
{
}

/// Lists are kept only for roots that the host finds as directories, none of them on another machine.
pub proof fn every_root_must_be_a_directory_here(roots: Seq<CacheRoot>, index: int)
    ensures
        search_cache::roots_can_be_kept(roots) && 0 <= index < roots.len() ==> {
            &&& roots[index].canonical is Some
            &&& roots[index].is_directory
            &&& !search_cache::is_remote(roots[index].prefix)
        },
        roots.len() == 0 ==> !search_cache::roots_can_be_kept(roots),
        roots.len() > 0 && (forall|i: int|
            0 <= i < roots.len() ==> (#[trigger] roots[i]).canonical is Some
                && roots[i].is_directory && !search_cache::is_remote(roots[i].prefix))
            ==> search_cache::roots_can_be_kept(roots),
{
}

/// The bytes that were read count, and a file that could not be read counts none.
pub proof fn contents_of_ignore_files_count(files: Seq<FileModel>, file: FileModel)
    ensures
        search_cache::snapshot_bytes(files.push(file)) == search_cache::snapshot_bytes(files) + (
        if file.value is Contents {
            file.value->Contents_0.len() as int
        } else {
            0
        }),
        search_cache::snapshot_bytes(Seq::empty()) == 0,
{
    assert(files.push(file).drop_last() =~= files);
}

/// A fixed drive and one in memory stay in the machine; any other may leave it, and so may one of
/// which nothing is known.
pub proof fn fixed_drives_stay(kind: u32)
    ensures
        search_platform::is_local_drive(Some(kind)) == (kind == 3 || kind == 6),
        !search_platform::is_local_drive(None),
{
}

/// Volumes are asked about on Windows alone, for up to sixteen roots, and only where each is known.
pub proof fn few_known_volumes_are_asked_about(platform: Platform, volumes: Seq<Option<Vec<u8>>>, index: int)
    ensures
        search_platform::volumes_are_known(platform, volumes) ==> {
            &&& platform is Windows
            &&& 1 <= volumes.len() <= 16
            &&& 0 <= index < volumes.len() ==> volumes[index] is Some
        },
        platform is Windows && 1 <= volumes.len() <= 16 && (forall|i: int|
            0 <= i < volumes.len() ==> (#[trigger] volumes[i]) is Some)
            ==> search_platform::volumes_are_known(platform, volumes),
{
}

/// A walk starts where it is told to, seen from the directory of the process, and in that directory
/// where it is told nothing.
pub proof fn walk_starts_where_it_is_told(options: NativeWalkOptions, process_dir: Seq<PathPart>)
    ensures
        options.current_dir is None ==> walk::starting_directory(options, process_dir)
            == process_dir,
        options.current_dir is Some ==> walk::starting_directory(options, process_dir)
            == path::normalized(path::joined(process_dir, options.current_dir->0@.parts)),
{
}

/// On Windows a directory is known by its path in lower case, and elsewhere by its bytes alone.
pub proof fn directories_are_known_by_their_paths(
    raw: Seq<u8>,
    other: Seq<u8>,
    shown: Seq<char>,
    shown_other: Seq<char>,
)
    ensures
        expand::directory_identity(Platform::Other, raw, shown) == raw,
        expand::directory_identity(Platform::Other, raw, shown) == expand::directory_identity(
            Platform::Other,
            other,
            shown_other,
        ) <==> raw == other,
        text::lower_case(shown) == text::lower_case(shown_other) ==> expand::directory_identity(
            Platform::Windows,
            raw,
            shown,
        ) == expand::directory_identity(Platform::Windows, other, shown_other),
{
}

/// A queue starts with the directories in one line and all other work in another, each in its order.
pub proof fn directories_wait_in_their_own_line(items: Seq<WorkModel>, item: WorkModel)
    ensures
        item is Directory ==> queue::directories_of(items.push(item)) == queue::directories_of(
            items,
        ).push(item) && queue::ready_of(items.push(item)) == queue::ready_of(items),
        !(item is Directory) ==> queue::directories_of(items.push(item)) == queue::directories_of(
            items,
        ) && queue::ready_of(items.push(item)) == queue::ready_of(items).push(item),
        queue::directories_of(Seq::empty()).len() == 0,
        queue::ready_of(Seq::empty()).len() == 0,
{
    reveal(Seq::filter);
    assert(items.push(item).drop_last() =~= items);
    assert(items.push(item).last() == item);
}

/// The roots are taken up in their order: the work of the first ones stands before that of the next, and
/// what they recorded is on record for it.
pub proof fn roots_are_taken_up_in_order(
    walker: NativeWalker,
    given: Seq<walk::RootModel>,
    visited: Option<Set<Seq<u8>>>,
    facts: Seq<RootFacts>,
    count: int,
)
    requires
        0 <= count,
    ensures
        ({
            let known = roots::visited_after_roots(walker.options.follow_links, visited, facts, count);
            &&& roots::work_of_roots(walker, given, visited, facts, count + 1)
                == roots::work_of_roots(walker, given, visited, facts, count) + roots::root_work(
                walker,
                given[count],
                known,
                facts[count],
            )
            &&& roots::visited_after_roots(walker.options.follow_links, visited, facts, count + 1)
                == roots::visited_after_root(walker.options.follow_links, known, facts[count])
        }),
        roots::work_of_roots(walker, given, visited, facts, 0).len() == 0,
        roots::visited_after_roots(walker.options.follow_links, visited, facts, 0) == visited,
{
}

} // verus!
