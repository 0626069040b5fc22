//! When a list of files is kept, given out and dropped.

use vstd::prelude::*;
use crate::cache_state;
use crate::cache_state::{CacheModel, EntryModel, LookupAnswer, RootIdentity};
use crate::chars;
use crate::path;
use crate::path::PathPart;
use crate::search_cache;
use crate::search_cache::{IgnoreSnapshot, KeyModel, PrefixKind};
use crate::search_platform;

verus! {

/// Two components that are written alike.
pub open spec fn written_alike(left: PathPart, right: PathPart) -> bool {
    match left {
        PathPart::Prefix(name) => right is Prefix && right->Prefix_0.raw == name.raw,
        PathPart::Normal(name) => right is Normal && right->Normal_0.raw == name.raw,
        PathPart::RootDir => right is RootDir,
        PathPart::CurDir => right is CurDir,
        PathPart::ParentDir => right is ParentDir,
    }
}

/// A path lies below another that it starts with, component by component, and two paths are the same
/// where each lies below the other.
pub proof fn paths_lie_below_what_they_start_with(left: Seq<PathPart>, right: Seq<PathPart>)
    ensures
        path::path_below(left + right, left),
        path::path_below(left, right) == (right.len() <= left.len() && forall|i: int|
            0 <= i < right.len() ==> written_alike(#[trigger] left[i], right[i])),
        path::same_path(left, right) == (path::path_below(left, right) && path::path_below(
            right,
            left,
        )),
{
    let all = left + right;
    assert forall|i: int| 0 <= i < left.len() implies path::same_part(#[trigger] all[i], left[i]) by {
        assert(all[i] == left[i]);
    }
    if path::path_below(left, right) {
        assert forall|i: int| 0 <= i < right.len() implies written_alike(#[trigger] left[i], right[i]) by {
            assert(path::same_part(left[i], right[i]));
        }
        if right.len() == left.len() {
            assert forall|i: int| 0 <= i < left.len() implies path::same_part(
                #[trigger] right[i],
                left[i],
            ) by {
                assert(path::same_part(left[i], right[i]));
            }
        }
    }
}

/// Two searches share a list only where they agree in everything that decides on files: the roots, the
/// directory, the options, the patterns, and all that was found in ignore files.
pub proof fn shared_lists_agree(left: KeyModel, right: KeyModel)
    ensures
        search_cache::same_key(left, right) ==> {
            &&& left.hidden == right.hidden
            &&& left.no_ignore == right.no_ignore
            &&& left.globs == right.globs
            &&& path::same_path(left.current_dir, right.current_dir)
            &&& left.input_roots.len() == right.input_roots.len()
            &&& left.canonical_roots.len() == right.canonical_roots.len()
            &&& left.ignore_snapshot.len() == right.ignore_snapshot.len()
            &&& forall|i: int|
                0 <= i < left.input_roots.len() ==> path::same_path(
                    #[trigger] left.input_roots[i],
                    right.input_roots[i],
                )
            &&& forall|i: int|
                0 <= i < left.canonical_roots.len() ==> path::same_path(
                    #[trigger] left.canonical_roots[i],
                    right.canonical_roots[i],
                )
            &&& forall|i: int|
                0 <= i < left.ignore_snapshot.len() ==> path::same_path(
                    (#[trigger] left.ignore_snapshot[i]).path,
                    right.ignore_snapshot[i].path,
                ) && left.ignore_snapshot[i].value == right.ignore_snapshot[i].value
        },
        left == right ==> search_cache::same_key(left, right),
{
    if left == right {
        assert(path::same_path(left.current_dir, right.current_dir));
    }
}

/// The files are looked at again before a list is given out: one file that was changed, added or taken
/// away is enough to refuse it.
pub proof fn ignore_files_must_be_as_they_were(key: KeyModel, fresh: IgnoreSnapshot, index: int)
    ensures
        fresh@.len() != key.ignore_snapshot.len() ==> !search_cache::snapshot_current(
            key,
            Some(fresh),
        ),
        0 <= index < fresh@.len() && fresh@.len() == key.ignore_snapshot.len()
            && fresh@[index].value != key.ignore_snapshot[index].value
            ==> !search_cache::snapshot_current(key, Some(fresh)),
        fresh@ == key.ignore_snapshot ==> search_cache::snapshot_current(key, Some(fresh)),
        !search_cache::snapshot_current(key, None),
{
}

/// The only entry that is kept under a key.
pub open spec fn is_only_one(entries: Seq<EntryModel>, key: KeyModel, index: int) -> bool {
    &&& 0 <= index < entries.len()
    &&& search_cache::same_key(entries[index].key, key)
    &&& forall|i: int|
        0 <= i < entries.len() && i != index ==> !search_cache::same_key(
            (#[trigger] entries[i]).key,
            key,
        )
}

proof fn lemma_only_one(entries: Seq<EntryModel>, key: KeyModel, index: int, from: int)
    requires
        is_only_one(entries, key, index),
        0 <= from <= index,
    ensures
        cache_state::entry_index(entries, key, from) == Some(index),
    decreases index - from,
{
    if from < index {
        assert(!search_cache::same_key(entries[from].key, key));
        lemma_only_one(entries, key, index, from + 1);
    }
}

/// A list that is kept is given out where the ignore files and the roots are as they were and nothing
/// changed below them. It is then the one that was used last, and every other list stays as it is.
/// Where the roots are other ones or something changed it is dropped, and no other list is. Where the
/// ignore files are not as they were, or the roots cannot be told, nothing happens.
pub proof fn list_is_given_out_while_it_is_true(
    state: CacheModel,
    key: KeyModel,
    index: int,
    current: bool,
    identities: Option<Seq<RootIdentity>>,
    dirty: bool,
)
    requires
        is_only_one(state.entries, key, index),
    ensures
        ({
            let kept = state.entries[index];
            let (after, answer) = cache_state::looked_up(state, key, current, identities, dirty);
            if !current || identities is None {
                answer is Miss && after == state
            } else if dirty || kept.identities != identities->0 {
                &&& answer == LookupAnswer::Stale(kept.list)
                &&& after.entries.len() + 1 == state.entries.len()
                &&& forall|i: int|
                    0 <= i < index ==> #[trigger] after.entries[i] == state.entries[i]
                &&& forall|i: int|
                    index < i < state.entries.len() ==> after.entries[i - 1]
                        == #[trigger] state.entries[i]
            } else {
                &&& answer == LookupAnswer::Hit(kept.list)
                &&& after.entries.len() == state.entries.len()
                &&& after.entries[index].list == kept.list
                &&& after.entries[index].last_used == after.clock
                &&& state.clock < 0xffff_ffff_ffff_ffff ==> after.clock == state.clock + 1
                &&& forall|i: int|
                    0 <= i < state.entries.len() && i != index ==> #[trigger] after.entries[i]
                        == state.entries[i]
            }
        }),
{
    lemma_only_one(state.entries, key, index, 0);
}

proof fn lemma_none(entries: Seq<EntryModel>, key: KeyModel, from: int)
    requires
        0 <= from <= entries.len(),
        forall|i: int|
            0 <= i < entries.len() ==> !search_cache::same_key((#[trigger] entries[i]).key, key),
    ensures
        cache_state::entry_index(entries, key, from) is None,
    decreases entries.len() - from,
{
    if from < entries.len() {
        assert(!search_cache::same_key(entries[from].key, key));
        lemma_none(entries, key, from + 1);
    }
}

/// Where no list is kept under a key none is given out, and none is dropped.
pub proof fn other_lists_are_not_given_out(
    state: CacheModel,
    key: KeyModel,
    current: bool,
    identities: Option<Seq<RootIdentity>>,
    dirty: bool,
)
    requires
        forall|i: int|
            0 <= i < state.entries.len() ==> !search_cache::same_key(
                (#[trigger] state.entries[i]).key,
                key,
            ),
    ensures
        cache_state::looked_up(state, key, current, identities, dirty).1 is Miss,
        cache_state::looked_up(state, key, current, identities, dirty).0.entries == state.entries,
{
    lemma_none(state.entries, key, 0);
}

/// A list is kept only where it holds at least 1024 paths and at most 300,000, and where neither the
/// files nor the roots changed while it was made.
pub proof fn true_lists_of_some_length_are_kept(
    key: KeyModel,
    started: Seq<RootIdentity>,
    count: usize,
    dirty: bool,
    fresh: Option<IgnoreSnapshot>,
    identities: Vec<RootIdentity>,
)
    ensures
        count < 1024 ==> !cache_state::can_commit(key, started, count, dirty, fresh, Some(identities)),
        count > 300_000 ==> !cache_state::can_commit(
            key,
            started,
            count,
            dirty,
            fresh,
            Some(identities),
        ),
        dirty ==> !cache_state::can_commit(key, started, count, dirty, fresh, Some(identities)),
        identities@ != started ==> !cache_state::can_commit(
            key,
            started,
            count,
            dirty,
            fresh,
            Some(identities),
        ),
        !cache_state::can_commit(key, started, count, dirty, fresh, None),
        !cache_state::can_commit(key, started, count, dirty, None, Some(identities)),
        1024 <= count <= 300_000 && !dirty && identities@ == started
            && search_cache::snapshot_current(key, fresh) ==> cache_state::can_commit(
            key,
            started,
            count,
            dirty,
            fresh,
            Some(identities),
        ),
{
}

/// Each path of a list counts with its length and one record.
pub proof fn each_path_counts(lengths: Seq<usize>, length: usize, record: usize)
    ensures
        cache_state::list_bytes(Seq::empty(), record) == 0,
        cache_state::list_bytes(lengths.push(length), record) == cache_state::list_bytes(
            lengths,
            record,
        ) + length + record,
{
    assert(lengths.push(length).drop_last() =~= lengths);
}

/// The bytes of lists, one by one.
pub open spec fn sum_of_bytes(entries: Seq<EntryModel>) -> int
    decreases entries.len(),
{
    if entries.len() == 0 {
        0
    } else {
        entries[0].bytes + sum_of_bytes(entries.subrange(1, entries.len() as int))
    }
}

proof fn lemma_sum(entries: Seq<EntryModel>)
    ensures
        cache_state::bytes_of(entries) == sum_of_bytes(entries),
    decreases entries.len(),
{
    if entries.len() == 1 {
        assert(entries.drop_last() =~= Seq::<EntryModel>::empty());
        assert(entries.subrange(1, 1) =~= Seq::<EntryModel>::empty());
        assert(cache_state::bytes_of(entries.drop_last()) == 0);
        assert(sum_of_bytes(entries.subrange(1, 1)) == 0);
    } else if entries.len() > 1 {
        let front = entries.drop_last();
        let rest = entries.subrange(1, entries.len() as int);
        let middle = entries.subrange(1, entries.len() - 1);
        lemma_sum(front);
        lemma_sum(rest);
        lemma_sum(middle);
        assert(rest.drop_last() =~= middle);
        assert(front.subrange(1, front.len() as int) =~= middle);
        assert(front[0] == entries[0]);
        assert(rest.last() == entries.last());
    }
}

/// No more than four lists are kept, and no more than 64 mebibytes of them. What stays was used no
/// earlier than what made room, and nothing makes room where there is room.
pub proof fn oldest_lists_make_room(entries: Seq<EntryModel>)
    requires
        forall|i: int| 0 <= i < entries.len() ==> (#[trigger] entries[i]).bytes >= 0,
    ensures
        ({
            let kept = cache_state::trimmed(entries);
            &&& kept.len() <= 4
            &&& sum_of_bytes(kept) <= 67_108_864
            &&& forall|i: int| 0 <= i < kept.len() ==> entries.contains(#[trigger] kept[i])
            &&& forall|i: int, j: int|
                0 <= i < kept.len() && 0 <= j < entries.len() && !kept.contains(entries[j])
                    ==> (#[trigger] entries[j]).last_used <= (#[trigger] kept[i]).last_used
            &&& entries.len() <= 4 && sum_of_bytes(entries) <= 67_108_864 ==> kept == entries
        }),
    decreases entries.len(),
{
    lemma_sum(entries);
    let kept = cache_state::trimmed(entries);
    if cache_state::within_limits(entries) || entries.len() == 0 {
        assert(kept == entries);
        assert forall|i: int| 0 <= i < kept.len() implies entries.contains(#[trigger] kept[i]) by {
            assert(entries[i] == kept[i]);
        }
        assert forall|i: int, j: int|
            0 <= i < kept.len() && 0 <= j < entries.len() && !kept.contains(
                entries[j],
            ) implies (#[trigger] entries[j]).last_used <= (#[trigger] kept[i]).last_used by {
            assert(kept[j] == entries[j]);
            assert(kept.contains(entries[j]));
        }
    } else {
        cache_state::lemma_oldest(entries);
        let index = cache_state::oldest(entries);
        let rest = entries.remove(index);
        assert forall|i: int| 0 <= i < rest.len() implies (#[trigger] rest[i]).bytes >= 0 by {
            if i < index {
                assert(rest[i] == entries[i]);
            } else {
                assert(rest[i] == entries[i + 1]);
            }
        }
        oldest_lists_make_room(rest);
        assert(kept == cache_state::trimmed(rest));
        assert forall|i: int| 0 <= i < kept.len() implies entries.contains(#[trigger] kept[i]) by {
            assert(rest.contains(kept[i]));
            let k = choose|k: int| 0 <= k < rest.len() && rest[k] == kept[i];
            if k < index {
                assert(entries[k] == kept[i]);
            } else {
                assert(entries[k + 1] == kept[i]);
            }
        }
        assert forall|i: int, j: int|
            0 <= i < kept.len() && 0 <= j < entries.len() && !kept.contains(
                entries[j],
            ) implies (#[trigger] entries[j]).last_used <= (#[trigger] kept[i]).last_used by {
            assert(entries.contains(kept[i]));
            let k = choose|k: int| 0 <= k < entries.len() && entries[k] == kept[i];
            if j == index {
                assert(entries[index].last_used <= entries[k].last_used);
            } else if j < index {
                assert(rest[j] == entries[j]);
            } else {
                assert(rest[j - 1] == entries[j]);
            }
        }
    }
}

proof fn lemma_others(entries: Seq<EntryModel>, key: KeyModel, entry: EntryModel)
    ensures
        cache_state::others(entries, key).contains(entry) == (entries.contains(entry)
            && !search_cache::same_key(entry.key, key)),
        cache_state::others(entries, key).len() <= entries.len(),
        entries.contains(entry) && search_cache::same_key(entry.key, key)
            ==> cache_state::lists_under(entries, key).contains(entry.list),
    decreases entries.len(),
{
    if entries.len() > 0 {
        let front = entries.drop_last();
        let before = cache_state::others(front, key);
        let under = cache_state::lists_under(front, key);
        lemma_others(front, key, entry);
        assert(entries.contains(entry) == (front.contains(entry) || entries.last() == entry)) by {
            if entries.contains(entry) && entries.last() != entry {
                let k = choose|k: int| 0 <= k < entries.len() && entries[k] == entry;
                assert(front[k] == entry);
            }
            if front.contains(entry) {
                let k = choose|k: int| 0 <= k < front.len() && front[k] == entry;
                assert(entries[k] == entry);
            }
            assert(entries[entries.len() - 1] == entries.last());
        }
        if search_cache::same_key(entries.last().key, key) {
            let more = under.push(entries.last().list);
            assert(more[under.len() as int] == entries.last().list);
            if under.contains(entry.list) {
                let k = choose|k: int| 0 <= k < under.len() && under[k] == entry.list;
                assert(more[k] == entry.list);
            }
        } else {
            let more = before.push(entries.last());
            assert(more[before.len() as int] == entries.last());
            if before.contains(entry) {
                let k = choose|k: int| 0 <= k < before.len() && before[k] == entry;
                assert(more[k] == entry);
            }
            if more.contains(entry) && entry != entries.last() {
                let k = choose|k: int| 0 <= k < more.len() && more[k] == entry;
                assert(before[k] == entry);
            }
        }
    }
}

/// A list takes the place of those under its key, and these are dropped. It does not touch the others
/// while there is room: up to three others stay beside it.
pub proof fn list_takes_the_place_of_its_like(state: CacheModel, entry: EntryModel, other: EntryModel)
    requires
        state.entries.contains(other),
    ensures
        search_cache::same_key(other.key, entry.key) ==> cache_state::dropped(
            state,
            entry,
        ).contains(other.list),
        ({
            let all = cache_state::others(state.entries, entry.key).push(
                EntryModel { last_used: cache_state::tick(state.clock), ..entry },
            );
            !search_cache::same_key(other.key, entry.key) && all.len() <= 4 && sum_of_bytes(all)
                <= 67_108_864 ==> {
                &&& cache_state::committed(state, entry).entries.contains(other)
                &&& cache_state::committed(state, entry).entries.last().list == entry.list
                &&& cache_state::dropped(state, entry) == cache_state::lists_under(
                    state.entries,
                    entry.key,
                )
            }
        }),
{
    let rest = cache_state::others(state.entries, entry.key);
    let newest = EntryModel { last_used: cache_state::tick(state.clock), ..entry };
    let all = rest.push(newest);
    let under = cache_state::lists_under(state.entries, entry.key);
    lemma_others(state.entries, entry.key, other);
    lemma_sum(all);
    if search_cache::same_key(other.key, entry.key) {
        let k = choose|k: int| 0 <= k < under.len() && under[k] == other.list;
        assert(cache_state::dropped(state, entry)[k] == other.list);
    } else {
        let k = choose|k: int| 0 <= k < rest.len() && rest[k] == other;
        assert(all[k] == other);
        assert(under + Seq::<u64>::empty() =~= under);
    }
}

/// A name of characters as a component of a path.
pub open spec fn is_named(part: PathPart, name: Seq<char>) -> bool {
    part is Normal && part->Normal_0.text == name && part->Normal_0.utf8
}

/// A path that is another with names behind it.
pub open spec fn is_inside(path: Seq<PathPart>, base: Seq<PathPart>, names: Seq<Seq<char>>) -> bool {
    &&& path.len() == base.len() + names.len()
    &&& path.subrange(0, base.len() as int) == base
    &&& forall|i: int| 0 <= i < names.len() ==> is_named(path[base.len() + i], #[trigger] names[i])
}

/// In every directory at or above a root the three kinds of ignore files are looked at, the marks of a
/// repository, and its own exclude file.
pub proof fn each_directory_is_looked_at(base: Seq<PathPart>)
    ensures
        ({
            let places = search_cache::ancestor_places(base);
            &&& exists|i: int|
                0 <= i < places.len() && is_inside(#[trigger] places[i], base, seq![".ignore"@])
            &&& exists|i: int|
                0 <= i < places.len() && is_inside(#[trigger] places[i], base, seq![".gitignore"@])
            &&& exists|i: int|
                0 <= i < places.len() && is_inside(#[trigger] places[i], base, seq![".rgignore"@])
            &&& exists|i: int|
                0 <= i < places.len() && is_inside(#[trigger] places[i], base, seq![".git"@])
            &&& exists|i: int|
                0 <= i < places.len() && is_inside(#[trigger] places[i], base, seq![".jj"@])
            &&& exists|i: int|
                0 <= i < places.len() && is_inside(
                    #[trigger] places[i],
                    base,
                    seq![".git"@, "info"@, "exclude"@],
                )
        }),
{
    let places = search_cache::ancestor_places(base);
    lemma_inside(base, seq![".ignore"@]);
    lemma_inside(base, seq![".gitignore"@]);
    lemma_inside(base, seq![".rgignore"@]);
    lemma_inside(base, seq![".git"@]);
    lemma_inside(base, seq![".jj"@]);
    lemma_inside(base, seq![".git"@, "info"@, "exclude"@]);
    assert(places[0] =~= base + plain_parts(seq![".ignore"@]));
    assert(places[1] =~= base + plain_parts(seq![".gitignore"@]));
    assert(places[2] =~= base + plain_parts(seq![".rgignore"@]));
    assert(places[3] =~= base + plain_parts(seq![".git"@]));
    assert(places[4] =~= base + plain_parts(seq![".jj"@]));
    assert(places[5] =~= base + plain_parts(seq![".git"@, "info"@, "exclude"@]));
}

/// Names as components.
spec fn plain_parts(names: Seq<Seq<char>>) -> Seq<PathPart> {
    Seq::new(names.len(), |i: int| search_cache::plain_part(names[i]))
}

proof fn lemma_inside(base: Seq<PathPart>, names: Seq<Seq<char>>)
    ensures
        is_inside(base + plain_parts(names), base, names),
{
    let all = base + plain_parts(names);
    assert(all.subrange(0, base.len() as int) =~= base);
    assert forall|i: int| 0 <= i < names.len() implies is_named(
        all[base.len() + i],
        #[trigger] names[i],
    ) by {
        assert(all[base.len() + i] == plain_parts(names)[i]);
    }
}

/// Of a work tree its own exclude file is looked at, the file that leads to the shared directory, and
/// the exclude file there.
pub proof fn work_tree_is_looked_at(own: Seq<PathPart>, shared: Seq<PathPart>)
    ensures
        ({
            let alone = search_cache::worktree_places(own, None);
            let both = search_cache::worktree_places(own, Some(shared));
            &&& alone.len() == 2
            &&& is_inside(alone[0], own, seq!["info"@, "exclude"@])
            &&& is_inside(alone[1], own, seq!["commondir"@])
            &&& both.len() == 3
            &&& both.subrange(0, 2) == alone
            &&& is_inside(both[2], shared, seq!["info"@, "exclude"@])
        }),
{
    let alone = search_cache::worktree_places(own, None);
    let both = search_cache::worktree_places(own, Some(shared));
    lemma_inside(own, seq!["info"@, "exclude"@]);
    lemma_inside(own, seq!["commondir"@]);
    lemma_inside(shared, seq!["info"@, "exclude"@]);
    assert(alone[0] =~= own + plain_parts(seq!["info"@, "exclude"@]));
    assert(alone[1] =~= own + plain_parts(seq!["commondir"@]));
    assert(both[2] =~= shared + plain_parts(seq!["info"@, "exclude"@]));
    assert(both.subrange(0, 2) =~= alone);
}

/// The first line of the file `.git` leads to the directory that stands behind `gitdir: `.
pub proof fn first_line_leads_to_the_directory(text: Seq<char>)
    requires
        chars::text_lines(text, 0).len() > 0,
    ensures
        ({
            let line = chars::text_lines(text, 0)[0];
            match search_cache::snapshot_git_dir(text) {
                Some(target) => line == "gitdir: "@ + target,
                None => forall|target: Seq<char>| line != #[trigger] ("gitdir: "@ + target),
            }
        }),
        search_cache::snapshot_git_dir(Seq::empty()) is None,
{
    let prefix = "gitdir: "@;
    let line = chars::text_lines(text, 0)[0];
    if search_cache::snapshot_git_dir(text) is Some {
        assert(line =~= prefix + line.subrange(prefix.len() as int, line.len() as int));
    } else {
        assert forall|target: Seq<char>| line != #[trigger] (prefix + target) by {
            let all = prefix + target;
            assert(all.subrange(0, prefix.len() as int) =~= prefix);
            assert(chars::begins_with(all, prefix));
        }
    }
}

/// A path on another machine, or of a device, starts in one of three ways; any other is on a drive.
pub proof fn shares_and_devices_are_elsewhere(prefix: PrefixKind)
    ensures
        search_cache::is_remote(Some(prefix)) == match prefix {
            PrefixKind::Unc => true,
            PrefixKind::VerbatimUnc => true,
            PrefixKind::DeviceNamespace => true,
            PrefixKind::Disk => false,
            PrefixKind::VerbatimDisk => false,
            PrefixKind::Verbatim => false,
        },
        !search_cache::is_remote(None),
{
}

/// A root is watched by itself unless it lies below one that is watched already, and only roots are.
pub proof fn root_is_watched_unless_one_above_is(roots: Seq<Seq<PathPart>>, root: Seq<PathPart>)
    ensures
        ({
            let before = search_cache::watched_roots(roots);
            let after = search_cache::watched_roots(roots.push(root));
            if exists|i: int| 0 <= i < before.len() && path::path_below(root, #[trigger] before[i]) {
                after == before
            } else {
                after == before.push(root)
            }
        }),
        search_cache::watched_roots(Seq::empty()).len() == 0,
{
    assert(roots.push(root).drop_last() =~= roots);
}

/// The directory above each root is watched, once; a root that lies in no directory cannot be watched.
pub proof fn directory_above_is_watched(roots: Seq<Seq<PathPart>>, above: Seq<PathPart>, name: PathPart)
    requires
        name is Normal,
    ensures
        ({
            let before = search_cache::watched_parents(roots);
            let after = search_cache::watched_parents(roots.push(above.push(name)));
            &&& before is None ==> after is None
            &&& before is Some ==> after is Some && if exists|i: int|
                0 <= i < before->0.len() && path::same_path(#[trigger] before->0[i], above) {
                after->0 == before->0
            } else {
                after->0 == before->0.push(above)
            }
        }),
        search_cache::watched_parents(roots.push(above.push(PathPart::RootDir))) is None,
        search_cache::watched_parents(roots.push(Seq::empty())) is None,
{
    assert(roots.push(above.push(name)).drop_last() =~= roots);
    assert(above.push(name).drop_last() =~= above);
    assert(roots.push(above.push(PathPart::RootDir)).drop_last() =~= roots);
    assert(roots.push(Seq::empty()).drop_last() =~= roots);
}

/// A volume is opened by its name without the slashes of either kind at its end.
pub proof fn volume_is_opened_without_slashes(name: Seq<u16>)
    ensures
        ({
            let opened = search_platform::without_separators(name);
            &&& opened.len() <= name.len()
            &&& name.subrange(0, opened.len() as int) == opened
            &&& forall|i: int|
                opened.len() <= i < name.len() ==> #[trigger] name[i] as int == '\\' as int
                    || name[i] as int == '/' as int
            &&& opened.len() > 0 ==> opened.last() as int != '\\' as int && opened.last() as int
                != '/' as int
        }),
    decreases name.len(),
{
    if name.len() > 0 && search_platform::is_separator(name.last()) {
        let front = name.drop_last();
        volume_is_opened_without_slashes(front);
        let opened = search_platform::without_separators(name);
        assert(name.subrange(0, opened.len() as int) =~= front.subrange(0, opened.len() as int));
        assert forall|i: int| opened.len() <= i < name.len() implies #[trigger] name[i] as int
            == '\\' as int || name[i] as int == '/' as int by {
            if i < front.len() {
                assert(front[i] == name[i]);
            }
        }
    } else {
        assert(name.subrange(0, name.len() as int) =~= name);
    }
}

} // verus!
