//! The lists of files that a search keeps: which are given out, and which make room for others.

use vstd::prelude::*;
use crate::search_cache;
use crate::search_cache::{
    FileListCacheKey, IgnoreSnapshot, KeyModel, MAX_CACHE_ENTRIES, MAX_PATHS_PER_ENTRY,
    MAX_TOTAL_BYTES, MIN_PATHS_PER_ENTRY,
};

verus! {

/// What tells a directory from any other that has, or had, the same path.
#[derive(Clone, Copy, Debug, PartialEq, Eq, Structural)]
pub struct RootIdentity {
    pub volume_serial_number: u32,
    pub file_index: u64,
}

/// The number of a file from its two halves.
pub fn file_index(high: u32, low: u32) -> (result: u64)
    ensures
        result == high as int * 0x1_0000_0000 + low as int,
{
    (high as u64) * 0x1_0000_0000 + (low as u64)
}

/// The identities of roots, where each is known.
pub fn root_identities(answers: &[Option<RootIdentity>]) -> (result: Option<Vec<RootIdentity>>)
    ensures
        result is Some == forall|i: int|
            0 <= i < answers@.len() ==> (#[trigger] answers@[i]) is Some,
        result matches Some(list) ==> list@ == Seq::new(
            answers@.len(),
            |i: int| answers@[i]->0,
        ),
{
    let mut result: Vec<RootIdentity> = Vec::new();
    let mut index: usize = 0;
    while index < answers.len()
        invariant
            index <= answers.len(),
            result.len() == index,
            forall|i: int|
                0 <= i < index ==> (#[trigger] answers@[i]) is Some && result[i] == answers@[i]->0,
        decreases answers.len() - index,
    {
        match answers[index] {
            Some(identity) => {
                result.push(identity);
            },
            None => {
                assert(answers@[index as int] is None);
                return None;
            },
        }
        index += 1;
    }
    assert(result@ =~= Seq::new(answers@.len(), |i: int| answers@[i]->0));
    Some(result)
}

/// Whether identities are the same.
fn identities_equal(left: &Vec<RootIdentity>, right: &Vec<RootIdentity>) -> (result: bool)
    ensures
        result == (left@ == right@),
{
    if left.len() != right.len() {
        return false;
    }
    let mut index: usize = 0;
    while index < left.len()
        invariant
            index <= left.len() == right.len(),
            forall|i: int| 0 <= i < index ==> left@[i] == right@[i],
        decreases left.len() - index,
    {
        if left[index] != right[index] {
            return false;
        }
        index += 1;
    }
    assert(left@ =~= right@);
    true
}

/// A list that is being made: what it depends on, and which directories its roots were at the start.
#[derive(Debug)]
pub struct CacheBuild {
    pub key: FileListCacheKey,
    pub root_identities: Vec<RootIdentity>,
}

/// A list that is kept.
#[derive(Debug)]
pub struct CacheEntry {
    pub key: FileListCacheKey,
    /// The number under which the host keeps the list and its watches.
    pub list: u64,
    pub approximate_bytes: usize,
    pub root_identities: Vec<RootIdentity>,
    pub last_used: u64,
}

/// A list that is kept.
pub struct EntryModel {
    pub key: KeyModel,
    pub list: u64,
    pub bytes: int,
    pub identities: Seq<RootIdentity>,
    pub last_used: u64,
}

impl View for CacheEntry {
    type V = EntryModel;

    open spec fn view(&self) -> EntryModel {
        EntryModel {
            key: self.key@,
            list: self.list,
            bytes: self.approximate_bytes as int,
            identities: self.root_identities@,
            last_used: self.last_used,
        }
    }
}

/// The lists that are kept.
#[derive(Debug)]
pub struct CacheState {
    pub entries: Vec<CacheEntry>,
    pub clock: u64,
    pub total_bytes: usize,
}

/// The lists that are kept.
pub struct CacheModel {
    pub entries: Seq<EntryModel>,
    pub clock: u64,
}

/// Lists as a value of the specification.
pub open spec fn entry_models(entries: Seq<CacheEntry>) -> Seq<EntryModel> {
    Seq::new(entries.len(), |i: int| entries[i]@)
}

impl View for CacheState {
    type V = CacheModel;

    open spec fn view(&self) -> CacheModel {
        CacheModel { entries: entry_models(self.entries@), clock: self.clock }
    }
}

/// The bytes of lists.
pub open spec fn bytes_of(entries: Seq<EntryModel>) -> int
    decreases entries.len(),
{
    if entries.len() == 0 {
        0
    } else {
        bytes_of(entries.drop_last()) + entries.last().bytes
    }
}

/// Whether lists are within the limits.
pub open spec fn within_limits(entries: Seq<EntryModel>) -> bool {
    entries.len() <= MAX_CACHE_ENTRIES && bytes_of(entries) <= MAX_TOTAL_BYTES
}

/// Whether no list has fewer than no bytes.
pub open spec fn bytes_are_natural(entries: Seq<EntryModel>) -> bool {
    forall|i: int| 0 <= i < entries.len() ==> (#[trigger] entries[i]).bytes >= 0
}

/// The time after a time.
pub open spec fn tick(clock: u64) -> u64 {
    if clock == u64::MAX {
        0
    } else {
        (clock + 1) as u64
    }
}

/// The first list, from one on, that is kept under a key.
pub open spec fn entry_index(entries: Seq<EntryModel>, key: KeyModel, from: int) -> Option<int>
    decreases entries.len() - from,
{
    if from < 0 || from >= entries.len() {
        None
    } else if search_cache::same_key(entries[from].key, key) {
        Some(from)
    } else {
        entry_index(entries, key, from + 1)
    }
}

/// What a search is told.
#[derive(Debug, PartialEq, Eq, Structural)]
pub enum LookupAnswer {
    /// There is no list that could be used.
    Miss,
    /// The list is no longer good; the host drops it.
    Stale(u64),
    /// The list is good.
    Hit(u64),
}

/// What a search is told, and what is kept after that.
pub open spec fn looked_up(
    state: CacheModel,
    key: KeyModel,
    current: bool,
    identities: Option<Seq<RootIdentity>>,
    dirty: bool,
) -> (CacheModel, LookupAnswer) {
    if !current || identities is None {
        (state, LookupAnswer::Miss)
    } else {
        match entry_index(state.entries, key, 0) {
            Some(i) => {
                let entry = state.entries[i];
                if dirty || entry.identities != identities->0 {
                    (
                        CacheModel { entries: state.entries.remove(i), clock: state.clock },
                        LookupAnswer::Stale(entry.list),
                    )
                } else {
                    (
                        CacheModel {
                            entries: state.entries.update(
                                i,
                                EntryModel { last_used: tick(state.clock), ..entry },
                            ),
                            clock: tick(state.clock),
                        },
                        LookupAnswer::Hit(entry.list),
                    )
                }
            },
            None => (
                CacheModel { entries: state.entries, clock: tick(state.clock) },
                LookupAnswer::Miss,
            ),
        }
    }
}

/// The lists that are not kept under a key.
pub open spec fn others(entries: Seq<EntryModel>, key: KeyModel) -> Seq<EntryModel>
    decreases entries.len(),
{
    if entries.len() == 0 {
        entries
    } else if search_cache::same_key(entries.last().key, key) {
        others(entries.drop_last(), key)
    } else {
        others(entries.drop_last(), key).push(entries.last())
    }
}

/// The numbers of the lists that are kept under a key.
pub open spec fn lists_under(entries: Seq<EntryModel>, key: KeyModel) -> Seq<u64>
    decreases entries.len(),
{
    if entries.len() == 0 {
        Seq::empty()
    } else if search_cache::same_key(entries.last().key, key) {
        lists_under(entries.drop_last(), key).push(entries.last().list)
    } else {
        lists_under(entries.drop_last(), key)
    }
}

/// The list that was not used for longest, the first of several.
pub open spec fn oldest(entries: Seq<EntryModel>) -> int
    decreases entries.len(),
{
    if entries.len() <= 1 {
        0
    } else {
        let before = oldest(entries.drop_last());
        if entries.last().last_used < entries[before].last_used {
            entries.len() - 1
        } else {
            before
        }
    }
}

/// The lists that stay when those that were not used for longest make room.
pub open spec fn trimmed(entries: Seq<EntryModel>) -> Seq<EntryModel>
    decreases entries.len(),
{
    if within_limits(entries) || entries.len() == 0 {
        entries
    } else {
        proof {
            lemma_oldest(entries);
        }
        trimmed(entries.remove(oldest(entries)))
    }
}

/// The numbers of the lists that make room.
pub open spec fn trimmed_lists(entries: Seq<EntryModel>) -> Seq<u64>
    decreases entries.len(),
{
    if within_limits(entries) || entries.len() == 0 {
        Seq::empty()
    } else {
        proof {
            lemma_oldest(entries);
        }
        seq![entries[oldest(entries)].list] + trimmed_lists(entries.remove(oldest(entries)))
    }
}

/// The oldest list is one of the lists, and none is older.
pub proof fn lemma_oldest(entries: Seq<EntryModel>)
    requires
        entries.len() > 0,
    ensures
        0 <= oldest(entries) < entries.len(),
        forall|i: int|
            0 <= i < entries.len() ==> entries[oldest(entries)].last_used <= (
            #[trigger] entries[i]).last_used,
    decreases entries.len(),
{
    if entries.len() > 1 {
        lemma_oldest(entries.drop_last());
        assert forall|i: int| 0 <= i < entries.len() implies entries[oldest(entries)].last_used <= (
        #[trigger] entries[i]).last_used by {
            if i < entries.len() - 1 {
                assert(entries.drop_last()[i] == entries[i]);
            }
        }
    }
}

/// What is kept once a list is there: it takes the place of any under the same key, and older ones
/// make room.
pub open spec fn committed(state: CacheModel, entry: EntryModel) -> CacheModel {
    CacheModel {
        entries: trimmed(
            others(state.entries, entry.key).push(
                EntryModel { last_used: tick(state.clock), ..entry },
            ),
        ),
        clock: tick(state.clock),
    }
}

/// The numbers of the lists that are dropped once a list is there.
pub open spec fn dropped(state: CacheModel, entry: EntryModel) -> Seq<u64> {
    lists_under(state.entries, entry.key) + trimmed_lists(
        others(state.entries, entry.key).push(
            EntryModel { last_used: tick(state.clock), ..entry },
        ),
    )
}

proof fn lemma_index_of(entries: Seq<EntryModel>, key: KeyModel, from: int)
    requires
        0 <= from <= entries.len(),
    ensures
        match entry_index(entries, key, from) {
            Some(i) => from <= i < entries.len() && search_cache::same_key(entries[i].key, key),
            None => forall|i: int|
                from <= i < entries.len() ==> !search_cache::same_key(
                    (#[trigger] entries[i]).key,
                    key,
                ),
        },
    decreases entries.len() - from,
{
    if from < entries.len() {
        lemma_index_of(entries, key, from + 1);
    }
}

proof fn lemma_bytes_without(entries: Seq<EntryModel>, index: int)
    requires
        0 <= index < entries.len(),
    ensures
        bytes_of(entries.remove(index)) == bytes_of(entries) - entries[index].bytes,
    decreases entries.len(),
{
    let last = entries.len() - 1;
    if index == last {
        assert(entries.remove(index) =~= entries.drop_last());
    } else {
        let rest = entries.remove(index);
        lemma_bytes_without(entries.drop_last(), index);
        assert(rest.drop_last() =~= entries.drop_last().remove(index));
        assert(rest.last() == entries.last());
    }
}

proof fn lemma_bytes_bound(entries: Seq<EntryModel>, index: int)
    requires
        0 <= index < entries.len(),
        bytes_are_natural(entries),
    ensures
        0 <= entries[index].bytes <= bytes_of(entries),
    decreases entries.len(),
{
    let front = entries.drop_last();
    assert forall|i: int| 0 <= i < front.len() implies (#[trigger] front[i]).bytes >= 0 by {
        assert(front[i] == entries[i]);
    }
    lemma_bytes_sum(front);
    if index < entries.len() - 1 {
        lemma_bytes_bound(front, index);
        assert(entries.last().bytes >= 0);
    }
}

proof fn lemma_bytes_sum(entries: Seq<EntryModel>)
    requires
        bytes_are_natural(entries),
    ensures
        bytes_of(entries) >= 0,
    decreases entries.len(),
{
    if entries.len() > 0 {
        let front = entries.drop_last();
        assert forall|i: int| 0 <= i < front.len() implies (#[trigger] front[i]).bytes >= 0 by {
            assert(front[i] == entries[i]);
        }
        lemma_bytes_sum(front);
        assert(entries[entries.len() - 1].bytes >= 0);
    }
}

proof fn lemma_bytes_update(entries: Seq<EntryModel>, index: int, entry: EntryModel)
    requires
        0 <= index < entries.len(),
        entry.bytes == entries[index].bytes,
    ensures
        bytes_of(entries.update(index, entry)) == bytes_of(entries),
    decreases entries.len(),
{
    let changed = entries.update(index, entry);
    if index == entries.len() - 1 {
        assert(changed.drop_last() =~= entries.drop_last());
    } else {
        lemma_bytes_update(entries.drop_last(), index, entry);
        assert(changed.drop_last() =~= entries.drop_last().update(index, entry));
        assert(changed.last() == entries.last());
    }
}

/// The bytes that the lists of paths of such lengths have, where each path has a record besides its
/// name.
pub open spec fn list_bytes(lengths: Seq<usize>, record: usize) -> int
    decreases lengths.len(),
{
    if lengths.len() == 0 {
        0
    } else {
        list_bytes(lengths.drop_last(), record) + record + lengths.last()
    }
}

/// The bytes of a list of paths of such lengths, or the largest number where that is too small.
pub fn approximate_bytes(lengths: &[usize], record: usize) -> (result: usize)
    ensures
        result == (if list_bytes(lengths@, record) <= usize::MAX {
            list_bytes(lengths@, record)
        } else {
            usize::MAX as int
        }),
{
    let mut total: usize = 0;
    let mut index: usize = 0;
    assert(lengths@.subrange(0, 0) =~= Seq::<usize>::empty());
    while index < lengths.len()
        invariant
            index <= lengths.len(),
            0 <= list_bytes(lengths@.subrange(0, index as int), record),
            total == (if list_bytes(lengths@.subrange(0, index as int), record) <= usize::MAX {
                list_bytes(lengths@.subrange(0, index as int), record)
            } else {
                usize::MAX as int
            }),
        decreases lengths.len() - index,
    {
        proof {
            let here = lengths@.subrange(0, index + 1);
            assert(here.last() == lengths@[index as int]);
            assert(here.drop_last() =~= lengths@.subrange(0, index as int));
        }
        total = total.saturating_add(record).saturating_add(lengths[index]);
        index += 1;
    }
    assert(lengths@.subrange(0, lengths@.len() as int) =~= lengths@);
    total
}

/// Whether a list is worth keeping and still true: it has enough files and not too many, nothing below
/// its roots changed while it was made, the ignore files are the same, and so are the roots.
pub open spec fn can_commit(
    key: KeyModel,
    started: Seq<RootIdentity>,
    count: usize,
    dirty: bool,
    fresh: Option<IgnoreSnapshot>,
    identities: Option<Vec<RootIdentity>>,
) -> bool {
    &&& MIN_PATHS_PER_ENTRY <= count <= MAX_PATHS_PER_ENTRY
    &&& !dirty
    &&& search_cache::snapshot_current(key, fresh)
    &&& identities matches Some(list) && list@ == started
}

impl CacheBuild {
    /// Whether a list is worth keeping and still true.
    pub fn may_commit(
        &self,
        count: usize,
        dirty: bool,
        fresh: &Option<IgnoreSnapshot>,
        identities: &Option<Vec<RootIdentity>>,
    ) -> (result: bool)
        ensures
            result == can_commit(
                self.key@,
                self.root_identities@,
                count,
                dirty,
                *fresh,
                *identities,
            ),
    {
        if count < MIN_PATHS_PER_ENTRY || count > MAX_PATHS_PER_ENTRY || dirty
            || !self.key.ignore_snapshot_is_current(fresh) {
            return false;
        }
        self.roots_are_current(identities)
    }

    /// Whether the roots are the directories that they were at the start.
    pub fn roots_are_current(&self, identities: &Option<Vec<RootIdentity>>) -> (result: bool)
        ensures
            result == (identities matches Some(list) && list@ == self.root_identities@),
    {
        match identities {
            Some(list) => identities_equal(list, &self.root_identities),
            None => false,
        }
    }
}

impl CacheState {
    pub open spec fn wf(self) -> bool {
        &&& self.total_bytes == bytes_of(self@.entries)
        &&& within_limits(self@.entries)
    }

    /// A memory of nothing.
    pub fn new() -> (result: Self)
        ensures
            result.wf(),
            result@.entries.len() == 0,
            result@.clock == 0,
    {
        CacheState { entries: Vec::new(), clock: 0, total_bytes: 0 }
    }

    /// The list that is kept under a key.
    fn position(&self, key: &FileListCacheKey) -> (result: Option<usize>)
        ensures
            match result {
                Some(index) => index < self.entries@.len() && entry_index(self@.entries, key@, 0)
                    == Some(index as int),
                None => entry_index(self@.entries, key@, 0) is None,
            },
    {
        let ghost models = self@.entries;
        let mut index: usize = 0;
        while index < self.entries.len()
            invariant
                index <= self.entries.len(),
                models == entry_models(self.entries@),
                models == self@.entries,
                entry_index(models, key@, 0) == entry_index(models, key@, index as int),
            decreases self.entries.len() - index,
        {
            assert(models[index as int] == self.entries[index as int]@);
            if search_cache::keys_equal(&self.entries[index].key, key) {
                return Some(index);
            }
            index += 1;
        }
        None
    }

    /// The number of the list that is kept under a key.
    pub fn list_of(&self, key: &FileListCacheKey) -> (result: Option<u64>)
        ensures
            result == match entry_index(self@.entries, key@, 0) {
                Some(i) => Some(self@.entries[i].list),
                None => None,
            },
    {
        match self.position(key) {
            Some(index) => {
                assert(self@.entries[index as int] == self.entries[index as int]@);
                Some(self.entries[index].list)
            },
            None => None,
        }
    }

    /// Looks for a list. It is given out only where the ignore files are as they were, nothing below
    /// the roots changed, and the roots are the same directories.
    pub fn lookup(
        &mut self,
        key: &FileListCacheKey,
        fresh: &Option<IgnoreSnapshot>,
        identities: &Option<Vec<RootIdentity>>,
        dirty: bool,
    ) -> (result: LookupAnswer)
        requires
            old(self).wf(),
        ensures
            final(self).wf(),
            (final(self)@, result) == looked_up(
                old(self)@,
                key@,
                search_cache::snapshot_current(key@, *fresh),
                match *identities {
                    Some(list) => Some(list@),
                    None => None,
                },
                dirty,
            ),
    {
        if !key.ignore_snapshot_is_current(fresh) {
            return LookupAnswer::Miss;
        }
        let identities: &Vec<RootIdentity> = match identities {
            Some(list) => list,
            None => {
                return LookupAnswer::Miss;
            },
        };
        let ghost before = self@.entries;
        match self.position(key) {
            Some(index) => {
                proof {
                    assert(before[index as int] == self.entries[index as int]@);
                    assert(bytes_are_natural(before));
                    lemma_bytes_bound(before, index as int);
                }
                if dirty || !identities_equal(&self.entries[index].root_identities, identities) {
                    let list: u64 = self.entries[index].list;
                    let bytes: usize = self.entries[index].approximate_bytes;
                    proof {
                        lemma_bytes_without(before, index as int);
                    }
                    let _ = self.entries.remove(index);
                    self.total_bytes = self.total_bytes - bytes;
                    assert(self@.entries =~= before.remove(index as int));
                    return LookupAnswer::Stale(list);
                }
                let clock: u64 = self.clock.wrapping_add(1);
                assert(clock == tick(self.clock));
                let list: u64 = self.entries[index].list;
                let mut entry: CacheEntry = self.entries.remove(index);
                entry.last_used = clock;
                self.entries.insert(index, entry);
                self.clock = clock;
                proof {
                    let changed = EntryModel { last_used: clock, ..before[index as int] };
                    assert(self@.entries =~= before.update(index as int, changed));
                    lemma_bytes_update(before, index as int, changed);
                }
                LookupAnswer::Hit(list)
            },
            None => {
                self.clock = self.clock.wrapping_add(1);
                assert(self@.entries =~= before);
                LookupAnswer::Miss
            },
        }
    }

    /// Keeps a list. It takes the place of any under the same key, and those that were not used for
    /// longest make room for it. The result holds the numbers of the lists that are to be dropped.
    pub fn commit(&mut self, build: CacheBuild, list: u64, bytes: usize) -> (result: Vec<u64>)
        requires
            old(self).wf(),
        ensures
            final(self).wf(),
            bytes > MAX_TOTAL_BYTES ==> result@ == seq![list] && final(self)@ == old(self)@,
            bytes <= MAX_TOTAL_BYTES ==> {
                let entry = EntryModel {
                    key: build.key@,
                    list,
                    bytes: bytes as int,
                    identities: build.root_identities@,
                    last_used: 0,
                };
                &&& final(self)@ == committed(old(self)@, entry)
                &&& result@ == dropped(old(self)@, entry)
            },
    {
        if bytes > MAX_TOTAL_BYTES {
            let mut refused: Vec<u64> = Vec::new();
            refused.push(list);
            assert(refused@ =~= seq![list]);
            return refused;
        }
        let ghost start = self@;
        let ghost entry = EntryModel {
            key: build.key@,
            list,
            bytes: bytes as int,
            identities: build.root_identities@,
            last_used: 0,
        };
        let clock: u64 = self.clock.wrapping_add(1);
        assert(clock == tick(self.clock));
        self.clock = clock;
        let mut removed: Vec<u64> = self.forget(&build.key);
        let ghost kept = self@.entries;
        let ghost newest = EntryModel { last_used: clock, ..entry };
        self.total_bytes = self.total_bytes + bytes;
        self.entries.push(
            CacheEntry {
                key: build.key,
                list,
                approximate_bytes: bytes,
                root_identities: build.root_identities,
                last_used: clock,
            },
        );
        proof {
            assert(self@.entries =~= kept.push(newest));
            assert(kept.push(newest).drop_last() =~= kept);
        }
        let ghost all = self@.entries;
        let ghost first = removed@;
        assert(first + Seq::<u64>::empty() =~= first);
        while self.entries.len() > MAX_CACHE_ENTRIES || self.total_bytes > MAX_TOTAL_BYTES
            invariant
                self.total_bytes == bytes_of(self@.entries),
                self.clock == clock,
                trimmed(all) == trimmed(self@.entries),
                first + trimmed_lists(all) == removed@ + trimmed_lists(self@.entries),
            decreases self.entries.len(),
        {
            let ghost before = self@.entries;
            if self.entries.len() == 0 {
                assert(before =~= Seq::<EntryModel>::empty());
            }
            let index: usize = self.oldest_index();
            proof {
                lemma_oldest(before);
                assert(before[index as int] == self.entries[index as int]@);
                assert(bytes_are_natural(before));
                lemma_bytes_bound(before, index as int);
                lemma_bytes_without(before, index as int);
            }
            let freed: usize = self.entries[index].approximate_bytes;
            let ghost sofar = removed@;
            removed.push(self.entries[index].list);
            let _ = self.entries.remove(index);
            self.total_bytes = self.total_bytes - freed;
            proof {
                assert(self@.entries =~= before.remove(index as int));
                let number = before[index as int].list;
                assert(removed@ + trimmed_lists(self@.entries) =~= sofar + (seq![number]
                    + trimmed_lists(self@.entries)));
            }
        }
        proof {
            assert(removed@ + Seq::<u64>::empty() =~= removed@);
        }
        removed
    }

    /// Takes out the lists under a key, and gives their numbers.
    fn forget(&mut self, key: &FileListCacheKey) -> (result: Vec<u64>)
        requires
            old(self).wf(),
        ensures
            final(self).wf(),
            final(self)@.entries == others(old(self)@.entries, key@),
            final(self)@.clock == old(self)@.clock,
            result@ == lists_under(old(self)@.entries, key@),
    {
        let ghost all = self@.entries;
        let mut kept: Vec<CacheEntry> = Vec::new();
        let mut removed: Vec<u64> = Vec::new();
        let mut index: usize = 0;
        let mut total: usize = 0;
        assert(all.subrange(0, 0) =~= Seq::<EntryModel>::empty());
        assert(entry_models(kept@) =~= Seq::<EntryModel>::empty());
        let count: usize = self.entries.len();
        proof {
            assert(bytes_are_natural(all));
            lemma_others_bytes(all, key@);
        }
        while index < count
            invariant
                index <= count == all.len(),
                self.entries@.len() == count - index,
                entry_models(self.entries@) == all.subrange(index as int, count as int),
                entry_models(kept@) == others(all.subrange(0, index as int), key@),
                removed@ == lists_under(all.subrange(0, index as int), key@),
                total == bytes_of(entry_models(kept@)),
                bytes_of(all) <= MAX_TOTAL_BYTES,
                bytes_are_natural(all),
                self.clock == old(self).clock,
            decreases count - index,
        {
            proof {
                let here = all.subrange(0, index + 1);
                assert(here.last() == all[index as int]);
                assert(here.drop_last() =~= all.subrange(0, index as int));
                assert(entry_models(self.entries@)[0] == all[index as int]);
                lemma_others_bound(all, key@, index + 1);
            }
            let ghost rest = entry_models(self.entries@);
            let entry: CacheEntry = self.entries.remove(0);
            assert(entry@ == all[index as int]);
            proof {
                assert forall|i: int| 0 <= i < self.entries@.len() implies entry_models(
                    self.entries@,
                )[i] == #[trigger] all.subrange(index + 1, count as int)[i] by {
                    assert(rest[i + 1] == all.subrange(index as int, count as int)[i + 1]);
                }
                assert(entry_models(self.entries@) =~= all.subrange(index + 1, count as int));
            }
            let ghost before = entry_models(kept@);
            if search_cache::keys_equal(&entry.key, key) {
                removed.push(entry.list);
            } else {
                let ghost model = entry@;
                let size: usize = entry.approximate_bytes;
                proof {
                    assert(before.push(model).drop_last() =~= before);
                }
                kept.push(entry);
                assert(entry_models(kept@) =~= before.push(model));
                total = total + size;
            }
            index += 1;
        }
        proof {
            assert(all.subrange(0, all.len() as int) =~= all);
        }
        self.entries = kept;
        self.total_bytes = total;
        removed
    }

    /// The list that was not used for longest.
    fn oldest_index(&self) -> (result: usize)
        requires
            self.entries@.len() > 0,
        ensures
            result == oldest(self@.entries),
            result < self.entries@.len(),
    {
        let ghost all = self@.entries;
        let mut best: usize = 0;
        let mut index: usize = 1;
        while index < self.entries.len()
            invariant
                1 <= index <= self.entries.len(),
                best < index,
                all == self@.entries,
                best == oldest(all.subrange(0, index as int)),
            decreases self.entries.len() - index,
        {
            proof {
                let here = all.subrange(0, index + 1);
                assert(here.last() == self.entries[index as int]@);
                assert(here.drop_last() =~= all.subrange(0, index as int));
                assert(here[best as int] == self.entries[best as int]@);
            }
            if self.entries[index].last_used < self.entries[best].last_used {
                best = index;
            }
            index += 1;
        }
        assert(all.subrange(0, all.len() as int) =~= all);
        best
    }

    /// Forgets all lists, and gives their numbers.
    pub fn clear(&mut self) -> (result: Vec<u64>)
        requires
            old(self).wf(),
        ensures
            final(self).wf(),
            final(self)@.entries.len() == 0,
            final(self)@.clock == old(self)@.clock,
            result@ == Seq::new(
                old(self)@.entries.len(),
                |i: int| old(self)@.entries[i].list,
            ),
    {
        let mut removed: Vec<u64> = Vec::new();
        let mut index: usize = 0;
        while index < self.entries.len()
            invariant
                index <= self.entries.len(),
                *self == *old(self),
                removed@.len() == index,
                forall|i: int| 0 <= i < index ==> removed@[i] == (#[trigger] self.entries@[i]).list,
            decreases self.entries.len() - index,
        {
            removed.push(self.entries[index].list);
            index += 1;
        }
        proof {
            assert forall|i: int| 0 <= i < removed@.len() implies removed@[i] == (
            #[trigger] old(self)@.entries[i]).list by {
                assert(old(self)@.entries[i] == self.entries@[i]@);
            }
            assert(removed@ =~= Seq::new(
                old(self)@.entries.len(),
                |i: int| old(self)@.entries[i].list,
            ));
        }
        self.entries = Vec::new();
        self.total_bytes = 0;
        removed
    }
}

proof fn lemma_others_bytes(entries: Seq<EntryModel>, key: KeyModel)
    requires
        bytes_are_natural(entries),
    ensures
        0 <= bytes_of(others(entries, key)) <= bytes_of(entries),
        others(entries, key).len() <= entries.len(),
    decreases entries.len(),
{
    if entries.len() > 0 {
        let front = entries.drop_last();
        assert forall|i: int| 0 <= i < front.len() implies (#[trigger] front[i]).bytes >= 0 by {
            assert(front[i] == entries[i]);
        }
        lemma_others_bytes(front, key);
        assert(entries[entries.len() - 1].bytes >= 0);
        if !search_cache::same_key(entries.last().key, key) {
            let kept = others(front, key);
            assert(kept.push(entries.last()).drop_last() =~= kept);
        }
    }
}

proof fn lemma_others_bound(entries: Seq<EntryModel>, key: KeyModel, count: int)
    requires
        0 <= count <= entries.len(),
        bytes_are_natural(entries),
    ensures
        bytes_of(others(entries.subrange(0, count), key)) <= bytes_of(entries),
    decreases entries.len() - count,
{
    let here = entries.subrange(0, count);
    assert forall|i: int| 0 <= i < here.len() implies (#[trigger] here[i]).bytes >= 0 by {
        assert(here[i] == entries[i]);
    }
    lemma_others_bytes(here, key);
    if count == entries.len() {
        assert(here =~= entries);
    } else {
        let next = entries.subrange(0, count + 1);
        assert(next.drop_last() =~= here);
        assert(next.last() == entries[count]);
        lemma_partial_bytes(entries, count);
    }
}

proof fn lemma_partial_bytes(entries: Seq<EntryModel>, count: int)
    requires
        0 <= count <= entries.len(),
        bytes_are_natural(entries),
    ensures
        bytes_of(entries.subrange(0, count)) <= bytes_of(entries),
    decreases entries.len() - count,
{
    if count == entries.len() {
        assert(entries.subrange(0, count) =~= entries);
    } else {
        let next = entries.subrange(0, count + 1);
        assert(next.drop_last() =~= entries.subrange(0, count));
        assert(next.last() == entries[count]);
        lemma_partial_bytes(entries, count + 1);
    }
}

/// Whether an entry is one of those before the last.
spec fn is_before_last(entries: Seq<EntryModel>, entry: EntryModel) -> bool {
    exists|j: int| 0 <= j < entries.len() - 1 && #[trigger] entries[j] == entry
}

proof fn lemma_newest_stays(entries: Seq<EntryModel>)
    requires
        entries.len() > 0,
        entries.last().bytes <= MAX_TOTAL_BYTES,
        forall|i: int|
            0 <= i < entries.len() - 1 ==> (#[trigger] entries[i]).last_used
                < entries.last().last_used,
    ensures
        trimmed(entries).len() > 0,
        trimmed(entries).last() == entries.last(),
        forall|i: int|
            0 <= i < trimmed(entries).len() - 1 ==> is_before_last(
                entries,
                #[trigger] trimmed(entries)[i],
            ),
    decreases entries.len(),
{
    if within_limits(entries) {
        assert(trimmed(entries) == entries);
        assert forall|i: int| 0 <= i < entries.len() - 1 implies is_before_last(
            entries,
            #[trigger] trimmed(entries)[i],
        ) by {
            assert(entries[i] == trimmed(entries)[i]);
        }
    } else {
        lemma_oldest(entries);
        let index = oldest(entries);
        if entries.len() == 1 {
            assert(entries.drop_last().len() == 0);
            assert(bytes_of(entries.drop_last()) == 0);
            assert(bytes_of(entries) == entries.last().bytes);
        } else if index == entries.len() - 1 {
            assert(entries[0].last_used < entries.last().last_used);
        } else {
            let rest = entries.remove(index);
            assert(rest.last() == entries.last());
            assert forall|i: int| 0 <= i < rest.len() - 1 implies (#[trigger] rest[i]).last_used
                < rest.last().last_used by {
                if i < index {
                    assert(rest[i] == entries[i]);
                } else {
                    assert(rest[i] == entries[i + 1]);
                }
            }
            lemma_newest_stays(rest);
            assert(trimmed(entries) == trimmed(rest));
            assert forall|i: int| 0 <= i < trimmed(entries).len() - 1 implies is_before_last(
                entries,
                #[trigger] trimmed(entries)[i],
            ) by {
                let entry = trimmed(rest)[i];
                assert(is_before_last(rest, entry));
                let k = choose|k: int| 0 <= k < rest.len() - 1 && #[trigger] rest[k] == entry;
                let witness = if k < index {
                    k
                } else {
                    k + 1
                };
                assert(entries[witness] == entry);
            }
        }
    }
}

proof fn lemma_others_differ(entries: Seq<EntryModel>, key: KeyModel)
    ensures
        forall|i: int|
            0 <= i < others(entries, key).len() ==> !search_cache::same_key(
                (#[trigger] others(entries, key)[i]).key,
                key,
            ) && entries.contains(others(entries, key)[i]),
    decreases entries.len(),
{
    if entries.len() > 0 {
        let front = entries.drop_last();
        let kept = others(front, key);
        lemma_others_differ(front, key);
        assert forall|i: int| 0 <= i < others(entries, key).len() implies !search_cache::same_key(
            (#[trigger] others(entries, key)[i]).key,
            key,
        ) && entries.contains(others(entries, key)[i]) by {
            let found = others(entries, key)[i];
            if i < kept.len() {
                assert(found == kept[i]);
                let j = choose|j: int| 0 <= j < front.len() && front[j] == kept[i];
                assert(entries[j] == found);
            } else {
                assert(found == entries.last());
                assert(entries[entries.len() - 1] == found);
            }
        }
    }
}

proof fn lemma_key_is_itself(key: KeyModel)
    ensures
        search_cache::same_key(key, key),
{
}

proof fn lemma_only_last(entries: Seq<EntryModel>, key: KeyModel, from: int)
    requires
        0 <= from < entries.len(),
        search_cache::same_key(entries.last().key, key),
        forall|i: int|
            0 <= i < entries.len() - 1 ==> !search_cache::same_key(
                (#[trigger] entries[i]).key,
                key,
            ),
    ensures
        entry_index(entries, key, from) == Some(entries.len() - 1),
    decreases entries.len() - from,
{
    if from < entries.len() - 1 {
        assert(!search_cache::same_key(entries[from].key, key));
        lemma_only_last(entries, key, from + 1);
    }
}

/// A list that was kept is given out while nothing changed: making room for it never drops it. This
/// holds as long as the clock does not start anew.
pub proof fn kept_list_is_found(state: CacheModel, entry: EntryModel)
    requires
        state.clock < u64::MAX,
        forall|i: int|
            0 <= i < state.entries.len() ==> (#[trigger] state.entries[i]).last_used <= state.clock,
        0 <= entry.bytes <= MAX_TOTAL_BYTES,
    ensures
        looked_up(committed(state, entry), entry.key, true, Some(entry.identities), false).1
            == LookupAnswer::Hit(entry.list),
{
    let newest = EntryModel { last_used: tick(state.clock), ..entry };
    let kept = others(state.entries, entry.key);
    let all = kept.push(newest);
    lemma_others_differ(state.entries, entry.key);
    lemma_key_is_itself(entry.key);
    assert forall|i: int| 0 <= i < all.len() - 1 implies (#[trigger] all[i]).last_used
        < all.last().last_used by {
        assert(all[i] == kept[i]);
        let j = choose|j: int| 0 <= j < state.entries.len() && state.entries[j] == kept[i];
        assert(state.entries[j].last_used <= state.clock);
    }
    lemma_newest_stays(all);
    let after = trimmed(all);
    assert forall|i: int| 0 <= i < after.len() - 1 implies !search_cache::same_key(
        (#[trigger] after[i]).key,
        entry.key,
    ) by {
        let j = choose|j: int| 0 <= j < all.len() - 1 && #[trigger] all[j] == after[i];
        assert(all[j] == kept[j]);
    }
    lemma_only_last(after, entry.key, 0);
}

/// A list is given out only where the ignore files are as they were, nothing below the roots changed,
/// and the roots are the directories that they were when the list was kept.
pub proof fn changed_lists_are_not_given_out(
    state: CacheModel,
    key: KeyModel,
    current: bool,
    identities: Option<Seq<RootIdentity>>,
    dirty: bool,
    list: u64,
)
    requires
        looked_up(state, key, current, identities, dirty).1 == LookupAnswer::Hit(list),
    ensures
        current && !dirty,
        exists|i: int|
            0 <= i < state.entries.len() && (#[trigger] state.entries[i]).list == list
                && search_cache::same_key(state.entries[i].key, key) && identities == Some(
                state.entries[i].identities,
            ),
{
    lemma_index_of(state.entries, key, 0);
}

/// A list that is no longer good is not given out again, where it was the only one under its key.
pub proof fn stale_list_is_gone(
    state: CacheModel,
    key: KeyModel,
    identities: Option<Seq<RootIdentity>>,
    dirty: bool,
    list: u64,
    later: Option<Seq<RootIdentity>>,
)
    requires
        looked_up(state, key, true, identities, dirty).1 == LookupAnswer::Stale(list),
        forall|i: int, j: int|
            0 <= i < j < state.entries.len() ==> !(search_cache::same_key(
                (#[trigger] state.entries[i]).key,
                key,
            ) && search_cache::same_key((#[trigger] state.entries[j]).key, key)),
    ensures
        looked_up(looked_up(state, key, true, identities, dirty).0, key, true, later, false).1
            == LookupAnswer::Miss,
{
    lemma_index_of(state.entries, key, 0);
    let gone = entry_index(state.entries, key, 0)->0;
    let rest = state.entries.remove(gone);
    assert forall|i: int| 0 <= i < rest.len() implies !search_cache::same_key(
        (#[trigger] rest[i]).key,
        key,
    ) by {
        if i < gone {
            assert(rest[i] == state.entries[i]);
        } else {
            assert(rest[i] == state.entries[i + 1]);
        }
    }
    lemma_index_of(rest, key, 0);
}

} // verus!
