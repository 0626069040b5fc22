//! The work that the workers of a walk share.

use std::collections::VecDeque;
use vstd::prelude::*;
use crate::context::{ErrorModel, WalkError};
use crate::expand;
use crate::expand::{DirectoryTask, EntryModel, TaskModel, WalkEntry, WorkItem, WorkModel};

verus! {

/// What a visitor answers.
#[derive(Clone, Copy, Debug, PartialEq, Eq, Structural)]
pub enum WalkControl {
    Continue,
    Quit,
}

/// The work of a walk that several workers share. Each operation is one step under a lock.
#[derive(Debug)]
pub struct WorkQueue {
    /// Files and failures, which are taken before directories.
    pub ready: VecDeque<WorkItem>,
    pub directories: VecDeque<WorkItem>,
    /// The number of workers that hold an item.
    pub active: usize,
    pub stopped: bool,
}

/// What a shared queue of work is.
pub struct QueueModel {
    pub ready: Seq<WorkModel>,
    pub directories: Seq<WorkModel>,
    pub active: nat,
    pub stopped: bool,
}

/// What a worker that asks for work gets.
#[derive(Debug)]
pub enum Taken {
    Item(WorkLease),
    /// There is no work, but another worker may still make some.
    Wait,
    /// The walk is over.
    Done,
}

/// A worker's hold on one item. It ends when the worker is done with the item.
#[derive(Debug)]
pub struct WorkLease {
    pub item: Option<WorkItem>,
}

/// The pieces of work that are directories, in order.
pub open spec fn directories_of(items: Seq<WorkModel>) -> Seq<WorkModel> {
    items.filter(|item: WorkModel| item is Directory)
}

/// The pieces of work that are not directories, in order.
pub open spec fn ready_of(items: Seq<WorkModel>) -> Seq<WorkModel> {
    items.filter(|item: WorkModel| !(item is Directory))
}

/// A queue that holds one more item.
pub open spec fn published(queue: QueueModel, item: WorkModel) -> QueueModel {
    if item is Directory {
        QueueModel { directories: queue.directories.push(item), ..queue }
    } else {
        QueueModel { ready: queue.ready.push(item), ..queue }
    }
}

/// The item that is taken next.
pub open spec fn next_item(queue: QueueModel) -> Option<WorkModel> {
    if queue.ready.len() > 0 {
        Some(queue.ready[0])
    } else if queue.directories.len() > 0 {
        Some(queue.directories[0])
    } else {
        None
    }
}

/// A queue from which the next item was taken.
pub open spec fn taken(queue: QueueModel) -> QueueModel {
    if queue.ready.len() > 0 {
        QueueModel {
            ready: queue.ready.drop_first(),
            active: queue.active + 1,
            ..queue
        }
    } else {
        QueueModel {
            directories: queue.directories.drop_first(),
            active: queue.active + 1,
            ..queue
        }
    }
}

/// A queue that was stopped: no work is left.
pub open spec fn halted(queue: QueueModel) -> QueueModel {
    QueueModel { ready: Seq::empty(), directories: Seq::empty(), stopped: true, ..queue }
}

/// A queue with one worker less that holds an item.
pub open spec fn released(queue: QueueModel) -> QueueModel {
    QueueModel {
        active: if queue.active > 0 {
            (queue.active - 1) as nat
        } else {
            0
        },
        ..queue
    }
}

/// What the items of a deque are.
pub open spec fn deque_models(items: VecDeque<WorkItem>) -> Seq<WorkModel> {
    expand::work_models(items@)
}

impl View for WorkQueue {
    type V = QueueModel;

    open spec fn view(&self) -> QueueModel {
        QueueModel {
            ready: deque_models(self.ready),
            directories: deque_models(self.directories),
            active: self.active as nat,
            stopped: self.stopped,
        }
    }
}

impl WorkQueue {
    pub open spec fn wf(self) -> bool {
        &&& expand::work_wf(self.ready@)
        &&& expand::work_wf(self.directories@)
    }

    /// A queue of the first work.
    pub fn new(items: Vec<WorkItem>) -> (result: Self)
        requires
            expand::work_wf(items@),
        ensures
            result.wf(),
            result@ == (QueueModel {
                ready: ready_of(expand::work_models(items@)),
                directories: directories_of(expand::work_models(items@)),
                active: 0,
                stopped: false,
            }),
    {
        let ghost all = expand::work_models(items@);
        let ghost owned = items@;
        let mut queue: WorkQueue = WorkQueue {
            ready: VecDeque::new(),
            directories: VecDeque::new(),
            active: 0,
            stopped: false,
        };
        let mut left: Vec<WorkItem> = reversed(items);
        let mut count: Ghost<int> = Ghost(0);
        proof {
            reveal(Seq::filter);
            assert(queue@.ready =~= ready_of(all.subrange(0, 0)));
            assert(queue@.directories =~= directories_of(all.subrange(0, 0)));
        }
        while left.len() > 0
            invariant
                0 <= count@ <= owned.len(),
                left.len() == owned.len() - count@,
                all == expand::work_models(owned),
                expand::work_wf(owned),
                forall|i: int|
                    0 <= i < left.len() ==> #[trigger] left[i] == owned[owned.len() - 1 - i],
                queue.wf(),
                queue@.active == 0,
                !queue@.stopped,
                queue@.ready == ready_of(all.subrange(0, count@)),
                queue@.directories == directories_of(all.subrange(0, count@)),
            decreases left.len(),
        {
            let ghost before = queue@;
            assert(left[left.len() - 1] == owned[count@]);
            let item: WorkItem = left.pop().unwrap();
            proof {
                assert(item == owned[count@]);
                assert(all[count@] == item@);
                let next = all.subrange(0, count@ + 1);
                assert(next =~= all.subrange(0, count@).push(item@));
                assert(next.drop_last() =~= all.subrange(0, count@));
                reveal(Seq::filter);
                assert(item.wf());
            }
            queue.put(item);
            proof {
                count@ = count@ + 1;
            }
        }
        assert(all.subrange(0, owned.len() as int) =~= all);
        queue
    }

    fn put(&mut self, item: WorkItem)
        requires
            old(self).wf(),
            item.wf(),
        ensures
            final(self).wf(),
            final(self)@ == published(old(self)@, item@),
    {
        let ghost model = item@;
        let ghost ready = deque_models(self.ready);
        let ghost directories = deque_models(self.directories);
        match item {
            WorkItem::Directory(task) => {
                self.directories.push_back(WorkItem::Directory(task));
                assert(deque_models(self.directories) =~= directories.push(model));
            },
            other => {
                self.ready.push_back(other);
                assert(deque_models(self.ready) =~= ready.push(model));
            },
        }
    }

    /// Takes the next item: files and failures before directories. A worker that finds none waits
    /// as long as another one is at work, and is done otherwise.
    pub fn take(&mut self) -> (result: Taken)
        requires
            old(self).wf(),
            old(self).active < usize::MAX,
        ensures
            final(self).wf(),
            match next_item(old(self)@) {
                Some(item) if !old(self)@.stopped => {
                    &&& result matches Taken::Item(lease)
                    &&& lease.item matches Some(held)
                    &&& held.wf()
                    &&& held@ == item
                    &&& final(self)@ == taken(old(self)@)
                },
                _ => {
                    &&& final(self)@ == old(self)@
                    &&& result is Done == (old(self)@.stopped || old(self)@.active == 0)
                    &&& result is Wait == !(old(self)@.stopped || old(self)@.active == 0)
                },
            },
    {
        if self.stopped {
            return Taken::Done;
        }
        let ghost ready = deque_models(self.ready);
        let ghost directories = deque_models(self.directories);
        if self.ready.len() > 0 {
            let ghost items = self.ready@;
            let item: WorkItem = self.ready.pop_front().unwrap();
            assert(deque_models(self.ready) =~= ready.drop_first());
            assert(items[0].wf());
            assert forall|i: int| 0 <= i < self.ready@.len() implies (
            #[trigger] self.ready@[i]).wf() by {
                assert(self.ready@[i] == items[i + 1]);
            }
            self.active = self.active + 1;
            return Taken::Item(WorkLease { item: Some(item) });
        }
        if self.directories.len() > 0 {
            let ghost items = self.directories@;
            let item: WorkItem = self.directories.pop_front().unwrap();
            assert(deque_models(self.directories) =~= directories.drop_first());
            assert(items[0].wf());
            assert forall|i: int| 0 <= i < self.directories@.len() implies (
            #[trigger] self.directories@[i]).wf() by {
                assert(self.directories@[i] == items[i + 1]);
            }
            self.active = self.active + 1;
            return Taken::Item(WorkLease { item: Some(item) });
        }
        if self.active == 0 {
            Taken::Done
        } else {
            Taken::Wait
        }
    }

    /// Adds an item, and says whether it was taken on; a stopped queue takes on none.
    pub fn publish(&mut self, item: WorkItem) -> (result: bool)
        requires
            old(self).wf(),
            item.wf(),
        ensures
            final(self).wf(),
            result == !old(self)@.stopped,
            final(self)@ == (if old(self)@.stopped {
                old(self)@
            } else {
                published(old(self)@, item@)
            }),
    {
        if self.stopped {
            return false;
        }
        self.put(item);
        true
    }

    /// Ends a worker's hold on an item. `quit` stops the walk and drops the work that is left.
    pub fn complete(&mut self, quit: bool)
        requires
            old(self).wf(),
        ensures
            final(self).wf(),
            final(self)@ == (if quit {
                halted(released(old(self)@))
            } else {
                released(old(self)@)
            }),
    {
        if self.active > 0 {
            self.active = self.active - 1;
        }
        if quit {
            self.halt();
        }
    }

    /// Ends the hold of a worker that broke off, and stops the walk.
    pub fn abandon(&mut self)
        requires
            old(self).wf(),
        ensures
            final(self).wf(),
            final(self)@ == halted(released(old(self)@)),
    {
        if self.active > 0 {
            self.active = self.active - 1;
        }
        self.halt();
    }

    fn halt(&mut self)
        ensures
            final(self).wf(),
            final(self)@ == halted(old(self)@),
    {
        self.stopped = true;
        self.ready.clear();
        self.directories.clear();
        assert(deque_models(self.ready) =~= Seq::<WorkModel>::empty());
        assert(deque_models(self.directories) =~= Seq::<WorkModel>::empty());
    }

    pub fn is_stopped(&self) -> (result: bool)
        ensures
            result == self@.stopped,
    {
        self.stopped
    }
}

/// The same items, last first.
fn reversed(items: Vec<WorkItem>) -> (result: Vec<WorkItem>)
    ensures
        result.len() == items.len(),
        forall|i: int| 0 <= i < result.len() ==> #[trigger] result[i] == items[items.len() - 1 - i],
{
    let ghost all = items@;
    let mut rest: Vec<WorkItem> = items;
    let mut result: Vec<WorkItem> = Vec::new();
    while rest.len() > 0
        invariant
            rest.len() + result.len() == all.len(),
            rest@ == all.subrange(0, rest.len() as int),
            forall|i: int|
                0 <= i < result.len() ==> #[trigger] result[i] == all[all.len() - 1 - i],
        decreases rest.len(),
    {
        let item: WorkItem = rest.pop().unwrap();
        result.push(item);
    }
    result
}

impl WorkLease {
    /// The item that the worker holds.
    pub fn take_item(&mut self) -> (result: WorkItem)
        requires
            old(self).item is Some,
        ensures
            old(self).item == Some(result),
            final(self).item is None,
    {
        self.item.take().unwrap()
    }

    /// Ends the hold.
    pub fn finish(self, queue: &mut WorkQueue, quit: bool)
        requires
            old(queue).wf(),
        ensures
            final(queue).wf(),
            final(queue)@ == (if quit {
                halted(released(old(queue)@))
            } else {
                released(old(queue)@)
            }),
    {
        queue.complete(quit);
    }
}

/// A stopped queue stays stopped and gives out no work.
pub proof fn stopped_queue_gives_no_work(queue: QueueModel)
    ensures
        halted(queue).stopped,
        next_item(halted(queue)) is None,
        released(halted(queue)).stopped,
{
}

/// Every item that is published to a running queue is there to be taken, and no item is taken
/// that is not there: taking removes exactly the next one.
pub proof fn taking_keeps_all_other_work(queue: QueueModel)
    requires
        next_item(queue) is Some,
    ensures
        taken(queue).active == queue.active + 1,
        queue.ready.len() > 0 ==> queue.ready == seq![next_item(queue)->0] + taken(queue).ready
            && taken(queue).directories == queue.directories,
        queue.ready.len() == 0 ==> queue.directories == seq![next_item(queue)->0] + taken(
            queue,
        ).directories && taken(queue).ready == queue.ready,
{
    if queue.ready.len() > 0 {
        assert(queue.ready =~= seq![queue.ready[0]] + queue.ready.drop_first());
    } else {
        assert(queue.directories =~= seq![queue.directories[0]] + queue.directories.drop_first());
    }
}

/// A walk that is pulled entry by entry.
#[derive(Debug)]
pub struct NativeWalk {
    pub pending: VecDeque<WorkItem>,
    pub current_batch: VecDeque<WalkEntry>,
}

/// What a walk that is pulled has left.
pub struct PullModel {
    pub pending: Seq<WorkModel>,
    pub batch: Seq<EntryModel>,
}

/// What pulling gives.
#[derive(Debug)]
pub enum Pulled {
    Entry(WalkEntry),
    Error(WalkError),
    /// A directory is to be gone through; its items are handed back with `expanded`.
    Expand(DirectoryTask),
    Done,
}

/// What pulling gives.
pub enum PulledModel {
    Entry(EntryModel),
    Error(ErrorModel),
    Expand(TaskModel),
    Done,
}

impl View for Pulled {
    type V = PulledModel;

    open spec fn view(&self) -> PulledModel {
        match self {
            Pulled::Entry(entry) => PulledModel::Entry(entry@),
            Pulled::Error(error) => PulledModel::Error(error@),
            Pulled::Expand(task) => PulledModel::Expand(task@),
            Pulled::Done => PulledModel::Done,
        }
    }
}

impl View for NativeWalk {
    type V = PullModel;

    open spec fn view(&self) -> PullModel {
        PullModel {
            pending: expand::work_models(self.pending@),
            batch: expand::entry_models(self.current_batch@),
        }
    }
}

/// What comes next, and what is left then: the files of a batch one by one, and otherwise the next
/// piece of work. Batches without a file are passed over.
pub open spec fn pulled(batch: Seq<EntryModel>, pending: Seq<WorkModel>) -> (PulledModel, PullModel)
    decreases pending.len(),
{
    if batch.len() > 0 {
        (PulledModel::Entry(batch[0]), PullModel { pending, batch: batch.drop_first() })
    } else if pending.len() == 0 {
        (PulledModel::Done, PullModel { pending, batch })
    } else {
        let rest = pending.drop_first();
        match pending[0] {
            WorkModel::Error(error) => (
                PulledModel::Error(error),
                PullModel { pending: rest, batch },
            ),
            WorkModel::Directory(task) => (
                PulledModel::Expand(task),
                PullModel { pending: rest, batch },
            ),
            WorkModel::Files(files) => pulled(files, rest),
        }
    }
}

impl NativeWalk {
    pub open spec fn wf(self) -> bool {
        expand::work_wf(self.pending@)
    }

    /// A walk that starts with the given work.
    pub fn new(initial: Vec<WorkItem>) -> (result: Self)
        requires
            expand::work_wf(initial@),
        ensures
            result.wf(),
            result@ == (PullModel {
                pending: expand::work_models(initial@),
                batch: Seq::empty(),
            }),
    {
        let mut walk: NativeWalk = NativeWalk {
            pending: VecDeque::new(),
            current_batch: VecDeque::new(),
        };
        assert(walk@.pending =~= Seq::<WorkModel>::empty());
        assert(walk@.batch =~= Seq::<EntryModel>::empty());
        walk.expanded(initial);
        assert(walk@.pending =~= expand::work_models(initial@));
        walk
    }

    /// Puts what a directory gave behind the work that is left.
    pub fn expanded(&mut self, items: Vec<WorkItem>)
        requires
            old(self).wf(),
            expand::work_wf(items@),
        ensures
            final(self).wf(),
            final(self)@ == (PullModel {
                pending: old(self)@.pending + expand::work_models(items@),
                batch: old(self)@.batch,
            }),
    {
        let ghost all = items@;
        let ghost before = self.pending@;
        let mut left: Vec<WorkItem> = reversed(items);
        while left.len() > 0
            invariant
                self.current_batch == old(self).current_batch,
                left.len() + self.pending@.len() == before.len() + all.len(),
                self.pending@ == before + all.subrange(0, all.len() - left.len()),
                expand::work_wf(before),
                expand::work_wf(all),
                forall|i: int|
                    0 <= i < left.len() ==> #[trigger] left[i] == all[all.len() - 1 - i],
            decreases left.len(),
        {
            let ghost count = all.len() - left.len();
            assert(left[left.len() - 1] == all[count]);
            let item: WorkItem = left.pop().unwrap();
            let ghost held = self.pending@;
            self.pending.push_back(item);
            assert(self.pending@ =~= before + all.subrange(0, count + 1));
        }
        assert(self.pending@ =~= before + all);
        assert(expand::work_models(self.pending@) =~= expand::work_models(before)
            + expand::work_models(all));
    }

    /// Pulls the next file, failure or directory.
    pub fn next(&mut self) -> (result: Pulled)
        requires
            old(self).wf(),
        ensures
            final(self).wf(),
            (result@, final(self)@) == pulled(old(self)@.batch, old(self)@.pending),
            result matches Pulled::Expand(task) ==> task.wf(),
    {
        let ghost first = self@;
        loop
            invariant
                self.wf(),
                pulled(first.batch, first.pending) == pulled(self@.batch, self@.pending),
                first == old(self)@,
            decreases self.pending@.len(), self.current_batch@.len(),
        {
            let ghost batch = self@.batch;
            let ghost pending = self@.pending;
            let ghost items = self.pending@;
            if self.current_batch.len() > 0 {
                let entry: WalkEntry = self.current_batch.pop_front().unwrap();
                assert(self@.batch =~= batch.drop_first());
                return Pulled::Entry(entry);
            }
            if self.pending.len() == 0 {
                return Pulled::Done;
            }
            let item: WorkItem = self.pending.pop_front().unwrap();
            assert(items[0].wf());
            assert(self@.pending =~= pending.drop_first());
            assert forall|i: int| 0 <= i < self.pending@.len() implies (
            #[trigger] self.pending@[i]).wf() by {
                assert(self.pending@[i] == items[i + 1]);
            }
            match item {
                WorkItem::Error(error) => {
                    return Pulled::Error(error);
                },
                WorkItem::Directory(task) => {
                    return Pulled::Expand(task);
                },
                WorkItem::Files(files) => {
                    let ghost models = expand::entry_models(files@);
                    self.current_batch = deque_of(files);
                    assert(self@.batch =~= models);
                },
            }
        }
    }
}

/// The same files, front first.
fn deque_of(files: Vec<WalkEntry>) -> (result: VecDeque<WalkEntry>)
    ensures
        result@ == files@,
{
    let ghost all = files@;
    let mut rest: Vec<WalkEntry> = files;
    let mut result: VecDeque<WalkEntry> = VecDeque::new();
    while rest.len() > 0
        invariant
            rest@ == all.subrange(0, rest.len() as int),
            result@ == all.subrange(rest.len() as int, all.len() as int),
            rest.len() <= all.len(),
        decreases rest.len(),
    {
        let entry: WalkEntry = rest.pop().unwrap();
        result.push_front(entry);
        assert(result@ =~= all.subrange(rest.len() as int, all.len() as int));
    }
    assert(all.subrange(0, all.len() as int) =~= all);
    result
}

/// What a worker is to do with an item, until it is done.
#[derive(Debug)]
pub enum WorkerStep {
    /// Show one file or failure to the visitor.
    VisitEntry(WalkEntry),
    VisitError(WalkError),
    /// Go through a directory and publish what it gives.
    Expand(DirectoryTask),
    /// End the hold on the item; `quit` stops the walk, and the worker with it.
    Finish { quit: bool },
}

/// A worker on one item.
#[derive(Debug)]
pub struct Worker {
    pub files: VecDeque<WalkEntry>,
    pub quit: bool,
}

impl Worker {
    /// What is left to show.
    pub open spec fn left(self) -> Seq<EntryModel> {
        expand::entry_models(self.files@)
    }

    /// Takes up an item. A failure and a directory are one step each; files come one by one with
    /// `next`.
    pub fn start(item: WorkItem) -> (result: (Self, WorkerStep))
        requires
            item.wf(),
        ensures
            !result.0.quit,
            match item@ {
                WorkModel::Error(error) => (result.1 matches WorkerStep::VisitError(shown)
                    && shown@ == error) && result.0.left().len() == 0,
                WorkModel::Directory(task) => (result.1 matches WorkerStep::Expand(given)
                    && given@ == task && given.wf()) && result.0.left().len() == 0,
                WorkModel::Files(files) => if files.len() == 0 {
                    result.1 == (WorkerStep::Finish { quit: false }) && result.0.left().len() == 0
                } else {
                    (result.1 matches WorkerStep::VisitEntry(entry) && entry@ == files[0])
                        && result.0.left() == files.drop_first()
                },
            },
    {
        match item {
            WorkItem::Error(error) => (
                Worker { files: VecDeque::new(), quit: false },
                WorkerStep::VisitError(error),
            ),
            WorkItem::Directory(task) => (
                Worker { files: VecDeque::new(), quit: false },
                WorkerStep::Expand(task),
            ),
            WorkItem::Files(files) => {
                let ghost models = expand::entry_models(files@);
                let mut worker: Worker = Worker { files: deque_of(files), quit: false };
                assert(worker.left() =~= models);
                let step: WorkerStep = worker.next(WalkControl::Continue);
                (worker, step)
            },
        }
    }

    /// What follows the visitor's answer: the next file, or the end of the item. A visitor that
    /// quits sees no further file.
    pub fn next(&mut self, answer: WalkControl) -> (result: WorkerStep)
        ensures
            if old(self).quit || answer == WalkControl::Quit {
                &&& result == (WorkerStep::Finish { quit: true })
                &&& final(self).quit
            } else if old(self).left().len() == 0 {
                &&& result == (WorkerStep::Finish { quit: false })
                &&& !final(self).quit
                &&& final(self).left().len() == 0
            } else {
                &&& result matches WorkerStep::VisitEntry(entry)
                &&& entry@ == old(self).left()[0]
                &&& final(self).left() == old(self).left().drop_first()
                &&& !final(self).quit
            },
    {
        if self.quit || answer == WalkControl::Quit {
            self.quit = true;
            return WorkerStep::Finish { quit: true };
        }
        let ghost left = self.left();
        if self.files.len() == 0 {
            return WorkerStep::Finish { quit: false };
        }
        let entry: WalkEntry = self.files.pop_front().unwrap();
        assert(self.left() =~= left.drop_first());
        WorkerStep::VisitEntry(entry)
    }
}

} // verus!
