//! How `touch` shares its paths among workers and still answers in the order of the paths.

use vstd::prelude::*;
use crate::report;
use crate::report::{io_error_report, metadata_record, FileFacts, IoFailure};
use crate::wire::{EntryRecord, ErrorReport, RecordModel, ReportModel};

verus! {

/// The number of paths from which on workers share them.
pub const PARALLEL_THRESHOLD: usize = 32;

/// The most workers that share paths.
pub const MAX_TOUCH_WORKERS: usize = 16;

/// Whether workers share the paths.
pub fn touches_in_parallel(count: usize) -> (result: bool)
    ensures
        result == (count >= PARALLEL_THRESHOLD),
{
    count >= PARALLEL_THRESHOLD
}

/// The number of workers for a number of paths on a machine that runs `available` at a time.
pub open spec fn workers_for(available: int, count: int) -> int {
    let capped = if available < MAX_TOUCH_WORKERS {
        available
    } else {
        MAX_TOUCH_WORKERS as int
    };
    if capped < count {
        capped
    } else {
        count
    }
}

/// The number of workers for a number of paths on a machine that runs `available` at a time.
pub fn touch_worker_count(available: usize, count: usize) -> (result: usize)
    ensures
        result == workers_for(available as int, count as int),
{
    let capped: usize = if available < MAX_TOUCH_WORKERS {
        available
    } else {
        MAX_TOUCH_WORKERS
    };
    if capped < count {
        capped
    } else {
        count
    }
}

/// At which point touching a path failed.
#[derive(Clone, Copy, Debug, PartialEq, Eq, Structural)]
pub enum TouchStage {
    Touch,
    Metadata,
}

/// What came of touching a path.
#[derive(Debug)]
pub enum TouchOutcome {
    Touched(FileFacts),
    Failed { stage: TouchStage, failure: IoFailure },
}

/// What is told about a path that was touched.
#[derive(Debug)]
pub enum TouchAnswer {
    Show(EntryRecord),
    Report(ErrorReport),
}

/// What is told about a path that was touched.
pub enum AnswerModel {
    Show(RecordModel),
    Report(ReportModel),
}

impl View for TouchAnswer {
    type V = AnswerModel;

    open spec fn view(&self) -> AnswerModel {
        match self {
            TouchAnswer::Show(record) => AnswerModel::Show(record@),
            TouchAnswer::Report(problem) => AnswerModel::Report(problem@),
        }
    }
}

/// What is told about a path that was touched.
pub open spec fn answer_for(path: Seq<char>, outcome: TouchOutcome) -> AnswerModel {
    match outcome {
        TouchOutcome::Touched(facts) => AnswerModel::Show(report::file_record(path, facts)),
        TouchOutcome::Failed { stage, failure } => AnswerModel::Report(
            report::io_report(
                match stage {
                    TouchStage::Touch => "TouchFailed"@,
                    TouchStage::Metadata => "MetadataFailed"@,
                },
                path,
                failure@,
            ),
        ),
    }
}

/// What is told about a path that was touched.
pub fn touch_answer(path: &str, outcome: &TouchOutcome) -> (result: TouchAnswer)
    ensures
        result@ == answer_for(path@, *outcome),
{
    match outcome {
        TouchOutcome::Touched(facts) => TouchAnswer::Show(metadata_record(path, facts)),
        TouchOutcome::Failed { stage, failure } => {
            let code: &str = match stage {
                TouchStage::Touch => "TouchFailed",
                TouchStage::Metadata => "MetadataFailed",
            };
            TouchAnswer::Report(io_error_report(code, path, failure))
        },
    }
}

/// The answers that came, put back in the order of the paths. At most as many paths are given out
/// and not answered as there are workers.
#[derive(Debug)]
pub struct TouchOrder {
    /// What came for each path and was not passed on.
    pub pending: Vec<Option<TouchOutcome>>,
    /// The number of paths that were given out, from the first on.
    pub scheduled: usize,
    /// The number of paths that were answered, from the first on.
    pub next_to_emit: usize,
    pub workers: usize,
}

impl TouchOrder {
    pub open spec fn wf(self) -> bool {
        &&& self.next_to_emit <= self.scheduled <= self.pending.len()
        &&& self.scheduled - self.next_to_emit <= self.workers
        &&& self.scheduled < self.pending.len() ==> self.scheduled - self.next_to_emit
            == self.workers
        &&& forall|i: int|
            0 <= i < self.pending.len() && #[trigger] self.pending[i] is Some ==> self.next_to_emit
                <= i < self.scheduled
    }

    /// Starts with the first `workers` paths given out.
    pub fn new(count: usize, workers: usize) -> (result: Self)
        requires
            workers <= count,
        ensures
            result.wf(),
            result.pending@.len() == count,
            forall|i: int| 0 <= i < count ==> #[trigger] result.pending[i] is None,
            result.scheduled == workers,
            result.next_to_emit == 0,
            result.workers == workers,
    {
        let mut pending: Vec<Option<TouchOutcome>> = Vec::new();
        let mut index: usize = 0;
        while index < count
            invariant
                index <= count,
                pending.len() == index,
                forall|i: int| 0 <= i < index ==> #[trigger] pending[i] is None,
            decreases count - index,
        {
            pending.push(None);
            index += 1;
        }
        TouchOrder { pending, scheduled: workers, next_to_emit: 0, workers }
    }

    /// Takes the answer for a path that was given out.
    pub fn receive(&mut self, index: usize, outcome: TouchOutcome)
        requires
            old(self).wf(),
            old(self).next_to_emit <= index < old(self).scheduled,
        ensures
            final(self).wf(),
            final(self).pending@ == old(self).pending@.update(index as int, Some(outcome)),
            final(self).scheduled == old(self).scheduled,
            final(self).next_to_emit == old(self).next_to_emit,
            final(self).workers == old(self).workers,
    {
        self.pending.set(index, Some(outcome));
    }

    /// The answer for the next path in order, if it came, and the path that is given out in its
    /// place, if one is left.
    pub fn next(&mut self) -> (result: Option<(usize, TouchOutcome, Option<usize>)>)
        requires
            old(self).wf(),
        ensures
            final(self).wf(),
            final(self).workers == old(self).workers,
            final(self).pending@.len() == old(self).pending@.len(),
            match result {
                None => {
                    &&& *final(self) == *old(self)
                    &&& old(self).next_to_emit < old(self).pending@.len() ==> old(
                        self,
                    ).pending[old(self).next_to_emit as int] is None
                },
                Some((index, outcome, job)) => {
                    &&& index == old(self).next_to_emit < old(self).pending@.len()
                    &&& old(self).pending[index as int] == Some(outcome)
                    &&& final(self).pending@ == old(self).pending@.update(index as int, None)
                    &&& final(self).next_to_emit == old(self).next_to_emit + 1
                    &&& if old(self).scheduled < old(self).pending@.len() {
                        &&& job == Some(old(self).scheduled)
                        &&& final(self).scheduled == old(self).scheduled + 1
                    } else {
                        &&& job is None
                        &&& final(self).scheduled == old(self).scheduled
                    }
                },
            },
    {
        if self.next_to_emit >= self.pending.len() {
            return None;
        }
        let index: usize = self.next_to_emit;
        let ghost before = self.pending@;
        if self.pending[index].is_none() {
            return None;
        }
        self.pending.push(None);
        let taken: Option<TouchOutcome> = self.pending.swap_remove(index);
        assert(self.pending@ =~= before.update(index as int, None));
        assert(before[index as int] is Some);
        let outcome: TouchOutcome = match taken {
            Some(outcome) => outcome,
            None => {
                return None;
            },
        };
        self.next_to_emit = index + 1;
        if self.scheduled < self.pending.len() {
            let job: usize = self.scheduled;
            self.scheduled = job + 1;
            Some((index, outcome, Some(job)))
        } else {
            Some((index, outcome, None))
        }
    }

    /// Whether all paths were answered.
    pub fn is_finished(&self) -> (result: bool)
        ensures
            result == (self.next_to_emit >= self.pending@.len()),
    {
        self.next_to_emit >= self.pending.len()
    }
}

} // verus!
