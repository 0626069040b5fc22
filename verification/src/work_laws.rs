//! How work is divided, given out and handed on.

use vstd::prelude::*;
use crate::emitter;
use crate::emitter::{EmitterModel, Event, InFlight, StepModel, TaskModel};
use crate::expand::{EntryModel, WorkModel};
use crate::queue;
use crate::queue::{PulledModel, QueueModel};
use crate::rg;
use crate::rg::{RgActionModel, RgEvent, RgPhase};
use crate::search;
use crate::search::ProbeKind;
use crate::search_args::OptionsModel;
use crate::sink;
use crate::sink::{SinkModel, SinkStepModel};
use crate::touch;
use crate::touch::{AnswerModel, TouchOutcome};
use crate::wire;
use crate::wire::RecordModel;

verus! {

/// Paths are touched by as many workers as there are paths, and as run at a time, up to sixteen.
pub proof fn touching_takes_few_workers(available: int, count: int)
    ensures
        ({
            let workers = touch::workers_for(available, count);
            &&& workers <= available
            &&& workers <= count
            &&& workers <= 16
            &&& workers == available || workers == count || workers == 16
        }),
{
}

/// A path that was touched is shown under its own name. A failure is told with the path and with what
/// the host said, under a name that says at which point it came.
pub proof fn touched_path_is_told(path: Seq<char>, outcome: TouchOutcome)
    ensures
        match (outcome, touch::answer_for(path, outcome)) {
            (TouchOutcome::Touched(facts), AnswerModel::Show(record)) => {
                &&& record.path == path
                &&& record.readonly == facts.readonly
                &&& record.length == (if facts.is_file {
                    Some(facts.length)
                } else {
                    None
                })
            },
            (TouchOutcome::Failed { stage, failure }, AnswerModel::Report(report)) => {
                &&& report.path == Some(path)
                &&& report.message == path + ": "@ + failure@.message
                &&& stage is Touch ==> report.code == "TouchFailed"@
                &&& stage is Metadata ==> report.code == "MetadataFailed"@
            },
            _ => false,
        },
{
}

/// A search on slow storage takes as many workers as run at a time, up to twelve. On fast storage it
/// takes at least as many, and more only where the machine has more cores, up to twenty.
pub proof fn workers_follow_the_cores(logical: int, physical: int)
    requires
        logical >= 1,
    ensures
        ({
            let slow = search::thread_count(logical, physical, false);
            let fast = search::thread_count(logical, physical, true);
            &&& slow <= logical && slow <= 12
            &&& slow == logical || slow == 12
            &&& slow <= fast <= logical
            &&& fast <= 20
            &&& fast > slow ==> fast <= physical
            &&& fast == logical || fast == 12 || fast == 20 || fast == physical
            &&& fast < logical && fast < 20 ==> fast >= physical
        }),
{
}

/// A machine that tells of no worker has one.
pub proof fn one_worker_is_always_there(logical: int, physical: int, fast_storage: bool)
    requires
        logical < 1,
    ensures
        search::thread_count(logical, physical, fast_storage) == 1,
{
}

/// One more entry makes enough work to divide with the sixty-fifth file or the two hundred and
/// fifty-seventh entry, where it cannot be told, and where it is a link that is followed. Otherwise a
/// directory is looked into, and anything else is passed by.
pub proof fn each_entry_is_weighed(files: int, entries: int, kind: ProbeKind, follow: bool)
    requires
        0 <= files <= 64,
        0 <= entries,
    ensures
        ({
            let step = search::probe_step(files, entries, kind, follow);
            &&& entries >= 256 ==> step is Parallel
            &&& files == 64 && kind is File ==> step is Parallel
            &&& kind is Failed ==> step is Parallel
            &&& follow && kind is Symlink ==> step is Parallel
            &&& entries < 256 && kind is Directory ==> step is LookInto
            &&& entries < 256 && kind is File && files < 64 ==> step is Next
            &&& entries < 256 && kind is Symlink && !follow ==> step is Next
        }),
{
}

/// A file is read to its end unless one match is enough, or some of the matches are.
pub proof fn limits_stop_the_reading(options: OptionsModel)
    ensures
        options.files_with_matches ==> !search::reads_to_the_end(options),
        options.max_count is Some ==> !search::reads_to_the_end(options),
        !options.files_with_matches && options.max_count is None ==> search::reads_to_the_end(options),
{
}

/// A search shows paths where it has several roots or a directory, whichever way it goes through the
/// files.
pub proof fn paths_are_shown_where_files_differ(
    root_count: usize,
    to_the_end: bool,
    some_directory: bool,
    parallel: bool,
    list: Option<u64>,
    begun: bool,
)
    ensures
        ({
            let shown = root_count >= 2 || some_directory;
            let (asking, looked) = rg::rg_next(
                root_count,
                to_the_end,
                RgPhase::Looking,
                RgEvent::RootsSeen { some_directory, parallel },
            );
            let (beginning, asked) = rg::rg_next(
                root_count,
                to_the_end,
                asking,
                RgEvent::ListFound(list),
            );
            let (_, begins) = rg::rg_next(
                root_count,
                to_the_end,
                beginning,
                RgEvent::ListBegun(begun),
            );
            if !parallel {
                looked matches RgActionModel::SearchInOrder { include_path, sequential_hint }
                    && include_path == shown && sequential_hint == (to_the_end && !some_directory)
            } else if list is Some {
                looked is AskForList && asked == (RgActionModel::SearchList {
                    include_path: shown,
                    list: list->0,
                })
            } else {
                looked is AskForList && asked is BeginList && begins == (RgActionModel::SearchWalk {
                    include_path: shown,
                    collect: begun,
                })
            }
        }),
{
}

/// A list is kept after a walk exactly where it was to be kept and all of its files were noted.
pub proof fn complete_lists_are_kept(root_count: usize, to_the_end: bool, keeps: bool, collected: bool)
    ensures
        ({
            let (_, action) = rg::rg_next(
                root_count,
                to_the_end,
                RgPhase::Walking { keeps },
                RgEvent::Walked { collected },
            );
            &&& keeps && collected ==> action is KeepList
            &&& !keeps || !collected ==> action is Done
        }),
{
}

/// An entry is neither lost nor overtaken: either it waits behind those that wait, or all of these are
/// sent together with it at the end. They are sent once they are as many as the limit, or half a
/// mebibyte.
pub proof fn entries_are_sent_in_order(state: EmitterModel, entry: RecordModel)
    requires
        !state.stopped,
        state.texts.len() == 0,
        wire::fits(entry.path),
    ensures
        ({
            let all = state.entries.push(entry);
            let (after, step) = emitter::started(
                state,
                seq![TaskModel::FlushTexts, TaskModel::AddEntry(entry)],
                false,
            );
            if all.len() < state.entry_limit && wire::entry_event(all).len() < 524_288 {
                step == StepModel::Done(true) && after.entries == all && !after.stopped
            } else {
                step == StepModel::Send(Event::Entries(all)) && after.entries.len() == 0
            }
        }),
{
    let tasks = seq![TaskModel::FlushTexts, TaskModel::AddEntry(entry)];
    let first = EmitterModel { agenda: tasks, ..state };
    let second = EmitterModel { agenda: tasks.drop_first(), ..first };
    assert(emitter::run(first, false) == emitter::run(second, false));
    assert(second.agenda[0] == TaskModel::AddEntry(entry));
    let added = EmitterModel {
        entries: state.entries.push(entry),
        agenda: second.agenda.drop_first(),
        ..second
    };
    assert(added.agenda.len() == 0);
    assert(emitter::run(added, false) == (added, StepModel::Done(true)));
}

/// Texts are sent once they are as many as the limit, or half a mebibyte, and wait otherwise.
pub proof fn full_batches_of_texts_are_sent(state: EmitterModel, value: Seq<char>)
    requires
        !state.stopped,
        state.entries.len() == 0,
        wire::fits(value),
    ensures
        ({
            let all = state.texts.push(value);
            let (after, step) = emitter::started(
                state,
                seq![TaskModel::FlushEntries, TaskModel::AddText(value)],
                false,
            );
            if all.len() < state.text_limit && wire::text_event(all).len() < 524_288 {
                step == StepModel::Done(true) && after.texts == all && !after.stopped
            } else {
                step == StepModel::Send(Event::Texts(all)) && after.texts.len() == 0
            }
        }),
{
    let tasks = seq![TaskModel::FlushEntries, TaskModel::AddText(value)];
    let first = EmitterModel { agenda: tasks, ..state };
    let second = EmitterModel { agenda: tasks.drop_first(), ..first };
    assert(emitter::run(first, false) == emitter::run(second, false));
    assert(second.agenda[0] == TaskModel::AddText(value));
    let added = EmitterModel {
        texts: state.texts.push(value),
        agenda: second.agenda.drop_first(),
        ..second
    };
    assert(added.agenda.len() == 0);
    assert(emitter::run(added, false) == (added, StepModel::Done(true)));
}

/// What cannot be sent stops the command: nothing waits any more, and nothing is sent.
pub proof fn what_is_too_long_stops_the_command(state: EmitterModel, entry: RecordModel, value: Seq<char>)
    requires
        !state.stopped,
        state.entries.len() == 0,
        state.texts.len() == 0,
    ensures
        !wire::fits(entry.path) ==> {
            let (after, step) = emitter::started(
                state,
                seq![TaskModel::FlushTexts, TaskModel::AddEntry(entry)],
                false,
            );
            step == StepModel::Done(false) && after.stopped
        },
        !wire::fits(value) ==> {
            let (after, step) = emitter::started(
                state,
                seq![TaskModel::FlushEntries, TaskModel::AddText(value)],
                false,
            );
            step == StepModel::Done(false) && after.stopped
        },
{
    let entry_tasks = seq![TaskModel::FlushTexts, TaskModel::AddEntry(entry)];
    let entry_first = EmitterModel { agenda: entry_tasks, ..state };
    let entry_second = EmitterModel { agenda: entry_tasks.drop_first(), ..entry_first };
    assert(emitter::run(entry_first, false) == emitter::run(entry_second, false));
    assert(entry_second.agenda[0] == TaskModel::AddEntry(entry));
    let text_tasks = seq![TaskModel::FlushEntries, TaskModel::AddText(value)];
    let text_first = EmitterModel { agenda: text_tasks, ..state };
    let text_second = EmitterModel { agenda: text_tasks.drop_first(), ..text_first };
    assert(emitter::run(text_first, false) == emitter::run(text_second, false));
    assert(text_second.agenda[0] == TaskModel::AddText(value));
}

/// Batches start with sixteen items. Each full one that the host takes doubles the next, up to 256
/// entries and 1024 texts; any other leaves the limits as they are.
pub proof fn batches_grow_when_they_are_full(state: EmitterModel, count: u32)
    requires
        16 <= state.entry_limit <= 256,
        16 <= state.text_limit <= 1024,
    ensures
        emitter::fresh().entry_limit == 16,
        emitter::fresh().text_limit == 16,
        ({
            let after = emitter::acknowledged(
                EmitterModel { in_flight: InFlight::Entries { count }, ..state },
            );
            &&& after.text_limit == state.text_limit
            &&& count < state.entry_limit ==> after.entry_limit == state.entry_limit
            &&& count >= state.entry_limit && state.entry_limit <= 128 ==> after.entry_limit
                == state.entry_limit + state.entry_limit
            &&& count >= state.entry_limit && state.entry_limit > 128 ==> after.entry_limit == 256
        }),
        ({
            let after = emitter::acknowledged(
                EmitterModel { in_flight: InFlight::Texts { count }, ..state },
            );
            &&& after.entry_limit == state.entry_limit
            &&& count < state.text_limit ==> after.text_limit == state.text_limit
            &&& count >= state.text_limit && state.text_limit <= 512 ==> after.text_limit
                == state.text_limit + state.text_limit
            &&& count >= state.text_limit && state.text_limit > 512 ==> after.text_limit == 1024
        }),
        ({
            let after = emitter::acknowledged(
                EmitterModel { in_flight: InFlight::Other, ..state },
            );
            after.entry_limit == state.entry_limit && after.text_limit == state.text_limit
        }),
{
}

/// What is sent is counted as it is sent, so that a batch below its limit is not taken for a full one.
pub proof fn batches_are_counted(state: EmitterModel)
    requires
        !state.stopped,
        0 < state.texts.len() < 0x1_0000_0000,
        0 < state.entries.len() < 0x1_0000_0000,
    ensures
        ({
            let (after, step) = emitter::started(state, seq![TaskModel::FlushEntries], false);
            step == StepModel::Send(Event::Entries(state.entries)) && (after.in_flight matches
                InFlight::Entries { count } && count == state.entries.len())
        }),
        ({
            let (after, step) = emitter::started(state, seq![TaskModel::FlushTexts], false);
            step == StepModel::Send(Event::Texts(state.texts)) && (after.in_flight matches
                InFlight::Texts { count } && count == state.texts.len())
        }),
{
    let entry_tasks = seq![TaskModel::FlushEntries];
    let text_tasks = seq![TaskModel::FlushTexts];
    assert(entry_tasks[0] == TaskModel::FlushEntries);
    assert(text_tasks[0] == TaskModel::FlushTexts);
}

/// The output for a file is handed on once it is as many texts as the limit, or 64 kibibytes. Before
/// that the worker awaits its turn, unless it has it already.
pub proof fn full_chunks_are_handed_on(state: SinkModel, value: Seq<char>)
    requires
        wire::fits(value),
        state.texts.len() < 0xffff_ffff,
    ensures
        ({
            let all = state.texts.push(value);
            let (after, step) = sink::pushing(state, value, false);
            &&& after.holds_gate == state.holds_gate
            &&& after.limit == state.limit
            &&& if all.len() < state.limit && wire::text_event(all).len() < 65_536 {
                step == SinkStepModel::Done(true) && after.texts == all
            } else if state.holds_gate {
                step == SinkStepModel::Send(all) && after.texts.len() == 0 && after.sending
                    == all.len()
            } else {
                step == SinkStepModel::AwaitGate && after.texts == all
            }
        }),
{
}

/// A full chunk doubles the next one, up to 256 texts; any other leaves the limit as it is.
pub proof fn chunks_grow_when_they_are_full(state: SinkModel)
    requires
        16 <= state.limit <= 256,
    ensures
        ({
            let limit = sink::chunk_sent(state).limit;
            &&& state.sending < state.limit ==> limit == state.limit
            &&& state.sending >= state.limit && state.limit <= 128 ==> limit == state.limit
                + state.limit
            &&& state.sending >= state.limit && state.limit > 128 ==> limit == 256
        }),
        sink::chunk_sent(state).texts == state.texts,
        sink::chunk_sent(state).holds_gate == state.holds_gate,
{
}

/// Files and failures are taken before directories, and the first that came of each is taken first.
pub proof fn directories_wait(queue: QueueModel, item: WorkModel)
    ensures
        queue.ready.len() > 0 ==> queue::next_item(queue::published(queue, item))
            == queue::next_item(queue),
        queue.ready.len() == 0 && !(item is Directory) ==> queue::next_item(
            queue::published(queue, item),
        ) == Some(item),
        queue.ready.len() == 0 && queue.directories.len() == 0 ==> queue::next_item(
            queue::published(queue, item),
        ) == Some(item),
        queue.ready.len() == 0 && queue.directories.len() > 0 && item is Directory
            ==> queue::next_item(queue::published(queue, item)) == Some(queue.directories[0]),
        queue::published(queue, item).active == queue.active,
        queue::published(queue, item).stopped == queue.stopped,
{
}

/// One item that is published and one that is taken leave as many as there were; as many workers are
/// at work as took an item and did not give it back.
pub proof fn work_is_counted(queue: QueueModel, item: WorkModel)
    ensures
        ({
            let after = queue::published(queue, item);
            after.ready.len() + after.directories.len() == queue.ready.len()
                + queue.directories.len() + 1
        }),
        queue::next_item(queue) is None == (queue.ready.len() + queue.directories.len() == 0),
        queue::next_item(queue) is Some ==> {
            let after = queue::taken(queue);
            &&& after.ready.len() + after.directories.len() + 1 == queue.ready.len()
                + queue.directories.len()
            &&& queue::released(after).active == queue.active
        },
{
}

/// The files of a batch come one by one, in their order, before any other work.
pub proof fn files_come_in_order(files: Seq<EntryModel>, pending: Seq<WorkModel>)
    requires
        files.len() > 0,
    ensures
        ({
            let (first, left) = queue::pulled(files, pending);
            &&& first == PulledModel::Entry(files[0])
            &&& left.batch == files.subrange(1, files.len() as int)
            &&& left.pending == pending
        }),
        queue::pulled(Seq::empty(), seq![WorkModel::Files(files)] + pending) == queue::pulled(
            files,
            pending,
        ),
{
    let all = seq![WorkModel::Files(files)] + pending;
    assert(all.drop_first() =~= pending);
    assert(all[0] == WorkModel::Files(files));
    assert(files.drop_first() =~= files.subrange(1, files.len() as int));
    assert(Seq::<EntryModel>::empty().len() == 0);
    assert(queue::pulled(Seq::empty(), all) == queue::pulled(files, all.drop_first()));
}

/// Work without a file to give comes in its order too, and the walk is over once none is left.
pub proof fn other_work_comes_in_order(item: WorkModel, pending: Seq<WorkModel>)
    ensures
        ({
            let (first, left) = queue::pulled(Seq::empty(), seq![item] + pending);
            match item {
                WorkModel::Error(error) => first == PulledModel::Error(error) && left.pending
                    == pending && left.batch.len() == 0,
                WorkModel::Directory(task) => first == PulledModel::Expand(task) && left.pending
                    == pending && left.batch.len() == 0,
                WorkModel::Files(files) => files.len() == 0 ==> (first, left) == queue::pulled(
                    Seq::empty(),
                    pending,
                ),
            }
        }),
        queue::pulled(Seq::empty(), Seq::empty()).0 is Done,
{
    let all = seq![item] + pending;
    assert(all.drop_first() =~= pending);
    assert(all[0] == item);
    if let WorkModel::Files(files) = item {
        if files.len() == 0 {
            assert(files =~= Seq::empty());
        }
    }
}

/// A worker that gives back more than was taken leaves nobody at work.
pub proof fn workers_are_never_fewer_than_none(queue: QueueModel)
    ensures
        queue.active == 0 ==> queue::released(queue).active == 0,
        queue.active > 0 ==> queue::released(queue).active + 1 == queue.active,
        queue::released(queue).ready == queue.ready,
        queue::released(queue).directories == queue.directories,
{
}

/// Each event is sent as its own bytes.
pub proof fn events_are_sent_as_they_are(
    entries: Seq<RecordModel>,
    texts: Seq<Seq<char>>,
    report: wire::ReportModel,
)
    ensures
        emitter::event_bytes(Event::Entries(entries)) == wire::entry_event(entries),
        emitter::event_bytes(Event::Texts(texts)) == wire::text_event(texts),
        emitter::event_bytes(Event::Error(report)) == wire::error_event(report),
{
}

/// A command that is cancelled while an event is under way sends no other one, and what waits is
/// dropped.
pub proof fn cancelling_stops_what_is_under_way(state: EmitterModel, report: wire::ReportModel)
    requires
        state.agenda == seq![TaskModel::FlushEntries] || state.agenda == seq![TaskModel::FlushTexts]
            || state.agenda == seq![TaskModel::SendError(report)] || state.agenda
            == seq![TaskModel::SendTexts(state.texts)],
    ensures
        ({
            let (after, step) = emitter::resumed(state, false, true);
            &&& step == StepModel::Done(false)
            &&& after.stopped
            &&& after.entries.len() == 0
            &&& after.texts.len() == 0
            &&& after.agenda.len() == 0
        }),
{
    assert(state.agenda.len() == 1);
}

/// A command that has sent nothing is not stopped, and nothing waits.
pub proof fn commands_start_afresh()
    ensures
        !emitter::fresh().stopped,
        emitter::fresh().entries.len() == 0,
        emitter::fresh().texts.len() == 0,
        emitter::fresh().error_count == 0,
{
}

/// A line that is too long for an event ends the output, and what waits goes on waiting.
pub proof fn long_lines_end_the_output(state: SinkModel, value: Seq<char>)
    requires
        !wire::fits(value),
    ensures
        ({
            let (after, step) = sink::pushing(state, value, false);
            step == SinkStepModel::Failed(sink::SinkError::LineTooLong) && after.texts == state.texts
        }),
{
}

/// What waits at the end of a file is handed on, once it is the worker's turn.
pub proof fn rest_is_handed_on(state: SinkModel)
    requires
        state.texts.len() > 0,
    ensures
        state.holds_gate ==> sink::flushing(state, false).1 == SinkStepModel::Send(state.texts),
        !state.holds_gate ==> sink::flushing(state, false).1 == SinkStepModel::AwaitGate,
        sink::flushing(SinkModel { texts: Seq::empty(), ..state }, false).1 == SinkStepModel::Done(
            true,
        ),
{
}

} // verus!
