//! When events are sent: batches grow from small to large, entries and texts keep their order, and
//! nothing is sent once the host or the caller has stopped the command.
//!
//! Each operation is a series of steps. A step either is the end of the operation or names bytes to
//! send; the reply to these is handed to `resume`, which gives the next step. `cancelled` says
//! whether the caller has asked to stop by the time of the step.

use vstd::prelude::*;
use crate::wire;
use crate::wire::{
    encode_error, EncodedEntryBatch, EncodedTextBatch, EntryRecord, ErrorReport, RecordModel,
    ReportModel, INITIAL_BATCH_ITEMS, MAX_BATCH_BYTES, MAX_ENTRY_BATCH_ITEMS,
    MAX_TEXT_BATCH_ITEMS,
};

verus! {

/// One thing that an operation has still to do.
pub enum Task {
    FlushEntries,
    FlushTexts,
    AddEntry(EntryRecord),
    AddText(String),
    SendTexts(EncodedTextBatch),
    SendError(ErrorReport),
}

/// One thing that an operation has still to do.
pub enum TaskModel {
    FlushEntries,
    FlushTexts,
    AddEntry(RecordModel),
    AddText(Seq<char>),
    SendTexts(Seq<Seq<char>>),
    SendError(ReportModel),
}

impl View for Task {
    type V = TaskModel;

    open spec fn view(&self) -> TaskModel {
        match self {
            Task::FlushEntries => TaskModel::FlushEntries,
            Task::FlushTexts => TaskModel::FlushTexts,
            Task::AddEntry(entry) => TaskModel::AddEntry(entry@),
            Task::AddText(value) => TaskModel::AddText(value@),
            Task::SendTexts(batch) => TaskModel::SendTexts(batch@),
            Task::SendError(report) => TaskModel::SendError(report@),
        }
    }
}

impl Task {
    pub open spec fn wf(self) -> bool {
        self matches Task::SendTexts(batch) ==> batch.wf() && batch@.len() > 0
    }
}

/// An event that was sent and not answered yet, with the number of its items.
#[derive(Clone, Copy, Debug, PartialEq, Eq, Structural)]
pub enum InFlight {
    Nothing,
    Entries { count: u32 },
    Texts { count: u32 },
    Other,
}

/// One step of an operation.
#[derive(Debug)]
pub enum Step {
    /// These bytes are to be sent, and the reply handed to `resume`.
    Send(Vec<u8>),
    /// The operation is over; `true` where the command goes on.
    Done(bool),
}

/// An event.
pub enum Event {
    Entries(Seq<RecordModel>),
    Texts(Seq<Seq<char>>),
    Error(ReportModel),
}

/// One step of an operation.
pub enum StepModel {
    Send(Event),
    Done(bool),
}

/// The bytes of an event.
pub open spec fn event_bytes(event: Event) -> Seq<u8> {
    match event {
        Event::Entries(entries) => wire::entry_event(entries),
        Event::Texts(values) => wire::text_event(values),
        Event::Error(report) => wire::error_event(report),
    }
}

impl Step {
    /// Whether this is the given step.
    pub open spec fn is(self, step: StepModel) -> bool {
        match step {
            StepModel::Send(event) => self matches Step::Send(bytes) && bytes@ == event_bytes(
                event,
            ),
            StepModel::Done(going) => self == Step::Done(going),
        }
    }
}

/// What is to be sent, and how.
pub struct Emitter {
    pub entries: EncodedEntryBatch,
    pub texts: EncodedTextBatch,
    pub entry_batch_limit: u32,
    pub text_batch_limit: u32,
    pub stopped: bool,
    pub error_count: usize,
    /// What the operation under way has still to do, last first.
    pub agenda: Vec<Task>,
    pub in_flight: InFlight,
}

/// The state of an emitter.
pub struct EmitterModel {
    pub entries: Seq<RecordModel>,
    pub texts: Seq<Seq<char>>,
    pub entry_limit: int,
    pub text_limit: int,
    pub stopped: bool,
    pub error_count: nat,
    /// What the operation under way has still to do, first first.
    pub agenda: Seq<TaskModel>,
    pub in_flight: InFlight,
}

/// What tasks are.
pub open spec fn task_models(tasks: Seq<Task>) -> Seq<TaskModel> {
    Seq::new(tasks.len(), |i: int| tasks[tasks.len() - 1 - i]@)
}

impl View for Emitter {
    type V = EmitterModel;

    open spec fn view(&self) -> EmitterModel {
        EmitterModel {
            entries: self.entries@,
            texts: self.texts@,
            entry_limit: self.entry_batch_limit as int,
            text_limit: self.text_batch_limit as int,
            stopped: self.stopped,
            error_count: self.error_count as nat,
            agenda: task_models(self.agenda@),
            in_flight: self.in_flight,
        }
    }
}

/// A state that is stopped: what waits is dropped, and nothing is left to do.
pub open spec fn halted(state: EmitterModel) -> EmitterModel {
    EmitterModel {
        entries: Seq::empty(),
        texts: Seq::empty(),
        stopped: true,
        agenda: Seq::empty(),
        in_flight: InFlight::Nothing,
        ..state
    }
}

/// The step that sends the entries that wait.
pub open spec fn send_entries(state: EmitterModel, cancelled: bool) -> (EmitterModel, StepModel) {
    if state.stopped || cancelled {
        (halted(state), StepModel::Done(false))
    } else {
        (
            EmitterModel {
                entries: Seq::empty(),
                in_flight: InFlight::Entries { count: state.entries.len() as u32 },
                ..state
            },
            StepModel::Send(Event::Entries(state.entries)),
        )
    }
}

/// The step that sends the texts that wait.
pub open spec fn send_texts(state: EmitterModel, cancelled: bool) -> (EmitterModel, StepModel) {
    if state.stopped || cancelled {
        (halted(state), StepModel::Done(false))
    } else {
        (
            EmitterModel {
                texts: Seq::empty(),
                in_flight: InFlight::Texts { count: state.texts.len() as u32 },
                ..state
            },
            StepModel::Send(Event::Texts(state.texts)),
        )
    }
}

/// The step that sends an event as it is.
pub open spec fn send_event(state: EmitterModel, event: Event, cancelled: bool) -> (
    EmitterModel,
    StepModel,
) {
    if state.stopped || cancelled {
        (halted(state), StepModel::Done(false))
    } else {
        (EmitterModel { in_flight: InFlight::Other, ..state }, StepModel::Send(event))
    }
}

/// Whether the entries that wait make a full batch.
pub open spec fn entries_full(state: EmitterModel) -> bool {
    state.entries.len() >= state.entry_limit || wire::entry_event(state.entries).len()
        >= MAX_BATCH_BYTES
}

/// Whether the texts that wait make a full batch.
pub open spec fn texts_full(state: EmitterModel) -> bool {
    state.texts.len() >= state.text_limit || wire::text_event(state.texts).len() >= MAX_BATCH_BYTES
}

/// The next step: the tasks in order, up to one that sends something.
pub open spec fn run(state: EmitterModel, cancelled: bool) -> (EmitterModel, StepModel)
    decreases state.agenda.len(),
{
    if state.agenda.len() == 0 {
        (state, StepModel::Done(true))
    } else {
        let next = EmitterModel { agenda: state.agenda.drop_first(), ..state };
        match state.agenda[0] {
            TaskModel::FlushEntries => if state.stopped || cancelled {
                (halted(state), StepModel::Done(false))
            } else if state.entries.len() == 0 {
                run(next, cancelled)
            } else {
                send_entries(next, cancelled)
            },
            TaskModel::FlushTexts => if state.stopped || cancelled {
                (halted(state), StepModel::Done(false))
            } else if state.texts.len() == 0 {
                run(next, cancelled)
            } else {
                send_texts(next, cancelled)
            },
            TaskModel::AddEntry(entry) => {
                let added = EmitterModel { entries: state.entries.push(entry), ..next };
                if !wire::fits(entry.path) {
                    (halted(state), StepModel::Done(false))
                } else if entries_full(added) {
                    send_entries(added, cancelled)
                } else {
                    run(added, cancelled)
                }
            },
            TaskModel::AddText(value) => {
                let added = EmitterModel { texts: state.texts.push(value), ..next };
                if !wire::fits(value) {
                    (halted(state), StepModel::Done(false))
                } else if texts_full(added) {
                    send_texts(added, cancelled)
                } else {
                    run(added, cancelled)
                }
            },
            TaskModel::SendTexts(values) => send_event(next, Event::Texts(values), cancelled),
            TaskModel::SendError(report) => if !wire::report_fits(report) {
                (halted(state), StepModel::Done(false))
            } else {
                send_event(next, Event::Error(report), cancelled)
            },
        }
    }
}

/// The first step of an operation.
pub open spec fn started(state: EmitterModel, tasks: Seq<TaskModel>, cancelled: bool) -> (
    EmitterModel,
    StepModel,
) {
    if state.stopped || cancelled {
        (halted(state), StepModel::Done(false))
    } else {
        run(EmitterModel { agenda: tasks, ..state }, cancelled)
    }
}

/// Twice a limit, up to a maximum.
pub open spec fn doubled(limit: int, maximum: u32) -> int {
    if limit * 2 <= maximum {
        limit * 2
    } else {
        maximum as int
    }
}

/// The state once an event was answered. A batch that was full makes the next one larger.
pub open spec fn acknowledged(state: EmitterModel) -> EmitterModel {
    match state.in_flight {
        InFlight::Entries { count } if count >= state.entry_limit => EmitterModel {
            entry_limit: doubled(state.entry_limit, MAX_ENTRY_BATCH_ITEMS),
            in_flight: InFlight::Nothing,
            ..state
        },
        InFlight::Texts { count } if count >= state.text_limit => EmitterModel {
            text_limit: doubled(state.text_limit, MAX_TEXT_BATCH_ITEMS),
            in_flight: InFlight::Nothing,
            ..state
        },
        _ => EmitterModel { in_flight: InFlight::Nothing, ..state },
    }
}

/// The step that follows the answer to an event.
pub open spec fn resumed(state: EmitterModel, refused: bool, cancelled: bool) -> (
    EmitterModel,
    StepModel,
) {
    if refused {
        (halted(state), StepModel::Done(false))
    } else {
        run(acknowledged(state), cancelled)
    }
}

/// The state of an emitter that has sent nothing.
pub open spec fn fresh() -> EmitterModel {
    EmitterModel {
        entries: Seq::empty(),
        texts: Seq::empty(),
        entry_limit: INITIAL_BATCH_ITEMS as int,
        text_limit: INITIAL_BATCH_ITEMS as int,
        stopped: false,
        error_count: 0,
        agenda: Seq::empty(),
        in_flight: InFlight::Nothing,
    }
}

impl Emitter {
    /// The limits are in range, and less than a full batch waits.
    pub open spec fn wf(self) -> bool {
        &&& self.entries.wf()
        &&& self.texts.wf()
        &&& INITIAL_BATCH_ITEMS <= self.entry_batch_limit <= MAX_ENTRY_BATCH_ITEMS
        &&& INITIAL_BATCH_ITEMS <= self.text_batch_limit <= MAX_TEXT_BATCH_ITEMS
        &&& self.entries@.len() < MAX_ENTRY_BATCH_ITEMS
        &&& self.texts@.len() < MAX_TEXT_BATCH_ITEMS
        &&& self.entries@.len() < self.entry_batch_limit
        &&& self.texts@.len() < self.text_batch_limit
        &&& forall|i: int| 0 <= i < self.agenda.len() ==> (#[trigger] self.agenda[i]).wf()
    }

    pub fn new() -> (result: Self)
        ensures
            result.wf(),
            result@ == fresh(),
    {
        let result: Emitter = Emitter {
            entries: EncodedEntryBatch::new(),
            texts: EncodedTextBatch::new(),
            entry_batch_limit: INITIAL_BATCH_ITEMS,
            text_batch_limit: INITIAL_BATCH_ITEMS,
            stopped: false,
            error_count: 0,
            agenda: Vec::new(),
            in_flight: InFlight::Nothing,
        };
        assert(task_models(result.agenda@) =~= Seq::<TaskModel>::empty());
        result
    }

    /// Sends an entry, behind the texts that wait.
    pub fn entry(&mut self, entry: EntryRecord, cancelled: bool) -> (result: Step)
        requires
            old(self).wf(),
        ensures
            final(self).wf(),
            ({
                let (state, step) = started(
                    old(self)@,
                    seq![TaskModel::FlushTexts, TaskModel::AddEntry(entry@)],
                    cancelled,
                );
                final(self)@ == state && result.is(step)
            }),
    {
        if self.is_stopped(cancelled) {
            self.halt();
            return Step::Done(false);
        }
        let ghost tasks = seq![TaskModel::FlushTexts, TaskModel::AddEntry(entry@)];
        let mut agenda: Vec<Task> = Vec::new();
        agenda.push(Task::AddEntry(entry));
        agenda.push(Task::FlushTexts);
        assert(task_models(agenda@) =~= tasks);
        self.agenda = agenda;
        self.advance(cancelled)
    }

    /// Sends a text, behind the entries that wait.
    pub fn text(&mut self, value: String, cancelled: bool) -> (result: Step)
        requires
            old(self).wf(),
        ensures
            final(self).wf(),
            ({
                let (state, step) = started(
                    old(self)@,
                    seq![TaskModel::FlushEntries, TaskModel::AddText(value@)],
                    cancelled,
                );
                final(self)@ == state && result.is(step)
            }),
    {
        if self.is_stopped(cancelled) {
            self.halt();
            return Step::Done(false);
        }
        let ghost tasks = seq![TaskModel::FlushEntries, TaskModel::AddText(value@)];
        let mut agenda: Vec<Task> = Vec::new();
        agenda.push(Task::AddText(value));
        agenda.push(Task::FlushEntries);
        assert(task_models(agenda@) =~= tasks);
        self.agenda = agenda;
        self.advance(cancelled)
    }

    /// Sends a batch of texts as it is, behind all that waits. An empty batch sends nothing.
    pub fn text_batch(&mut self, batch: EncodedTextBatch, cancelled: bool) -> (result: Step)
        requires
            old(self).wf(),
            batch.wf(),
        ensures
            final(self).wf(),
            ({
                let (state, step) = started(
                    old(self)@,
                    if batch@.len() == 0 {
                        Seq::empty()
                    } else {
                        seq![
                            TaskModel::FlushEntries,
                            TaskModel::FlushTexts,
                            TaskModel::SendTexts(batch@),
                        ]
                    },
                    cancelled,
                );
                final(self)@ == state && result.is(step)
            }),
    {
        if self.is_stopped(cancelled) {
            self.halt();
            return Step::Done(false);
        }
        let mut agenda: Vec<Task> = Vec::new();
        if batch.is_empty() {
            assert(task_models(agenda@) =~= Seq::<TaskModel>::empty());
        } else {
            let ghost tasks = seq![
                TaskModel::FlushEntries,
                TaskModel::FlushTexts,
                TaskModel::SendTexts(batch@),
            ];
            agenda.push(Task::SendTexts(batch));
            agenda.push(Task::FlushTexts);
            agenda.push(Task::FlushEntries);
            assert(task_models(agenda@) =~= tasks);
        }
        self.agenda = agenda;
        self.advance(cancelled)
    }

    /// Counts a failure, and sends it behind all that waits.
    pub fn error(&mut self, report: ErrorReport, cancelled: bool) -> (result: Step)
        requires
            old(self).wf(),
            old(self).error_count < usize::MAX,
        ensures
            final(self).wf(),
            ({
                let counted = EmitterModel {
                    error_count: old(self)@.error_count + 1,
                    ..old(self)@
                };
                let (state, step) = started(
                    counted,
                    seq![
                        TaskModel::FlushEntries,
                        TaskModel::FlushTexts,
                        TaskModel::SendError(report@),
                    ],
                    cancelled,
                );
                final(self)@ == state && result.is(step)
            }),
    {
        self.error_count = self.error_count + 1;
        if self.is_stopped(cancelled) {
            self.halt();
            return Step::Done(false);
        }
        let ghost tasks = seq![
            TaskModel::FlushEntries,
            TaskModel::FlushTexts,
            TaskModel::SendError(report@),
        ];
        let mut agenda: Vec<Task> = Vec::new();
        agenda.push(Task::SendError(report));
        agenda.push(Task::FlushTexts);
        agenda.push(Task::FlushEntries);
        assert(task_models(agenda@) =~= tasks);
        self.agenda = agenda;
        self.advance(cancelled)
    }

    /// Sends all that waits.
    pub fn finish(&mut self, cancelled: bool) -> (result: Step)
        requires
            old(self).wf(),
        ensures
            final(self).wf(),
            ({
                let (state, step) = started(
                    old(self)@,
                    seq![TaskModel::FlushEntries, TaskModel::FlushTexts],
                    cancelled,
                );
                final(self)@ == state && result.is(step)
            }),
    {
        if self.is_stopped(cancelled) {
            self.halt();
            return Step::Done(false);
        }
        let mut agenda: Vec<Task> = Vec::new();
        agenda.push(Task::FlushTexts);
        agenda.push(Task::FlushEntries);
        assert(task_models(agenda@) =~= seq![TaskModel::FlushEntries, TaskModel::FlushTexts]);
        self.agenda = agenda;
        self.advance(cancelled)
    }

    /// The step that follows the reply to the bytes that were sent; `refused` where the host wants
    /// no more.
    pub fn resume(&mut self, refused: bool, cancelled: bool) -> (result: Step)
        requires
            old(self).wf(),
        ensures
            final(self).wf(),
            ({
                let (state, step) = resumed(old(self)@, refused, cancelled);
                final(self)@ == state && result.is(step)
            }),
    {
        if refused {
            self.halt();
            return Step::Done(false);
        }
        match self.in_flight {
            InFlight::Entries { count } => {
                if count >= self.entry_batch_limit {
                    self.entry_batch_limit =
                    if self.entry_batch_limit * 2 <= MAX_ENTRY_BATCH_ITEMS {
                        self.entry_batch_limit * 2
                    } else {
                        MAX_ENTRY_BATCH_ITEMS
                    };
                }
            },
            InFlight::Texts { count } => {
                if count >= self.text_batch_limit {
                    self.text_batch_limit =
                    if self.text_batch_limit * 2 <= MAX_TEXT_BATCH_ITEMS {
                        self.text_batch_limit * 2
                    } else {
                        MAX_TEXT_BATCH_ITEMS
                    };
                }
            },
            _ => {},
        }
        self.in_flight = InFlight::Nothing;
        self.advance(cancelled)
    }

    /// Whether the command is stopped.
    pub fn is_stopped(&mut self, cancelled: bool) -> (result: bool)
        requires
            old(self).wf(),
        ensures
            final(self).wf(),
            result == (old(self)@.stopped || cancelled),
            final(self)@ == (EmitterModel { stopped: result, ..old(self)@ }),
    {
        if cancelled {
            self.stopped = true;
        }
        self.stopped
    }

    fn halt(&mut self)
        requires
            INITIAL_BATCH_ITEMS <= old(self).entry_batch_limit <= MAX_ENTRY_BATCH_ITEMS,
            INITIAL_BATCH_ITEMS <= old(self).text_batch_limit <= MAX_TEXT_BATCH_ITEMS,
        ensures
            final(self).wf(),
            final(self)@ == halted(old(self)@),
    {
        self.entries = EncodedEntryBatch::new();
        self.texts = EncodedTextBatch::new();
        self.stopped = true;
        self.agenda = Vec::new();
        self.in_flight = InFlight::Nothing;
        assert(task_models(self.agenda@) =~= Seq::<TaskModel>::empty());
    }

    fn take_entries(&mut self) -> (result: Vec<u8>)
        requires
            old(self).entries.wf(),
        ensures
            result@ == old(self).entries.data@,
            final(self)@ == (EmitterModel { entries: Seq::empty(), ..old(self)@ }),
            final(self).entries.wf(),
            final(self).texts == old(self).texts,
            final(self).agenda == old(self).agenda,
    {
        let mut batch: EncodedEntryBatch = EncodedEntryBatch::new();
        std::mem::swap(&mut batch, &mut self.entries);
        batch.data
    }

    fn take_texts(&mut self) -> (result: Vec<u8>)
        requires
            old(self).texts.wf(),
        ensures
            result@ == old(self).texts.data@,
            final(self)@ == (EmitterModel { texts: Seq::empty(), ..old(self)@ }),
            final(self).texts.wf(),
            final(self).entries == old(self).entries,
            final(self).agenda == old(self).agenda,
    {
        let mut batch: EncodedTextBatch = EncodedTextBatch::new();
        std::mem::swap(&mut batch, &mut self.texts);
        batch.data
    }

    fn advance(&mut self, cancelled: bool) -> (result: Step)
        requires
            old(self).wf(),
        ensures
            final(self).wf(),
            ({
                let (state, step) = run(old(self)@, cancelled);
                final(self)@ == state && result.is(step)
            }),
        decreases old(self).agenda.len(),
    {
        if self.agenda.len() == 0 {
            return Step::Done(true);
        }
        let ghost before = self@;
        let ghost tasks = self.agenda@;
        let task: Task = self.agenda.pop().unwrap();
        proof {
            assert(before.agenda[0] == task@);
            assert(task_models(self.agenda@) =~= before.agenda.drop_first());
            assert(tasks[tasks.len() - 1].wf());
        }
        let ghost next = EmitterModel { agenda: before.agenda.drop_first(), ..before };
        match task {
            Task::FlushEntries => {
                if self.stopped || cancelled {
                    self.halt();
                    return Step::Done(false);
                }
                if self.entries.count == 0 {
                    return self.advance(cancelled);
                }
                let count: u32 = self.entries.count;
                let data: Vec<u8> = self.take_entries();
                self.in_flight = InFlight::Entries { count };
                Step::Send(data)
            },
            Task::FlushTexts => {
                if self.stopped || cancelled {
                    self.halt();
                    return Step::Done(false);
                }
                if self.texts.count == 0 {
                    return self.advance(cancelled);
                }
                let count: u32 = self.texts.count;
                let data: Vec<u8> = self.take_texts();
                self.in_flight = InFlight::Texts { count };
                Step::Send(data)
            },
            Task::AddEntry(entry) => {
                if !self.entries.push(&entry) {
                    self.halt();
                    return Step::Done(false);
                }
                let ghost added = EmitterModel { entries: before.entries.push(entry@), ..next };
                assert(self@ == added);
                if self.entries.count >= self.entry_batch_limit || self.entries.data.len()
                    >= MAX_BATCH_BYTES {
                    if self.stopped || cancelled {
                        self.halt();
                        return Step::Done(false);
                    }
                    let count: u32 = self.entries.count;
                    let data: Vec<u8> = self.take_entries();
                    self.in_flight = InFlight::Entries { count };
                    return Step::Send(data);
                }
                self.advance(cancelled)
            },
            Task::AddText(value) => {
                if !self.texts.push(value.as_str()) {
                    self.halt();
                    return Step::Done(false);
                }
                let ghost added = EmitterModel { texts: before.texts.push(value@), ..next };
                assert(self@ == added);
                if self.texts.count >= self.text_batch_limit || self.texts.data.len()
                    >= MAX_BATCH_BYTES {
                    if self.stopped || cancelled {
                        self.halt();
                        return Step::Done(false);
                    }
                    let count: u32 = self.texts.count;
                    let data: Vec<u8> = self.take_texts();
                    self.in_flight = InFlight::Texts { count };
                    return Step::Send(data);
                }
                self.advance(cancelled)
            },
            Task::SendTexts(batch) => {
                if self.stopped || cancelled {
                    self.halt();
                    return Step::Done(false);
                }
                self.in_flight = InFlight::Other;
                Step::Send(batch.data)
            },
            Task::SendError(report) => match encode_error(&report) {
                None => {
                    self.halt();
                    Step::Done(false)
                },
                Some(data) => {
                    if self.stopped || cancelled {
                        self.halt();
                        return Step::Done(false);
                    }
                    self.in_flight = InFlight::Other;
                    Step::Send(data)
                },
            },
        }
    }
}

/// Nothing is sent once a command is stopped, and it stays stopped.
pub proof fn nothing_is_sent_after_a_stop(
    state: EmitterModel,
    tasks: Seq<TaskModel>,
    cancelled: bool,
)
    requires
        state.stopped,
    ensures
        started(state, tasks, cancelled).1 == StepModel::Done(false),
        started(state, tasks, cancelled).0.stopped,
{
}

/// Cancelling drops what waits: no event is sent, and nothing waits any more.
pub proof fn cancelling_drops_what_waits(state: EmitterModel, tasks: Seq<TaskModel>)
    ensures
        ({
            let (after, step) = started(state, tasks, true);
            &&& step == StepModel::Done(false)
            &&& after.stopped
            &&& after.entries.len() == 0
            &&& after.texts.len() == 0
        }),
{
}

/// A host that refuses an event gets no other one.
pub proof fn refusal_stops_the_command(state: EmitterModel, cancelled: bool)
    ensures
        resumed(state, true, cancelled).1 == StepModel::Done(false),
        resumed(state, true, cancelled).0.stopped,
{
}

/// A text is neither lost nor sent twice nor overtaken: behind the entries that wait, either it is
/// among the texts that wait, or all of these are sent together, in order and with it at the end.
pub proof fn texts_are_sent_in_order(state: EmitterModel, value: Seq<char>)
    requires
        !state.stopped,
        state.entries.len() == 0,
        wire::fits(value),
    ensures
        ({
            let (after, step) = started(
                state,
                seq![TaskModel::FlushEntries, TaskModel::AddText(value)],
                false,
            );
            match step {
                StepModel::Send(event) => event == Event::Texts(state.texts.push(value))
                    && after.texts.len() == 0,
                StepModel::Done(going) => going && after.texts == state.texts.push(value),
            }
        }),
{
    let tasks = seq![TaskModel::FlushEntries, TaskModel::AddText(value)];
    let first = EmitterModel { agenda: tasks, ..state };
    let second = EmitterModel { agenda: tasks.drop_first(), ..first };
    assert(run(first, false) == run(second, false));
    assert(second.agenda[0] == TaskModel::AddText(value));
    let added = EmitterModel {
        texts: state.texts.push(value),
        agenda: second.agenda.drop_first(),
        ..second
    };
    assert(added.agenda.len() == 0);
    assert(run(added, false) == (added, StepModel::Done(true)));
}

/// What waits is sent before a failure is: entries first, or texts where no entry waits.
pub proof fn failures_are_sent_behind_what_waits(state: EmitterModel, report: ReportModel)
    requires
        !state.stopped,
        wire::report_fits(report),
    ensures
        ({
            let tasks = seq![
                TaskModel::FlushEntries,
                TaskModel::FlushTexts,
                TaskModel::SendError(report),
            ];
            let (after, step) = started(state, tasks, false);
            if state.entries.len() > 0 {
                &&& step == StepModel::Send(Event::Entries(state.entries))
                &&& after.agenda == tasks.subrange(1, 3)
            } else if state.texts.len() > 0 {
                &&& step == StepModel::Send(Event::Texts(state.texts))
                &&& after.agenda == tasks.subrange(2, 3)
            } else {
                &&& step == StepModel::Send(Event::Error(report))
                &&& after.agenda.len() == 0
            }
        }),
{
    let tasks = seq![
        TaskModel::FlushEntries,
        TaskModel::FlushTexts,
        TaskModel::SendError(report),
    ];
    let first = EmitterModel { agenda: tasks, ..state };
    let second = EmitterModel { agenda: tasks.drop_first(), ..first };
    let third = EmitterModel { agenda: second.agenda.drop_first(), ..second };
    assert(tasks.drop_first() =~= tasks.subrange(1, 3));
    assert(tasks.drop_first().drop_first() =~= tasks.subrange(2, 3));
    assert(second.agenda[0] == TaskModel::FlushTexts);
    assert(third.agenda[0] == TaskModel::SendError(report));
    if state.entries.len() == 0 {
        assert(run(first, false) == run(second, false));
        if state.texts.len() == 0 {
            assert(run(second, false) == run(third, false));
        }
    }
}

/// The size of batches of texts: it starts at `INITIAL_BATCH_ITEMS` and doubles with each full batch
/// that the host accepts, up to `MAX_TEXT_BATCH_ITEMS`.
pub proof fn batches_grow_by_doubling(state: EmitterModel, count: u32)
    requires
        state.in_flight == (InFlight::Texts { count }),
        INITIAL_BATCH_ITEMS <= state.text_limit <= MAX_TEXT_BATCH_ITEMS,
    ensures
        ({
            let limit = acknowledged(state).text_limit;
            &&& INITIAL_BATCH_ITEMS <= limit <= MAX_TEXT_BATCH_ITEMS
            &&& count < state.text_limit ==> limit == state.text_limit
            &&& count >= state.text_limit && state.text_limit * 2 <= MAX_TEXT_BATCH_ITEMS ==> limit
                == state.text_limit * 2
        }),
        fresh().text_limit == INITIAL_BATCH_ITEMS,
{
}

} // verus!
