//! What `rg` prints for the lines that it finds, and how workers hand it on.

use vstd::prelude::*;
use vstd::utf8::*;
use crate::ascii::LINE_FEED;
use crate::chars;
use crate::chars::push_decimal;
use crate::lines;
use crate::text;
use crate::text::{lossy_text, strip_carriage_return};
use crate::wire;
use crate::wire::EncodedTextBatch;

verus! {

/// The number of bytes at which a worker hands its output on.
pub const MAX_CHUNK_BYTES: usize = 65_536;

/// The number of texts in the first chunk of a worker's output.
pub const INITIAL_CHUNK_ITEMS: u32 = 16;

/// The most texts in a chunk of a worker's output.
pub const MAX_CHUNK_ITEMS: u32 = 256;

/// The text of a line, without its ending and with a replacement character for what is not text.
pub fn decode_line(bytes: &[u8]) -> (result: String)
    ensures
        result@ == text::lossy(lines::without_line_ending(bytes@)),
        valid_utf8(lines::without_line_ending(bytes@)) ==> result@ == decode_utf8(
            lines::without_line_ending(bytes@),
        ),
{
    if bytes.len() > 0 && bytes[bytes.len() - 1] == LINE_FEED {
        assert(bytes@.subrange(0, bytes.len() - 1) =~= bytes@.drop_last());
        lossy_text(strip_carriage_return(&bytes[0..bytes.len() - 1]))
    } else {
        lossy_text(bytes)
    }
}

/// What is printed for a line: the path and the number where they are asked for, each with the
/// separator behind it, and the line.
pub open spec fn search_line(
    path: Seq<char>,
    include_path: bool,
    line_number_enabled: bool,
    line: Seq<char>,
    line_number: nat,
    separator: char,
) -> Seq<char> {
    let path_part = if include_path {
        path.push(separator)
    } else {
        Seq::empty()
    };
    let number_part = if line_number_enabled {
        chars::decimal(line_number).push(separator)
    } else {
        Seq::empty()
    };
    path_part + number_part + line
}

/// What is printed for a line.
pub fn format_search_line(
    path: &str,
    include_path: bool,
    line_number_enabled: bool,
    bytes: &[u8],
    line_number: u64,
    separator: char,
) -> (result: String)
    ensures
        result@ == search_line(
            path@,
            include_path,
            line_number_enabled,
            text::lossy(lines::without_line_ending(bytes@)),
            line_number as nat,
            separator,
        ),
        valid_utf8(lines::without_line_ending(bytes@)) ==> result@ == search_line(
            path@,
            include_path,
            line_number_enabled,
            decode_utf8(lines::without_line_ending(bytes@)),
            line_number as nat,
            separator,
        ),
{
    let line: String = decode_line(bytes);
    let ghost shown = line@;
    if !include_path && !line_number_enabled {
        assert(Seq::<char>::empty() + Seq::<char>::empty() + shown =~= shown);
        return line;
    }
    let mut output: String = String::new();
    assert(output@ =~= Seq::<char>::empty());
    if include_path {
        output.append(path);
        assert(output@ =~= path@);
    }
    if line_number_enabled {
        if include_path {
            output.push(separator);
        }
        push_decimal(&mut output, line_number);
    }
    output.push(separator);
    output.append(line.as_str());
    assert(output@ =~= search_line(
        path@,
        include_path,
        line_number_enabled,
        shown,
        line_number as nat,
        separator,
    ));
    output
}

/// What is printed for the number of matches in a file.
pub open spec fn count_line(path: Seq<char>, include_path: bool, count: nat) -> Seq<char> {
    if include_path {
        path + ":"@ + chars::decimal(count)
    } else {
        chars::decimal(count)
    }
}

/// What is printed for the number of matches in a file.
pub fn format_count(path: &str, include_path: bool, count: u64) -> (result: String)
    ensures
        result@ == count_line(path@, include_path, count as nat),
{
    let mut output: String = String::new();
    assert(output@ =~= Seq::<char>::empty());
    if include_path {
        output.append(path);
        output.append(":");
        assert(output@ =~= path@ + ":"@);
    }
    push_decimal(&mut output, count);
    assert(Seq::<char>::empty() + chars::decimal(count as nat) =~= chars::decimal(count as nat));
    output
}

/// How the lines of one file are printed.
#[derive(Debug)]
pub struct LineFormat {
    pub path: String,
    pub include_path: bool,
    pub line_number: bool,
    pub files_with_matches: bool,
    pub count_only: bool,
}

/// What a line that was found makes.
#[derive(Debug)]
pub enum LineOutput {
    /// Print this and go on, unless printing ends the search.
    Print(String),
    /// Print this, and end with this file.
    PrintAndEnd(String),
    /// Print nothing, and go on unless the search was stopped.
    Nothing,
}

/// What a line that was found makes.
pub enum OutputModel {
    Print(Seq<char>),
    PrintAndEnd(Seq<char>),
    Nothing,
}

impl View for LineOutput {
    type V = OutputModel;

    open spec fn view(&self) -> OutputModel {
        match self {
            LineOutput::Print(value) => OutputModel::Print(value@),
            LineOutput::PrintAndEnd(value) => OutputModel::PrintAndEnd(value@),
            LineOutput::Nothing => OutputModel::Nothing,
        }
    }
}

impl LineFormat {
    /// What a matching line makes: the path where only paths are asked for, nothing where only the
    /// number is, and the line otherwise.
    pub fn matched(&self, bytes: &[u8], line_number: u64) -> (result: LineOutput)
        ensures
            result@ == (if self.files_with_matches {
                OutputModel::PrintAndEnd(self.path@)
            } else if self.count_only {
                OutputModel::Nothing
            } else {
                OutputModel::Print(
                    search_line(
                        self.path@,
                        self.include_path,
                        self.line_number,
                        text::lossy(lines::without_line_ending(bytes@)),
                        line_number as nat,
                        ':',
                    ),
                )
            }),
    {
        if self.files_with_matches {
            LineOutput::PrintAndEnd(self.path.clone())
        } else if self.count_only {
            LineOutput::Nothing
        } else {
            LineOutput::Print(
                format_search_line(
                    self.path.as_str(),
                    self.include_path,
                    self.line_number,
                    bytes,
                    line_number,
                    ':',
                ),
            )
        }
    }

    /// What a line near a matching one makes.
    pub fn context(&self, bytes: &[u8], line_number: u64) -> (result: LineOutput)
        ensures
            result@ == (if self.files_with_matches || self.count_only {
                OutputModel::Nothing
            } else {
                OutputModel::Print(
                    search_line(
                        self.path@,
                        self.include_path,
                        self.line_number,
                        text::lossy(lines::without_line_ending(bytes@)),
                        line_number as nat,
                        '-',
                    ),
                )
            }),
    {
        if self.files_with_matches || self.count_only {
            LineOutput::Nothing
        } else {
            LineOutput::Print(
                format_search_line(
                    self.path.as_str(),
                    self.include_path,
                    self.line_number,
                    bytes,
                    line_number,
                    '-',
                ),
            )
        }
    }

    /// What a gap between lines makes.
    pub fn context_break(&self) -> (result: LineOutput)
        ensures
            result@ == (if self.files_with_matches || self.count_only {
                OutputModel::Nothing
            } else {
                OutputModel::Print("--"@)
            }),
    {
        if self.files_with_matches || self.count_only {
            LineOutput::Nothing
        } else {
            LineOutput::Print("--".to_owned())
        }
    }
}

/// Why a worker's output cannot be handed on.
#[derive(Clone, Copy, Debug, PartialEq, Eq, Structural)]
pub enum SinkError {
    LineTooLong,
    ReceiverClosed,
}

/// The message of such an error.
pub open spec fn sink_error_text(error: SinkError) -> Seq<char> {
    match error {
        SinkError::LineTooLong => "rg の出力行が大きすぎます"@,
        SinkError::ReceiverClosed => "rg output receiver closed"@,
    }
}

impl SinkError {
    pub fn message(self) -> (result: String)
        ensures
            result@ == sink_error_text(self),
    {
        match self {
            SinkError::LineTooLong => "rg の出力行が大きすぎます".to_owned(),
            SinkError::ReceiverClosed => "rg output receiver closed".to_owned(),
        }
    }
}

/// One step of handing output on.
pub enum SinkStep {
    /// The operation is over; `true` where the search goes on.
    Done(bool),
    Failed(SinkError),
    /// Wait for the turn to hand output on, and call `acquire_output_gate` then.
    AwaitGate,
    /// Hand this on, and call `sent` with the outcome.
    Send(EncodedTextBatch),
}

/// One step of handing output on.
pub enum SinkStepModel {
    Done(bool),
    Failed(SinkError),
    AwaitGate,
    Send(Seq<Seq<char>>),
}

impl View for SinkStep {
    type V = SinkStepModel;

    open spec fn view(&self) -> SinkStepModel {
        match self {
            SinkStep::Done(going) => SinkStepModel::Done(*going),
            SinkStep::Failed(error) => SinkStepModel::Failed(*error),
            SinkStep::AwaitGate => SinkStepModel::AwaitGate,
            SinkStep::Send(batch) => SinkStepModel::Send(batch@),
        }
    }
}

impl SinkStep {
    pub open spec fn wf(self) -> bool {
        self matches SinkStep::Send(batch) ==> batch.wf()
    }
}

/// The output of one worker for one file. It is handed on in chunks that grow, and once the first
/// chunk was handed on the worker keeps the turn until the end of the file, so that the output of
/// different files does not mix.
pub struct StreamingSearchSink {
    pub batch: EncodedTextBatch,
    pub batch_limit: u32,
    pub holds_gate: bool,
    /// The number of texts in the chunk that is being handed on.
    pub sending: u32,
    /// Whether the chunk is handed on because it is full, and not at the end.
    pub pushing: bool,
}

/// The state of a worker's output.
pub struct SinkModel {
    pub texts: Seq<Seq<char>>,
    pub limit: int,
    pub holds_gate: bool,
    pub sending: int,
    pub pushing: bool,
}

impl View for StreamingSearchSink {
    type V = SinkModel;

    open spec fn view(&self) -> SinkModel {
        SinkModel {
            texts: self.batch@,
            limit: self.batch_limit as int,
            holds_gate: self.holds_gate,
            sending: self.sending as int,
            pushing: self.pushing,
        }
    }
}

/// Handing on what waits.
pub open spec fn sending(state: SinkModel) -> (SinkModel, SinkStepModel) {
    (
        SinkModel { texts: Seq::empty(), sending: state.texts.len() as int, ..state },
        SinkStepModel::Send(state.texts),
    )
}

/// The first step of handing on what waits.
pub open spec fn flushing(state: SinkModel, stopped: bool) -> (SinkModel, SinkStepModel) {
    if state.texts.len() == 0 {
        (state, SinkStepModel::Done(!stopped))
    } else if stopped {
        (state, SinkStepModel::Done(false))
    } else if !state.holds_gate {
        (state, SinkStepModel::AwaitGate)
    } else {
        sending(state)
    }
}

/// Whether what waits makes a full chunk.
pub open spec fn chunk_full(state: SinkModel) -> bool {
    state.texts.len() >= state.limit || wire::text_event(state.texts).len() >= MAX_CHUNK_BYTES
}

/// The first step of adding a text.
pub open spec fn pushing(state: SinkModel, value: Seq<char>, stopped: bool) -> (
    SinkModel,
    SinkStepModel,
) {
    let added = SinkModel { texts: state.texts.push(value), pushing: true, ..state };
    if stopped {
        (SinkModel { pushing: true, ..state }, SinkStepModel::Done(false))
    } else if state.texts.len() >= u32::MAX || !wire::fits(value) {
        (SinkModel { pushing: true, ..state }, SinkStepModel::Failed(SinkError::LineTooLong))
    } else if chunk_full(added) {
        flushing(added, stopped)
    } else {
        (added, SinkStepModel::Done(true))
    }
}

/// The state once a chunk was handed on. A full one makes the next one larger.
pub open spec fn chunk_sent(state: SinkModel) -> SinkModel {
    SinkModel {
        limit: if state.sending < state.limit {
            state.limit
        } else if state.limit * 2 <= MAX_CHUNK_ITEMS {
            state.limit * 2
        } else {
            MAX_CHUNK_ITEMS as int
        },
        sending: 0,
        ..state
    }
}

impl StreamingSearchSink {
    pub open spec fn wf(self) -> bool {
        &&& self.batch.wf()
        &&& INITIAL_CHUNK_ITEMS <= self.batch_limit <= MAX_CHUNK_ITEMS
    }

    pub fn new() -> (result: Self)
        ensures
            result.wf(),
            result@ == (SinkModel {
                texts: Seq::empty(),
                limit: INITIAL_CHUNK_ITEMS as int,
                holds_gate: false,
                sending: 0,
                pushing: false,
            }),
    {
        StreamingSearchSink {
            batch: EncodedTextBatch::new(),
            batch_limit: INITIAL_CHUNK_ITEMS,
            holds_gate: false,
            sending: 0,
            pushing: false,
        }
    }

    fn send(&mut self) -> (result: SinkStep)
        requires
            old(self).wf(),
        ensures
            final(self).wf(),
            result.wf(),
            (final(self)@, result@) == sending(old(self)@),
    {
        self.sending = self.batch.count;
        let mut batch: EncodedTextBatch = EncodedTextBatch::new();
        std::mem::swap(&mut batch, &mut self.batch);
        SinkStep::Send(batch)
    }

    fn start_flush(&mut self, stopped: bool) -> (result: SinkStep)
        requires
            old(self).wf(),
        ensures
            final(self).wf(),
            result.wf(),
            (final(self)@, result@) == flushing(old(self)@, stopped),
    {
        if self.batch.is_empty() {
            SinkStep::Done(!stopped)
        } else if stopped {
            SinkStep::Done(false)
        } else if !self.holds_gate {
            SinkStep::AwaitGate
        } else {
            self.send()
        }
    }

    /// Adds a text, and hands the chunk on where it is full.
    pub fn push_text(&mut self, value: &str, stopped: bool) -> (result: SinkStep)
        requires
            old(self).wf(),
        ensures
            final(self).wf(),
            result.wf(),
            (final(self)@, result@) == pushing(old(self)@, value@, stopped),
    {
        self.pushing = true;
        if stopped {
            return SinkStep::Done(false);
        }
        if !self.batch.push(value) {
            return SinkStep::Failed(SinkError::LineTooLong);
        }
        if self.batch.count() >= self.batch_limit || self.batch.len() >= MAX_CHUNK_BYTES {
            return self.start_flush(stopped);
        }
        SinkStep::Done(true)
    }

    /// Hands on what waits.
    pub fn flush(&mut self, stopped: bool) -> (result: SinkStep)
        requires
            old(self).wf(),
        ensures
            final(self).wf(),
            result.wf(),
            (final(self)@, result@) == flushing(
                SinkModel { pushing: false, ..old(self)@ },
                stopped,
            ),
    {
        self.pushing = false;
        self.start_flush(stopped)
    }

    /// The step that follows once it is the worker's turn; the turn is given up where the search
    /// was stopped in the meantime.
    pub fn acquire_output_gate(&mut self, stopped: bool) -> (result: SinkStep)
        requires
            old(self).wf(),
        ensures
            final(self).wf(),
            result.wf(),
            (final(self)@, result@) == (if stopped {
                (old(self)@, SinkStepModel::Done(false))
            } else {
                sending(SinkModel { holds_gate: true, ..old(self)@ })
            }),
    {
        if stopped {
            return SinkStep::Done(false);
        }
        self.holds_gate = true;
        self.send()
    }

    /// The step that follows once a chunk was handed on, or was refused.
    pub fn sent(&mut self, accepted: bool, stopped: bool) -> (result: SinkStep)
        requires
            old(self).wf(),
        ensures
            final(self).wf(),
            result.wf(),
            (final(self)@, result@) == (if !accepted {
                (old(self)@, SinkStepModel::Failed(SinkError::ReceiverClosed))
            } else {
                (
                    chunk_sent(old(self)@),
                    SinkStepModel::Done(!(old(self)@.pushing && stopped)),
                )
            }),
    {
        if !accepted {
            return SinkStep::Failed(SinkError::ReceiverClosed);
        }
        if self.sending >= self.batch_limit {
            self.batch_limit =
            if self.batch_limit * 2 <= MAX_CHUNK_ITEMS {
                self.batch_limit * 2
            } else {
                MAX_CHUNK_ITEMS
            };
        }
        self.sending = 0;
        SinkStep::Done(!(self.pushing && stopped))
    }
}

/// A text is neither lost nor overtaken on its way into a chunk: it is behind the texts that wait,
/// and a chunk that is handed on holds all of them in order.
pub proof fn chunks_keep_the_order(state: SinkModel, value: Seq<char>)
    requires
        wire::fits(value),
        state.texts.len() < u32::MAX,
    ensures
        ({
            let (after, step) = pushing(state, value, false);
            match step {
                SinkStepModel::Send(texts) => texts == state.texts.push(value) && after.texts.len()
                    == 0,
                SinkStepModel::Failed(_) => false,
                _ => after.texts == state.texts.push(value),
            }
        }),
{
}

/// Nothing is handed on once the search was stopped.
pub proof fn stopped_search_hands_nothing_on(state: SinkModel, value: Seq<char>)
    ensures
        pushing(state, value, true).1 == SinkStepModel::Done(false),
        flushing(state, true).1 == SinkStepModel::Done(false),
{
}

/// What is left of a failure once the output before it was handed on.
#[derive(Clone, Copy, Debug, PartialEq, Eq, Structural)]
pub enum FailureOutcome {
    /// The search was stopped: nothing is said.
    Quiet,
    /// The output could not be handed on.
    Output(SinkError),
    /// The failure itself.
    Original,
}

/// What is left of a failure once handing on the output before it came to `flushed`. Output that
/// waits is handed on before the failure is reported; a search that was stopped reports none.
pub fn flush_streaming_output_before_error(flushed: Result<bool, SinkError>, stopped: bool) -> (result:
    FailureOutcome)
    ensures
        result == (if stopped {
            FailureOutcome::Quiet
        } else {
            match flushed {
                Err(error) => FailureOutcome::Output(error),
                Ok(_) => FailureOutcome::Original,
            }
        }),
{
    if stopped {
        return FailureOutcome::Quiet;
    }
    match flushed {
        Err(error) => FailureOutcome::Output(error),
        Ok(_) => FailureOutcome::Original,
    }
}

} // verus!
