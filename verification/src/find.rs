//! How `find` goes through a root: what it reads, shows and reports, in which order.
//!
//! Each step names one thing to do; what came of it is handed to the next step, together with
//! whether the command was stopped in the meantime.

use vstd::prelude::*;
use crate::arguments::KindFilter;
use crate::report;
use crate::report::{
    io_error_report, metadata_record, FailureModel, FileFacts, IoFailure,
};
use crate::text;
use crate::wildcard;
use crate::wildcard::WildcardPattern;
use crate::wire::{EntryRecord, ErrorReport, RecordModel, ReportModel};

verus! {

/// The type of a directory entry.
#[derive(Clone, Copy, Debug, PartialEq, Eq, Structural)]
pub struct TypeFacts {
    pub is_symlink: bool,
    pub is_dir: bool,
    pub is_file: bool,
}

/// Whether a type is the one that is asked for.
pub open spec fn type_matches(facts: TypeFacts, filter: Option<KindFilter>) -> bool {
    match filter {
        Some(KindFilter::File) => facts.is_file,
        Some(KindFilter::Directory) => facts.is_dir,
        Some(KindFilter::Symlink) => facts.is_symlink,
        None => true,
    }
}

/// Whether a type is the one that is asked for.
pub fn matches_file_type(facts: &TypeFacts, filter: Option<KindFilter>) -> (result: bool)
    ensures
        result == type_matches(*facts, filter),
{
    match filter {
        Some(KindFilter::File) => facts.is_file,
        Some(KindFilter::Directory) => facts.is_dir,
        Some(KindFilter::Symlink) => facts.is_symlink,
        None => true,
    }
}

/// One entry of a directory.
#[derive(Debug)]
pub struct FindEntry {
    pub path: String,
    /// The name where it is text.
    pub name: Option<String>,
    pub file_type: Result<TypeFacts, IoFailure>,
}

/// What came of the last step.
#[derive(Debug)]
pub enum FindEvent {
    Described(Result<FileFacts, IoFailure>),
    Opened(Result<(), IoFailure>),
    Read(Option<Result<FindEntry, IoFailure>>),
    /// An entry was shown; `false` where the command is to end.
    Shown(bool),
    Reported,
}

/// What to do next.
#[derive(Debug)]
pub enum FindAction {
    /// Look up the file that was named last: the root, or the entry that was read last.
    Describe,
    /// Open the same as a directory, inside the one that is open.
    Open,
    /// Read an entry of the directory that was opened last.
    Read,
    /// Show an entry.
    Show(EntryRecord),
    Report(ErrorReport),
    Done,
}

/// What to do next.
pub enum ActionModel {
    Describe,
    Open,
    Read,
    Show(RecordModel),
    Report(ReportModel),
    Done,
}

impl View for FindAction {
    type V = ActionModel;

    open spec fn view(&self) -> ActionModel {
        match self {
            FindAction::Describe => ActionModel::Describe,
            FindAction::Open => ActionModel::Open,
            FindAction::Read => ActionModel::Read,
            FindAction::Show(record) => ActionModel::Show(record@),
            FindAction::Report(problem) => ActionModel::Report(problem@),
            FindAction::Done => ActionModel::Done,
        }
    }
}

/// Which step was taken last.
#[derive(Clone, Copy, Debug, PartialEq, Eq, Structural)]
pub enum FindPhase {
    /// The root is being described.
    Root,
    /// The root is being shown; `descend` where it is to be opened then.
    RootShown { descend: bool },
    /// The root is being opened.
    RootOpened,
    /// An entry is being read.
    Reading,
    /// An entry is being described, shown or reported; `descend` where it is to be opened then.
    Describing { descend: bool },
    Showing { descend: bool },
    /// An entry is being opened.
    Opening,
    /// A failure is being reported, after which the next entry is read.
    Reporting,
    /// Nothing is left to do.
    Ended,
}

/// A search under one root.
#[derive(Debug)]
pub struct FindMachine {
    pub pattern: WildcardPattern,
    pub filter: Option<KindFilter>,
    /// The name of the root where it is text.
    pub root_name: Option<String>,
    /// The directories that are open, outermost first.
    pub frames: Vec<String>,
    /// The file that was named last.
    pub current: String,
    pub phase: FindPhase,
}

/// The state of a search.
pub struct FindModel {
    pub filter: Option<KindFilter>,
    pub root_name: Option<Seq<char>>,
    pub frames: Seq<Seq<char>>,
    pub current: Seq<char>,
    pub phase: FindPhase,
}

impl View for FindMachine {
    type V = FindModel;

    open spec fn view(&self) -> FindModel {
        FindModel {
            filter: self.filter,
            root_name: text::optional_text(self.root_name),
            frames: text::texts(self.frames@),
            current: self.current@,
            phase: self.phase,
        }
    }
}

/// Whether a file is asked for by its name and its type.
pub open spec fn wanted(
    pattern: Seq<char>,
    filter: Option<KindFilter>,
    name: Option<Seq<char>>,
    facts: TypeFacts,
) -> bool {
    (name matches Some(text) && wildcard::name_matches(pattern, text)) && type_matches(
        facts,
        filter,
    )
}

/// Whether a file is gone into: directories are, links are not.
pub open spec fn goes_into(facts: TypeFacts) -> bool {
    facts.is_dir && !facts.is_symlink
}

/// The type of a file.
pub open spec fn type_of(facts: FileFacts) -> TypeFacts {
    TypeFacts { is_symlink: facts.is_symlink, is_dir: facts.is_dir, is_file: facts.is_file }
}

/// The state in which `phase` is under way.
pub open spec fn in_phase(state: FindModel, phase: FindPhase, action: ActionModel) -> (
    FindModel,
    ActionModel,
) {
    (FindModel { phase, ..state }, action)
}

/// The end of a search.
pub open spec fn ended(state: FindModel) -> (FindModel, ActionModel) {
    in_phase(state, FindPhase::Ended, ActionModel::Done)
}

/// The next entry, unless the command was stopped or no directory is open.
pub open spec fn next_entry(state: FindModel, stopped: bool) -> (FindModel, ActionModel) {
    if state.frames.len() == 0 || stopped {
        ended(state)
    } else {
        in_phase(state, FindPhase::Reading, ActionModel::Read)
    }
}

/// Opening the current file where it is to be gone into, and the next entry otherwise.
pub open spec fn descend_or_next(state: FindModel, descend: bool, stopped: bool) -> (
    FindModel,
    ActionModel,
) {
    if descend {
        in_phase(state, FindPhase::Opening, ActionModel::Open)
    } else {
        next_entry(state, stopped)
    }
}

/// A report about a path.
pub open spec fn reporting(
    state: FindModel,
    phase: FindPhase,
    code: Seq<char>,
    path: Seq<char>,
    failure: FailureModel,
) -> (FindModel, ActionModel) {
    in_phase(state, phase, ActionModel::Report(report::io_report(code, path, failure)))
}

/// What follows once an entry was read: failures are reported at the directory or at the entry; an
/// entry that is neither asked for nor gone into is passed over; one that is asked for is shown
/// before it is gone into.
pub open spec fn after_read(
    pattern: Seq<char>,
    state: FindModel,
    read: Option<Result<FindEntry, IoFailure>>,
    stopped: bool,
) -> (FindModel, ActionModel) {
    match read {
        None => next_entry(FindModel { frames: state.frames.drop_last(), ..state }, stopped),
        Some(Err(failure)) => reporting(
            state,
            FindPhase::Reporting,
            "WalkFailed"@,
            state.frames.last(),
            failure@,
        ),
        Some(Ok(entry)) => {
            let named = FindModel { current: entry.path@, ..state };
            match entry.file_type {
                Err(failure) => reporting(
                    named,
                    FindPhase::Reporting,
                    "WalkFailed"@,
                    entry.path@,
                    failure@,
                ),
                Ok(facts) => {
                    let descend = goes_into(facts);
                    if wanted(pattern, state.filter, text::optional_text(entry.name), facts) {
                        in_phase(
                            named,
                            FindPhase::Describing { descend },
                            ActionModel::Describe,
                        )
                    } else {
                        descend_or_next(named, descend, stopped)
                    }
                },
            }
        },
    }
}

/// The step that follows an event. An event that does not belong to the last step ends the search.
pub open spec fn next_step(
    pattern: Seq<char>,
    state: FindModel,
    event: FindEvent,
    stopped: bool,
) -> (FindModel, ActionModel) {
    match (state.phase, event) {
        (FindPhase::Root, FindEvent::Described(Err(failure))) => reporting(
            state,
            FindPhase::Reporting,
            "WalkFailed"@,
            state.current,
            failure@,
        ),
        (FindPhase::Root, FindEvent::Described(Ok(facts))) => {
            let descend = goes_into(type_of(facts));
            if wanted(pattern, state.filter, state.root_name, type_of(facts)) {
                in_phase(
                    state,
                    FindPhase::RootShown { descend },
                    ActionModel::Show(report::file_record(state.current, facts)),
                )
            } else if descend {
                in_phase(state, FindPhase::RootOpened, ActionModel::Open)
            } else {
                ended(state)
            }
        },
        (FindPhase::RootShown { descend }, FindEvent::Shown(going)) => if going && descend {
            in_phase(state, FindPhase::RootOpened, ActionModel::Open)
        } else {
            ended(state)
        },
        (FindPhase::RootOpened, FindEvent::Opened(opened)) => match opened {
            Err(failure) => reporting(
                state,
                FindPhase::Reporting,
                "WalkFailed"@,
                state.current,
                failure@,
            ),
            Ok(()) => next_entry(
                FindModel { frames: state.frames.push(state.current), ..state },
                stopped,
            ),
        },
        (FindPhase::Reading, FindEvent::Read(read)) => after_read(pattern, state, read, stopped),
        (FindPhase::Describing { descend }, FindEvent::Described(Ok(facts))) => in_phase(
            state,
            FindPhase::Showing { descend },
            ActionModel::Show(report::file_record(state.current, facts)),
        ),
        (FindPhase::Describing { descend }, FindEvent::Described(Err(failure))) => reporting(
            state,
            FindPhase::Showing { descend },
            "MetadataFailed"@,
            state.current,
            failure@,
        ),
        (FindPhase::Showing { descend }, FindEvent::Shown(going)) => if going {
            descend_or_next(state, descend, stopped)
        } else {
            ended(state)
        },
        (FindPhase::Showing { descend }, FindEvent::Reported) => descend_or_next(
            state,
            descend,
            stopped,
        ),
        (FindPhase::Opening, FindEvent::Opened(opened)) => match opened {
            Err(failure) => reporting(
                state,
                FindPhase::Reporting,
                "WalkFailed"@,
                state.current,
                failure@,
            ),
            Ok(()) => next_entry(
                FindModel { frames: state.frames.push(state.current), ..state },
                stopped,
            ),
        },
        (FindPhase::Reporting, FindEvent::Reported) => next_entry(state, stopped),
        _ => ended(state),
    }
}

impl FindMachine {
    /// The pattern is the given one, and an entry is read only inside a directory.
    pub open spec fn wf(self, pattern: Seq<char>) -> bool {
        &&& self.pattern.stands_for(pattern)
        &&& self.phase is Reading ==> self.frames.len() > 0
    }

    /// Starts a search; the first thing to do is to describe the root.
    pub fn new(root: String, root_name: Option<String>, pattern: &str, filter: Option<KindFilter>) -> (result:
        (Self, FindAction))
        ensures
            result.0.wf(pattern@),
            result.0@ == (FindModel {
                filter,
                root_name: text::optional_text(root_name),
                frames: Seq::empty(),
                current: root@,
                phase: FindPhase::Root,
            }),
            result.1@ == ActionModel::Describe,
    {
        let machine: FindMachine = FindMachine {
            pattern: WildcardPattern::new(pattern),
            filter,
            root_name,
            frames: Vec::new(),
            current: root,
            phase: FindPhase::Root,
        };
        assert(text::texts(machine.frames@) =~= Seq::<Seq<char>>::empty());
        (machine, FindAction::Describe)
    }

    fn is_wanted(&self, name: &Option<String>, facts: &TypeFacts) -> (result: bool)
        ensures
            forall|pattern: Seq<char>| #[trigger]
                self.pattern.stands_for(pattern) ==> result == wanted(
                    pattern,
                    self.filter,
                    text::optional_text(*name),
                    *facts,
                ),
    {
        match name {
            Some(text) => self.pattern.is_match(text.as_str()) && matches_file_type(
                facts,
                self.filter,
            ),
            None => false,
        }
    }

    fn go_on(&mut self, stopped: bool) -> (result: FindAction)
        ensures
            (final(self)@, result@) == next_entry(old(self)@, stopped),
            final(self).pattern == old(self).pattern,
            final(self).phase is Reading ==> final(self).frames.len() > 0,
    {
        assert(text::texts(self.frames@).len() == self.frames.len());
        if self.frames.len() == 0 || stopped {
            self.phase = FindPhase::Ended;
            FindAction::Done
        } else {
            self.phase = FindPhase::Reading;
            FindAction::Read
        }
    }

    fn descend(&mut self, descend: bool, stopped: bool) -> (result: FindAction)
        ensures
            (final(self)@, result@) == descend_or_next(old(self)@, descend, stopped),
            final(self).pattern == old(self).pattern,
            final(self).phase is Reading ==> final(self).frames.len() > 0,
    {
        if descend {
            self.phase = FindPhase::Opening;
            FindAction::Open
        } else {
            self.go_on(stopped)
        }
    }

    fn failed(&mut self, phase: FindPhase, code: &str, failure: &IoFailure) -> (result: FindAction)
        requires
            !(phase is Reading),
        ensures
            (final(self)@, result@) == reporting(
                old(self)@,
                phase,
                code@,
                old(self)@.current,
                failure@,
            ),
            final(self).pattern == old(self).pattern,
            final(self).phase == phase,
    {
        self.phase = phase;
        FindAction::Report(io_error_report(code, self.current.as_str(), failure))
    }

    fn opened(&mut self, opened: &Result<(), IoFailure>, stopped: bool) -> (result: FindAction)
        ensures
            (final(self)@, result@) == match *opened {
                Err(failure) => reporting(
                    old(self)@,
                    FindPhase::Reporting,
                    "WalkFailed"@,
                    old(self)@.current,
                    failure@,
                ),
                Ok(()) => next_entry(
                    FindModel { frames: old(self)@.frames.push(old(self)@.current), ..old(self)@ },
                    stopped,
                ),
            },
            final(self).pattern == old(self).pattern,
            final(self).phase is Reading ==> final(self).frames.len() > 0,
    {
        match opened {
            Err(failure) => self.failed(FindPhase::Reporting, "WalkFailed", failure),
            Ok(()) => {
                let ghost frames = self@.frames;
                self.frames.push(self.current.clone());
                assert(self@.frames =~= frames.push(self@.current));
                self.go_on(stopped)
            },
        }
    }

    fn read(&mut self, read: &Option<Result<FindEntry, IoFailure>>, stopped: bool) -> (result:
        FindAction)
        requires
            old(self).frames.len() > 0,
        ensures
            forall|pattern: Seq<char>| #[trigger]
                old(self).pattern.stands_for(pattern) ==> (final(self)@, result@) == after_read(
                    pattern,
                    old(self)@,
                    *read,
                    stopped,
                ),
            final(self).pattern == old(self).pattern,
            final(self).phase is Reading ==> final(self).frames.len() > 0,
    {
        let ghost frames = self@.frames;
        match read {
            None => {
                self.frames.pop();
                assert(self@.frames =~= frames.drop_last());
                self.go_on(stopped)
            },
            Some(Err(failure)) => {
                self.phase = FindPhase::Reporting;
                let directory: &str = self.frames[self.frames.len() - 1].as_str();
                assert(frames.last() == directory@);
                FindAction::Report(io_error_report("WalkFailed", directory, failure))
            },
            Some(Ok(entry)) => {
                self.current = entry.path.clone();
                match &entry.file_type {
                    Err(failure) => self.failed(FindPhase::Reporting, "WalkFailed", failure),
                    Ok(facts) => {
                        let descend: bool = facts.is_dir && !facts.is_symlink;
                        if self.is_wanted(&entry.name, facts) {
                            self.phase = FindPhase::Describing { descend };
                            FindAction::Describe
                        } else {
                            self.descend(descend, stopped)
                        }
                    },
                }
            },
        }
    }

    /// The step that follows an event.
    pub fn step(&mut self, event: &FindEvent, stopped: bool) -> (result: FindAction)
        requires
            exists|pattern: Seq<char>| old(self).wf(pattern),
        ensures
            forall|pattern: Seq<char>| #[trigger]
                old(self).wf(pattern) ==> final(self).wf(pattern) && (final(self)@, result@)
                    == next_step(pattern, old(self)@, *event, stopped),
    {
        let ghost before = self@;
        match (self.phase, event) {
            (FindPhase::Root, FindEvent::Described(described)) => match described {
                Err(failure) => self.failed(FindPhase::Reporting, "WalkFailed", failure),
                Ok(facts) => {
                    let kind: TypeFacts = TypeFacts {
                        is_symlink: facts.is_symlink,
                        is_dir: facts.is_dir,
                        is_file: facts.is_file,
                    };
                    let descend: bool = facts.is_dir && !facts.is_symlink;
                    if self.is_wanted(&self.root_name, &kind) {
                        self.phase = FindPhase::RootShown { descend };
                        FindAction::Show(metadata_record(self.current.as_str(), facts))
                    } else if descend {
                        self.phase = FindPhase::RootOpened;
                        FindAction::Open
                    } else {
                        self.phase = FindPhase::Ended;
                        FindAction::Done
                    }
                },
            },
            (FindPhase::RootShown { descend }, FindEvent::Shown(going)) => {
                if *going && descend {
                    self.phase = FindPhase::RootOpened;
                    FindAction::Open
                } else {
                    self.phase = FindPhase::Ended;
                    FindAction::Done
                }
            },
            (FindPhase::RootOpened, FindEvent::Opened(opened)) => self.opened(opened, stopped),
            (FindPhase::Reading, FindEvent::Read(read)) => self.read(read, stopped),
            (FindPhase::Describing { descend }, FindEvent::Described(described)) => {
                match described {
                    Ok(facts) => {
                        self.phase = FindPhase::Showing { descend };
                        FindAction::Show(metadata_record(self.current.as_str(), facts))
                    },
                    Err(failure) => self.failed(
                        FindPhase::Showing { descend },
                        "MetadataFailed",
                        failure,
                    ),
                }
            },
            (FindPhase::Showing { descend }, FindEvent::Shown(going)) => {
                if *going {
                    self.descend(descend, stopped)
                } else {
                    self.phase = FindPhase::Ended;
                    FindAction::Done
                }
            },
            (FindPhase::Showing { descend }, FindEvent::Reported) => self.descend(
                descend,
                stopped,
            ),
            (FindPhase::Opening, FindEvent::Opened(opened)) => self.opened(opened, stopped),
            (FindPhase::Reporting, FindEvent::Reported) => self.go_on(stopped),
            _ => {
                self.phase = FindPhase::Ended;
                FindAction::Done
            },
        }
    }
}

/// `find` shows an entry only where its name and its type are asked for, and goes into one only
/// where it is a directory and not a link.
pub proof fn only_wanted_entries_are_shown(
    pattern: Seq<char>,
    state: FindModel,
    entry: FindEntry,
    stopped: bool,
)
    requires
        state.phase is Reading,
    ensures
        ({
            let (after, action) = next_step(
                pattern,
                state,
                FindEvent::Read(Some(Ok(entry))),
                stopped,
            );
            &&& action is Describe ==> (entry.file_type matches Ok(facts) && wanted(
                pattern,
                state.filter,
                text::optional_text(entry.name),
                facts,
            ))
            &&& (action is Open || after.phase == (FindPhase::Describing { descend: true })) ==> (
            entry.file_type matches Ok(facts) && facts.is_dir && !facts.is_symlink)
        }),
{
}

/// A command that is stopped reads no other entry.
pub proof fn stopped_search_reads_no_further(
    pattern: Seq<char>,
    state: FindModel,
    event: FindEvent,
)
    ensures
        !(next_step(pattern, state, event, true).1 is Read),
{
}

} // verus!
