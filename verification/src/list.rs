//! How `ls` goes through a path: what it lists, shows and reports, in which order.
//!
//! Each step names one thing to do; what came of it is handed to the next step, together with
//! whether the command was stopped in the meantime.

use vstd::prelude::*;
use vstd::utf8::*;
use crate::ascii::DOT;
use crate::find::TypeFacts;
use crate::order;
use crate::order::{sort_indices, SortKey};
use crate::path;
use crate::path::{NameModel, PathName};
use crate::report;
use crate::report::{io_error_report, metadata_record, FailureModel, FileFacts, IoFailure};
use crate::text::copy_bytes;
use crate::wire::{EntryRecord, ErrorReport, RecordModel, ReportModel};

verus! {

/// One entry of a directory.
#[derive(Debug)]
pub struct NamedEntry {
    pub name: PathName,
    pub path: String,
    /// The number under which the entry is looked up.
    pub id: usize,
}

/// What an entry of a directory is.
pub struct NamedModel {
    pub name: NameModel,
    pub path: Seq<char>,
    pub id: usize,
}

impl View for NamedEntry {
    type V = NamedModel;

    open spec fn view(&self) -> NamedModel {
        NamedModel { name: self.name@, path: self.path@, id: self.id }
    }
}

impl Clone for NamedEntry {
    fn clone(&self) -> (result: Self)
        ensures
            result@ == self@,
    {
        NamedEntry { name: self.name.clone(), path: self.path.clone(), id: self.id }
    }
}

/// What entries are.
pub open spec fn named_models(entries: Seq<NamedEntry>) -> Seq<NamedModel> {
    Seq::new(entries.len(), |i: int| entries[i]@)
}

/// Whether a name is text that starts with a dot.
pub open spec fn hidden_name(name: NameModel) -> bool {
    name.utf8 && path::starts_with_dot(encode_utf8(name.text))
}

/// Whether a name is text that starts with a dot.
pub fn is_hidden_name(name: &PathName) -> (result: bool)
    ensures
        result == hidden_name(name@),
{
    let bytes: &[u8] = name.text.as_str().as_bytes();
    name.utf8 && bytes.len() > 0 && bytes[0] == DOT
}

/// Whether `order` holds each entry that is listed once, in the order of their names.
pub open spec fn listed_in_order(
    entries: Seq<NamedModel>,
    show_all: bool,
    order: Seq<usize>,
) -> bool {
    &&& order.no_duplicates()
    &&& forall|i: int| 0 <= i < order.len() ==> (#[trigger] order[i]) < entries.len()
    &&& forall|i: usize|
        i < entries.len() ==> (#[trigger] order.contains(i) <==> show_all || !hidden_name(
            entries[i as int].name,
        ))
    &&& forall|i: int, j: int|
        0 <= i < j < order.len() ==> order::name_le(
            entries[#[trigger] order[i] as int].name.raw,
            entries[#[trigger] order[j] as int].name.raw,
        )
}

/// The entries at the given indices.
pub open spec fn picked(entries: Seq<NamedModel>, order: Seq<usize>) -> Seq<NamedModel> {
    Seq::new(order.len(), |i: int| entries[order[i] as int])
}

/// The indices of the entries that are listed, in the order of their names.
pub fn directory_order(entries: &[NamedEntry], show_all: bool) -> (result: Vec<usize>)
    ensures
        listed_in_order(named_models(entries@), show_all, result@),
{
    let mut names: Vec<Vec<u8>> = Vec::new();
    let mut shown: Vec<usize> = Vec::new();
    let mut index: usize = 0;
    let ghost models = named_models(entries@);
    while index < entries.len()
        invariant
            index <= entries.len(),
            models == named_models(entries@),
            names.len() == index,
            forall|i: int| 0 <= i < index ==> (#[trigger] names[i])@ == models[i].name.raw,
            forall|i: int| 0 <= i < shown.len() ==> (#[trigger] shown[i]) < index,
            shown@.no_duplicates(),
            forall|i: usize|
                i < index ==> (#[trigger] shown@.contains(i) <==> show_all || !hidden_name(
                    models[i as int].name,
                )),
        decreases entries.len() - index,
    {
        let entry: &NamedEntry = &entries[index];
        let ghost before = shown@;
        assert(models[index as int] == entry@);
        assert(!before.contains(index));
        names.push(copy_bytes(entry.name.raw.as_slice()));
        if show_all || !is_hidden_name(&entry.name) {
            shown.push(index);
            proof {
                assert(shown@[before.len() as int] == index);
                assert forall|i: usize| i < index + 1 implies (#[trigger] shown@.contains(i) <==> (
                before.contains(i) || i == index)) by {
                    if before.contains(i) {
                        let k = choose|k: int| 0 <= k < before.len() && before[k] == i;
                        assert(shown@[k] == i);
                    }
                    if shown@.contains(i) {
                        let k = choose|k: int| 0 <= k < shown@.len() && shown@[k] == i;
                        if k < before.len() {
                            assert(before[k] == i);
                        }
                    }
                }
            }
        }
        index += 1;
    }
    let result: Vec<usize> = sort_indices(names.as_slice(), shown.as_slice());
    proof {
        assert forall|i: int, j: int|
            0 <= i < j < result.len() implies order::name_le(
            models[#[trigger] result[i] as int].name.raw,
            models[#[trigger] result[j] as int].name.raw,
        ) by {
            assert(names@[result[i] as int].key_le(names@[result[j] as int]));
        }
    }
    result
}

/// What came of the last step.
#[derive(Debug)]
pub enum ListEvent {
    Described(Result<FileFacts, IoFailure>),
    Listed(Result<Vec<NamedEntry>, IoFailure>),
    /// The entry that was named last by its type and by what is known of it.
    Visited { file_type: Result<TypeFacts, IoFailure>, facts: Result<FileFacts, IoFailure> },
    /// An entry was shown; `false` where the command is to end.
    Shown(bool),
    Reported,
}

/// What to do next.
#[derive(Debug)]
pub enum ListAction {
    /// Look up the path itself.
    Describe,
    /// List the path itself, or the entry of this number.
    List { directory: Option<usize> },
    /// Look up the entry of this number.
    Visit { id: usize },
    Show(EntryRecord),
    Report(ErrorReport),
    Done,
}

/// What to do next.
pub enum ListActionModel {
    Describe,
    List { directory: Option<usize> },
    Visit { id: usize },
    Show(RecordModel),
    Report(ReportModel),
    Done,
}

impl View for ListAction {
    type V = ListActionModel;

    open spec fn view(&self) -> ListActionModel {
        match self {
            ListAction::Describe => ListActionModel::Describe,
            ListAction::List { directory } => ListActionModel::List { directory: *directory },
            ListAction::Visit { id } => ListActionModel::Visit { id: *id },
            ListAction::Show(record) => ListActionModel::Show(record@),
            ListAction::Report(problem) => ListActionModel::Report(problem@),
            ListAction::Done => ListActionModel::Done,
        }
    }
}

/// Which step was taken last.
#[derive(Clone, Copy, Debug, PartialEq, Eq, Structural)]
pub enum ListPhase {
    /// The path itself is being described.
    Root,
    /// The path itself is being listed.
    RootListed,
    /// An entry is being looked up.
    Visiting,
    /// An entry is being shown; `descend` where it is to be listed then.
    Showing { descend: bool },
    /// An entry is being listed.
    Listing,
    /// A failure is being reported, after which the next entry is looked up.
    Reporting,
    /// Nothing is left to do.
    Ended,
}

/// A listing of one path.
#[derive(Debug)]
pub struct ListMachine {
    pub path: String,
    pub show_all: bool,
    pub recursive: bool,
    /// The entries that are still to be looked up, the next one last.
    pub stack: Vec<NamedEntry>,
    /// The entry that was named last.
    pub current_path: String,
    pub current_id: usize,
    pub phase: ListPhase,
}

/// The state of a listing.
pub struct ListModel {
    pub path: Seq<char>,
    pub show_all: bool,
    pub recursive: bool,
    pub stack: Seq<NamedModel>,
    pub current_path: Seq<char>,
    pub current_id: usize,
    pub phase: ListPhase,
}

impl View for ListMachine {
    type V = ListModel;

    open spec fn view(&self) -> ListModel {
        ListModel {
            path: self.path@,
            show_all: self.show_all,
            recursive: self.recursive,
            stack: named_models(self.stack@),
            current_path: self.current_path@,
            current_id: self.current_id,
            phase: self.phase,
        }
    }
}

/// The state in which `phase` is under way.
pub open spec fn in_phase(state: ListModel, phase: ListPhase, action: ListActionModel) -> (
    ListModel,
    ListActionModel,
) {
    (ListModel { phase, ..state }, action)
}

/// The end of a listing.
pub open spec fn ended(state: ListModel) -> (ListModel, ListActionModel) {
    in_phase(state, ListPhase::Ended, ListActionModel::Done)
}

/// The next entry, unless the command was stopped or none is left.
pub open spec fn next_entry(state: ListModel, stopped: bool) -> (ListModel, ListActionModel) {
    if state.stack.len() == 0 || stopped {
        ended(state)
    } else {
        let entry = state.stack.last();
        (
            ListModel {
                stack: state.stack.drop_last(),
                current_path: entry.path,
                current_id: entry.id,
                phase: ListPhase::Visiting,
                ..state
            },
            ListActionModel::Visit { id: entry.id },
        )
    }
}

/// A report about a path.
pub open spec fn reporting(
    state: ListModel,
    code: Seq<char>,
    path: Seq<char>,
    failure: FailureModel,
) -> (ListModel, ListActionModel) {
    in_phase(
        state,
        ListPhase::Reporting,
        ListActionModel::Report(report::io_report(code, path, failure)),
    )
}

/// What follows once an entry was looked up. A recursive listing goes into directories, not into
/// links.
pub open spec fn after_visit(
    state: ListModel,
    file_type: Result<TypeFacts, IoFailure>,
    facts: Result<FileFacts, IoFailure>,
) -> (ListModel, ListActionModel) {
    let code = if state.recursive {
        "WalkFailed"@
    } else {
        "MetadataFailed"@
    };
    match (file_type, facts) {
        (Err(failure), _) if state.recursive => reporting(
            state,
            code,
            state.current_path,
            failure@,
        ),
        (_, Err(failure)) => reporting(state, code, state.current_path, failure@),
        (kind, Ok(known)) => in_phase(
            state,
            ListPhase::Showing {
                descend: state.recursive && (kind matches Ok(entry) && entry.is_dir
                    && !entry.is_symlink),
            },
            ListActionModel::Show(report::file_record(state.current_path, known)),
        ),
    }
}

/// Whether a step is the one that follows the listing of a directory: its entries come next, in the
/// order of their names.
pub open spec fn follows_listing(
    state: ListModel,
    entries: Seq<NamedModel>,
    stopped: bool,
    after: (ListModel, ListActionModel),
) -> bool {
    exists|order: Seq<usize>| #[trigger]
        listed_in_order(entries, state.show_all, order) && after == next_entry(
            ListModel { stack: state.stack + picked(entries, order).reverse(), ..state },
            stopped,
        )
}

/// Whether a step is the one that follows an event. An event that does not belong to the last step
/// ends the listing.
pub open spec fn follows(
    state: ListModel,
    event: ListEvent,
    stopped: bool,
    after: (ListModel, ListActionModel),
) -> bool {
    match (state.phase, event) {
        (ListPhase::Root, ListEvent::Described(Err(failure))) => after == reporting(
            state,
            "ListFailed"@,
            state.path,
            failure@,
        ),
        (ListPhase::Root, ListEvent::Described(Ok(facts))) => if facts.is_dir {
            after == in_phase(
                state,
                ListPhase::RootListed,
                ListActionModel::List { directory: None },
            )
        } else {
            after == in_phase(
                state,
                ListPhase::Showing { descend: false },
                ListActionModel::Show(report::file_record(state.path, facts)),
            )
        },
        (ListPhase::RootListed, ListEvent::Listed(Err(failure))) => after == reporting(
            state,
            if state.recursive {
                "WalkFailed"@
            } else {
                "ListFailed"@
            },
            state.path,
            failure@,
        ),
        (ListPhase::RootListed, ListEvent::Listed(Ok(entries))) => follows_listing(
            state,
            named_models(entries@),
            stopped,
            after,
        ),
        (ListPhase::Visiting, ListEvent::Visited { file_type, facts }) => after == after_visit(
            state,
            file_type,
            facts,
        ),
        (ListPhase::Showing { descend }, ListEvent::Shown(going)) => if !going {
            after == ended(state)
        } else if descend {
            after == in_phase(
                state,
                ListPhase::Listing,
                ListActionModel::List { directory: Some(state.current_id) },
            )
        } else {
            after == next_entry(state, stopped)
        },
        (ListPhase::Listing, ListEvent::Listed(Err(failure))) => after == reporting(
            state,
            "WalkFailed"@,
            state.current_path,
            failure@,
        ),
        (ListPhase::Listing, ListEvent::Listed(Ok(entries))) => follows_listing(
            state,
            named_models(entries@),
            stopped,
            after,
        ),
        (ListPhase::Reporting, ListEvent::Reported) => after == next_entry(state, stopped),
        _ => after == ended(state),
    }
}

impl ListMachine {
    /// Starts a listing; the first thing to do is to describe the path.
    pub fn new(path: String, show_all: bool, recursive: bool) -> (result: (Self, ListAction))
        ensures
            result.0@ == (ListModel {
                path: path@,
                show_all,
                recursive,
                stack: Seq::empty(),
                current_path: Seq::empty(),
                current_id: 0,
                phase: ListPhase::Root,
            }),
            result.1@ == ListActionModel::Describe,
    {
        let machine: ListMachine = ListMachine {
            path,
            show_all,
            recursive,
            stack: Vec::new(),
            current_path: String::new(),
            current_id: 0,
            phase: ListPhase::Root,
        };
        assert(named_models(machine.stack@) =~= Seq::<NamedModel>::empty());
        assert(machine.current_path@ =~= Seq::<char>::empty());
        (machine, ListAction::Describe)
    }

    fn go_on(&mut self, stopped: bool) -> (result: ListAction)
        ensures
            (final(self)@, result@) == next_entry(old(self)@, stopped),
    {
        assert(named_models(self.stack@).len() == self.stack.len());
        if self.stack.len() == 0 || stopped {
            self.phase = ListPhase::Ended;
            return ListAction::Done;
        }
        let ghost before = self@.stack;
        let entry: NamedEntry = self.stack.pop().unwrap();
        assert(self@.stack =~= before.drop_last());
        self.current_path = entry.path;
        self.current_id = entry.id;
        self.phase = ListPhase::Visiting;
        ListAction::Visit { id: entry.id }
    }

    fn push_children(&mut self, entries: &[NamedEntry], stopped: bool) -> (result: ListAction)
        ensures
            follows_listing(
                old(self)@,
                named_models(entries@),
                stopped,
                (final(self)@, result@),
            ),
    {
        let ghost models = named_models(entries@);
        let ghost before = self@;
        let order: Vec<usize> = directory_order(entries, self.show_all);
        let ghost children = picked(models, order@);
        let mut left: usize = order.len();
        assert(children.subrange(left as int, children.len() as int).reverse()
            =~= Seq::<NamedModel>::empty());
        assert(before.stack + Seq::<NamedModel>::empty() =~= before.stack);
        while left > 0
            invariant
                left <= order.len(),
                models == named_models(entries@),
                children == picked(models, order@),
                forall|i: int| 0 <= i < order.len() ==> (#[trigger] order[i]) < entries.len(),
                self@ == (ListModel {
                    stack: before.stack + children.subrange(
                        left as int,
                        children.len() as int,
                    ).reverse(),
                    ..before
                }),
            decreases left,
        {
            left -= 1;
            let ghost held = self@.stack;
            self.stack.push(entries[order[left]].clone());
            proof {
                let child = children[left as int];
                assert(child == entries[order[left as int] as int]@);
                assert(self@.stack =~= held.push(child));
                let longer = children.subrange(left as int, children.len() as int);
                let shorter = children.subrange(left + 1, children.len() as int);
                assert(longer.reverse() =~= shorter.reverse().push(child));
                assert(held.push(child) =~= before.stack + longer.reverse());
            }
        }
        assert(children.subrange(0, children.len() as int) =~= children);
        self.go_on(stopped)
    }

    fn failed(&mut self, code: &str, path: &str, failure: &IoFailure) -> (result: ListAction)
        ensures
            (final(self)@, result@) == reporting(old(self)@, code@, path@, failure@),
    {
        self.phase = ListPhase::Reporting;
        ListAction::Report(io_error_report(code, path, failure))
    }

    fn visited(
        &mut self,
        file_type: &Result<TypeFacts, IoFailure>,
        facts: &Result<FileFacts, IoFailure>,
    ) -> (result: ListAction)
        ensures
            (final(self)@, result@) == after_visit(old(self)@, *file_type, *facts),
    {
        let path: String = self.current_path.clone();
        let code: &str = if self.recursive {
            "WalkFailed"
        } else {
            "MetadataFailed"
        };
        let mut descend: bool = false;
        match file_type {
            Err(failure) => {
                if self.recursive {
                    return self.failed(code, path.as_str(), failure);
                }
            },
            Ok(kind) => {
                descend = self.recursive && kind.is_dir && !kind.is_symlink;
            },
        }
        match facts {
            Err(failure) => self.failed(code, path.as_str(), failure),
            Ok(known) => {
                self.phase = ListPhase::Showing { descend };
                ListAction::Show(metadata_record(path.as_str(), known))
            },
        }
    }

    /// The step that follows an event.
    pub fn step(&mut self, event: &ListEvent, stopped: bool) -> (result: ListAction)
        ensures
            follows(old(self)@, *event, stopped, (final(self)@, result@)),
    {
        match (self.phase, event) {
            (ListPhase::Root, ListEvent::Described(described)) => match described {
                Err(failure) => {
                    let path: String = self.path.clone();
                    self.failed("ListFailed", path.as_str(), failure)
                },
                Ok(facts) => {
                    if facts.is_dir {
                        self.phase = ListPhase::RootListed;
                        ListAction::List { directory: None }
                    } else {
                        self.phase = ListPhase::Showing { descend: false };
                        ListAction::Show(metadata_record(self.path.as_str(), facts))
                    }
                },
            },
            (ListPhase::RootListed, ListEvent::Listed(listed)) => match listed {
                Err(failure) => {
                    let path: String = self.path.clone();
                    let code: &str = if self.recursive {
                        "WalkFailed"
                    } else {
                        "ListFailed"
                    };
                    self.failed(code, path.as_str(), failure)
                },
                Ok(entries) => self.push_children(entries.as_slice(), stopped),
            },
            (ListPhase::Visiting, ListEvent::Visited { file_type, facts }) => self.visited(
                file_type,
                facts,
            ),
            (ListPhase::Showing { descend }, ListEvent::Shown(going)) => {
                if !*going {
                    self.phase = ListPhase::Ended;
                    ListAction::Done
                } else if descend {
                    self.phase = ListPhase::Listing;
                    ListAction::List { directory: Some(self.current_id) }
                } else {
                    self.go_on(stopped)
                }
            },
            (ListPhase::Listing, ListEvent::Listed(listed)) => match listed {
                Err(failure) => {
                    let path: String = self.current_path.clone();
                    self.failed("WalkFailed", path.as_str(), failure)
                },
                Ok(entries) => self.push_children(entries.as_slice(), stopped),
            },
            (ListPhase::Reporting, ListEvent::Reported) => self.go_on(stopped),
            _ => {
                self.phase = ListPhase::Ended;
                ListAction::Done
            },
        }
    }
}

/// The entries of one directory that are left come in the order of their names: where a directory
/// was listed while nothing else was left, the first to be looked up comes before all others.
pub proof fn entries_come_in_order(
    state: ListModel,
    entries: Seq<NamedModel>,
    order: Seq<usize>,
)
    requires
        listed_in_order(entries, state.show_all, order),
        order.len() > 0,
    ensures
        ({
            let stack = state.stack + picked(entries, order).reverse();
            let (after, action) = next_entry(ListModel { stack, ..state }, false);
            &&& action == (ListActionModel::Visit { id: entries[order[0] as int].id })
            &&& forall|i: int|
                0 <= i < order.len() ==> order::name_le(
                    entries[order[0] as int].name.raw,
                    entries[#[trigger] order[i] as int].name.raw,
                )
        }),
{
    let children = picked(entries, order);
    let stack = state.stack + children.reverse();
    assert(stack.last() == children[0]);
    order::names_are_ordered(
        entries[order[0] as int].name.raw,
        entries[order[0] as int].name.raw,
    );
}

} // verus!
