//! What `find` shows of a tree of files from its start to its end.

use vstd::prelude::*;
use crate::arguments::KindFilter;
use crate::find;
use crate::find::{ActionModel, FindEvent, FindModel, FindPhase, TypeFacts};
use crate::report;
use crate::report::{FailureModel, FileFacts};
use crate::text;

verus! {

/// A file as it is found, with all that a host can say of it and, where it can be opened, what reading it
/// gives.
pub struct FindTree {
    pub path: Seq<char>,
    /// The name where it is text.
    pub name: Option<Seq<char>>,
    pub file_type: Result<TypeFacts, FailureModel>,
    pub facts: Result<FileFacts, FailureModel>,
    pub opened: Result<(), FailureModel>,
    pub entries: Seq<FindRead>,
}

/// One read from a directory.
pub enum FindRead {
    Failed(FailureModel),
    Entry(FindTree),
}

/// What is asked for.
pub struct FindQuery {
    pub pattern: Seq<char>,
    pub filter: Option<KindFilter>,
}

/// A failure at a path as it is reported.
pub open spec fn failure(code: Seq<char>, path: Seq<char>, failure: FailureModel) -> ActionModel {
    ActionModel::Report(report::io_report(code, path, failure))
}

/// What is shown for a file that is asked for.
pub open spec fn shown(tree: FindTree) -> ActionModel {
    match tree.facts {
        Ok(facts) => ActionModel::Show(report::file_record(tree.path, facts)),
        Err(reason) => failure("MetadataFailed"@, tree.path, reason),
    }
}

/// What is told of an entry: the entry itself where it is asked for, and behind it what lies in it where
/// it is a directory and not a link.
pub open spec fn told_of_entry(query: FindQuery, tree: FindTree) -> Seq<ActionModel>
    decreases tree, 1int,
{
    match tree.file_type {
        Err(reason) => seq![failure("WalkFailed"@, tree.path, reason)],
        Ok(facts) => {
            let itself = if find::wanted(query.pattern, query.filter, tree.name, facts) {
                seq![shown(tree)]
            } else {
                Seq::empty()
            };
            if find::goes_into(facts) {
                itself + told_of_inside(query, tree)
            } else {
                itself
            }
        },
    }
}

/// What is told of what lies in a directory.
pub open spec fn told_of_inside(query: FindQuery, tree: FindTree) -> Seq<ActionModel>
    decreases tree, 0int,
{
    match tree.opened {
        Err(reason) => seq![failure("WalkFailed"@, tree.path, reason)],
        Ok(()) => told_of_reads(query, tree.path, tree.entries),
    }
}

/// What is told of the reads from a directory, one after the other.
pub open spec fn told_of_reads(query: FindQuery, path: Seq<char>, reads: Seq<FindRead>) -> Seq<
    ActionModel,
>
    decreases reads, 2int,
{
    if reads.len() == 0 {
        Seq::empty()
    } else {
        let rest = told_of_reads(query, path, reads.subrange(1, reads.len() as int));
        match reads[0] {
            FindRead::Failed(reason) => seq![failure("WalkFailed"@, path, reason)] + rest,
            FindRead::Entry(tree) => told_of_entry(query, tree) + rest,
        }
    }
}

/// What is told of a root: it is looked up itself, and then taken as any entry is.
pub open spec fn told_of_root(query: FindQuery, root: FindTree) -> Seq<ActionModel> {
    match root.facts {
        Err(reason) => seq![failure("WalkFailed"@, root.path, reason)],
        Ok(facts) => {
            let kind = find::type_of(facts);
            let itself = if find::wanted(query.pattern, query.filter, root.name, kind) {
                seq![shown(root)]
            } else {
                Seq::empty()
            };
            if find::goes_into(kind) {
                itself + told_of_inside(query, root)
            } else {
                itself
            }
        },
    }
}

/// A host that answers from a tree: the file that was named last, and what is left to read of each
/// directory that is open, outermost first.
pub struct FindHost {
    pub current: FindTree,
    pub open: Seq<Seq<FindRead>>,
}

/// Whether a host says what is known of a file.
pub open spec fn says_facts(
    told: Result<FileFacts, report::IoFailure>,
    known: Result<FileFacts, FailureModel>,
) -> bool {
    match (told, known) {
        (Ok(facts), Ok(same)) => facts == same,
        (Err(reason), Err(same)) => reason@ == same,
        _ => false,
    }
}

/// Whether an entry is told as it is.
pub open spec fn says_entry(entry: find::FindEntry, tree: FindTree) -> bool {
    &&& entry.path@ == tree.path
    &&& text::optional_text(entry.name) == tree.name
    &&& match (entry.file_type, tree.file_type) {
        (Ok(facts), Ok(same)) => facts == same,
        (Err(reason), Err(same)) => reason@ == same,
        _ => false,
    }
}

/// Whether an event is what a host says that does what it is asked to do.
pub open spec fn answers(host: FindHost, action: ActionModel, event: FindEvent) -> bool {
    match action {
        ActionModel::Describe => event matches FindEvent::Described(told) && says_facts(
            told,
            host.current.facts,
        ),
        ActionModel::Open => event matches FindEvent::Opened(told) && match (
            told,
            host.current.opened,
        ) {
            (Ok(_), Ok(_)) => true,
            (Err(reason), Err(same)) => reason@ == same,
            _ => false,
        },
        ActionModel::Read => host.open.len() > 0 && (event matches FindEvent::Read(told) && if
        host.open.last().len() == 0 {
            told is None
        } else {
            match (told, host.open.last()[0]) {
                (Some(Err(reason)), FindRead::Failed(same)) => reason@ == same,
                (Some(Ok(entry)), FindRead::Entry(tree)) => says_entry(entry, tree),
                _ => false,
            }
        }),
        ActionModel::Show(_) => event == FindEvent::Shown(true),
        ActionModel::Report(_) => event is Reported,
        ActionModel::Done => false,
    }
}

/// The host once it did what it was asked to do.
pub open spec fn host_after(host: FindHost, action: ActionModel) -> FindHost {
    match action {
        ActionModel::Open => if host.current.opened is Ok {
            FindHost { open: host.open.push(host.current.entries), ..host }
        } else {
            host
        },
        ActionModel::Read => {
            let reads = host.open.last();
            let outer = host.open.drop_last();
            if reads.len() == 0 {
                FindHost { open: outer, ..host }
            } else {
                let open = outer.push(reads.subrange(1, reads.len() as int));
                match reads[0] {
                    FindRead::Entry(tree) => FindHost { current: tree, open },
                    FindRead::Failed(_) => FindHost { open, ..host },
                }
            }
        },
        _ => host,
    }
}

/// What an action tells.
pub open spec fn told_by(action: ActionModel) -> Seq<ActionModel> {
    if action is Show || action is Report {
        seq![action]
    } else {
        Seq::empty()
    }
}

/// What a search tells in the course of events, from a step on to its end; `None` where the events are not
/// those of a host that answers from the tree, or come to no end.
pub open spec fn told_in_run(
    query: FindQuery,
    state: FindModel,
    action: ActionModel,
    host: FindHost,
    events: Seq<FindEvent>,
) -> Option<Seq<ActionModel>>
    decreases events.len(),
{
    if action is Done {
        if events.len() == 0 {
            Some(Seq::empty())
        } else {
            None
        }
    } else if events.len() == 0 || !answers(host, action, events[0]) {
        None
    } else {
        let (after, next) = find::next_step(query.pattern, state, events[0], false);
        match told_in_run(
            query,
            after,
            next,
            host_after(host, action),
            events.subrange(1, events.len() as int),
        ) {
            Some(rest) => Some(told_by(action) + rest),
            None => None,
        }
    }
}

/// What is told of the directories that are open, innermost first.
spec fn told_of_open(query: FindQuery, frames: Seq<Seq<char>>, open: Seq<Seq<FindRead>>) -> Seq<
    ActionModel,
>
    decreases open.len(),
{
    if open.len() == 0 {
        Seq::empty()
    } else {
        told_of_reads(query, frames.last(), open.last()) + told_of_open(
            query,
            frames.drop_last(),
            open.drop_last(),
        )
    }
}

/// What is told of what lies in a file that is gone into, and nothing otherwise.
spec fn told_if(query: FindQuery, tree: FindTree, descend: bool) -> Seq<ActionModel> {
    if descend {
        told_of_inside(query, tree)
    } else {
        Seq::empty()
    }
}

/// What is still to be told at a step.
spec fn to_tell(query: FindQuery, state: FindModel, action: ActionModel, host: FindHost) -> Seq<
    ActionModel,
> {
    let outer = told_of_open(query, state.frames, host.open);
    match state.phase {
        FindPhase::Root => told_of_root(query, host.current),
        FindPhase::RootShown { descend } => seq![action] + told_if(query, host.current, descend),
        FindPhase::RootOpened => told_of_inside(query, host.current),
        FindPhase::Reading => outer,
        FindPhase::Describing { descend } => seq![shown(host.current)] + told_if(
            query,
            host.current,
            descend,
        ) + outer,
        FindPhase::Showing { descend } => seq![action] + told_if(query, host.current, descend)
            + outer,
        FindPhase::Opening => told_of_inside(query, host.current) + outer,
        FindPhase::Reporting => seq![action] + outer,
        FindPhase::Ended => Seq::empty(),
    }
}

/// Whether search and host stand at the same step.
spec fn in_step(query: FindQuery, state: FindModel, action: ActionModel, host: FindHost) -> bool {
    &&& state.filter == query.filter
    &&& state.frames.len() == host.open.len()
    &&& state.current == host.current.path
    &&& match state.phase {
        FindPhase::Root => action is Describe && state.root_name == host.current.name
            && state.frames.len() == 0,
        FindPhase::RootShown { .. } => action is Show && state.frames.len() == 0,
        FindPhase::RootOpened => action is Open && state.frames.len() == 0,
        FindPhase::Reading => action is Read && state.frames.len() > 0,
        FindPhase::Describing { .. } => action is Describe,
        FindPhase::Showing { .. } => action is Show || action is Report,
        FindPhase::Opening => action is Open,
        FindPhase::Reporting => action is Report,
        FindPhase::Ended => action is Done,
    }
}

/// A step leaves to be told what it does not tell itself.
proof fn lemma_step(
    query: FindQuery,
    state: FindModel,
    action: ActionModel,
    host: FindHost,
    event: FindEvent,
)
    requires
        in_step(query, state, action, host),
        answers(host, action, event),
    ensures
        ({
            let (after, next) = find::next_step(query.pattern, state, event, false);
            let left = host_after(host, action);
            &&& in_step(query, after, next, left)
            &&& to_tell(query, state, action, host) == told_by(action) + to_tell(
                query,
                after,
                next,
                left,
            )
        }),
{
    let (after, next) = find::next_step(query.pattern, state, event, false);
    let left = host_after(host, action);
    let outer = told_of_open(query, state.frames, host.open);
    match state.phase {
        FindPhase::Reading => {
            let reads = host.open.last();
            let lower = told_of_open(query, state.frames.drop_last(), host.open.drop_last());
            if reads.len() == 0 {
                assert(outer =~= lower);
            } else {
                let rest = told_of_reads(
                    query,
                    state.frames.last(),
                    reads.subrange(1, reads.len() as int),
                );
                assert(left.open.drop_last() =~= host.open.drop_last());
                let below = told_of_open(query, state.frames, left.open);
                assert(below == rest + lower);
                match reads[0] {
                    FindRead::Failed(reason) => {
                        assert(outer =~= seq![failure("WalkFailed"@, state.frames.last(), reason)]
                            + below);
                    },
                    FindRead::Entry(tree) => {
                        assert(outer =~= told_of_entry(query, tree) + below);
                        if let Ok(facts) = tree.file_type {
                            let descend = find::goes_into(facts);
                            if find::wanted(query.pattern, query.filter, tree.name, facts) {
                                assert(told_of_entry(query, tree) =~= seq![shown(tree)] + told_if(
                                    query,
                                    tree,
                                    descend,
                                ));
                            } else {
                                assert(told_of_entry(query, tree) =~= told_if(
                                    query,
                                    tree,
                                    descend,
                                ));
                            }
                        }
                    },
                }
            }
        },
        FindPhase::RootOpened | FindPhase::Opening => {
            if host.current.opened is Ok {
                assert(left.open.drop_last() =~= host.open);
                assert(state.frames.push(state.current).drop_last() =~= state.frames);
            }
        },
        _ => {},
    }
    assert(to_tell(query, state, action, host) =~= told_by(action) + to_tell(
        query,
        after,
        next,
        left,
    ));
}

proof fn lemma_run(
    query: FindQuery,
    state: FindModel,
    action: ActionModel,
    host: FindHost,
    events: Seq<FindEvent>,
)
    requires
        in_step(query, state, action, host),
    ensures
        told_in_run(query, state, action, host, events) matches Some(told) ==> told == to_tell(
            query,
            state,
            action,
            host,
        ),
    decreases events.len(),
{
    if !(action is Done) && events.len() > 0 && answers(host, action, events[0]) {
        let (after, next) = find::next_step(query.pattern, state, events[0], false);
        lemma_step(query, state, action, host, events[0]);
        lemma_run(
            query,
            after,
            next,
            host_after(host, action),
            events.subrange(1, events.len() as int),
        );
    }
}

/// A search that is not stopped tells of a tree all that there is to tell, and nothing twice: of the root
/// and of every entry, in the order in which they are read, the entry itself where it is asked for,
/// directly followed by what lies in it where it is a directory and not a link. Failures are told in
/// the place of what they keep from being told.
pub proof fn search_tells_of_the_whole_tree(
    query: FindQuery,
    root: FindTree,
    state: FindModel,
    events: Seq<FindEvent>,
)
    requires
        state == (FindModel {
            filter: query.filter,
            root_name: root.name,
            frames: Seq::empty(),
            current: root.path,
            phase: FindPhase::Root,
        }),
    ensures
        told_in_run(
            query,
            state,
            ActionModel::Describe,
            FindHost { current: root, open: Seq::empty() },
            events,
        ) matches Some(told) ==> told == told_of_root(query, root),
{
    let host = FindHost { current: root, open: Seq::empty() };
    lemma_run(query, state, ActionModel::Describe, host, events);
}

/// How many steps the reads from a directory take at most, with the one that finds no more.
pub open spec fn steps_of_reads(reads: Seq<FindRead>) -> nat
    decreases reads, 2int,
{
    if reads.len() == 0 {
        1
    } else {
        steps_of_reads(reads.subrange(1, reads.len() as int)) + match reads[0] {
            FindRead::Failed(_) => 2,
            FindRead::Entry(tree) => 1 + steps_of_file(tree),
        }
    }
}

/// How many steps a file takes at most once it is named: to describe it, to show it, to open it, to report
/// that, and to read it.
pub open spec fn steps_of_file(tree: FindTree) -> nat
    decreases tree, 1int,
{
    4 + steps_of_reads(tree.entries)
}

spec fn steps_of_open(open: Seq<Seq<FindRead>>) -> nat
    decreases open.len(),
{
    if open.len() == 0 {
        0
    } else {
        steps_of_reads(open.last()) + steps_of_open(open.drop_last())
    }
}

/// How many steps are left at most.
spec fn steps_left(state: FindModel, host: FindHost) -> nat {
    let outer = steps_of_open(host.open);
    let inside = steps_of_reads(host.current.entries);
    match state.phase {
        FindPhase::Root => 4 + inside,
        FindPhase::RootShown { .. } => 3 + inside,
        FindPhase::RootOpened => 2 + inside,
        FindPhase::Reading => outer,
        FindPhase::Describing { .. } => 4 + inside + outer,
        FindPhase::Showing { .. } => 3 + inside + outer,
        FindPhase::Opening => 2 + inside + outer,
        FindPhase::Reporting => 1 + outer,
        FindPhase::Ended => 0,
    }
}

proof fn lemma_reads_take_steps(reads: Seq<FindRead>)
    ensures
        steps_of_reads(reads) >= 1,
    decreases reads.len(),
{
    if reads.len() > 0 {
        lemma_reads_take_steps(reads.subrange(1, reads.len() as int));
    }
}

proof fn lemma_fewer_steps(
    query: FindQuery,
    state: FindModel,
    action: ActionModel,
    host: FindHost,
    event: FindEvent,
)
    requires
        in_step(query, state, action, host),
        answers(host, action, event),
    ensures
        ({
            let (after, next) = find::next_step(query.pattern, state, event, false);
            steps_left(after, host_after(host, action)) < steps_left(state, host)
        }),
{
    let left = host_after(host, action);
    lemma_reads_take_steps(host.current.entries);
    match state.phase {
        FindPhase::Reading => {
            let reads = host.open.last();
            lemma_reads_take_steps(reads);
            if reads.len() > 0 {
                let rest = reads.subrange(1, reads.len() as int);
                assert(left.open.drop_last() =~= host.open.drop_last());
                assert(left.open.last() == rest);
                lemma_reads_take_steps(rest);
                let lower = steps_of_open(host.open.drop_last());
                assert(steps_of_open(left.open) == steps_of_reads(rest) + lower);
                assert(steps_of_open(host.open) == steps_of_reads(reads) + lower);
                if let FindRead::Entry(tree) = reads[0] {
                    assert(steps_of_reads(reads) == steps_of_reads(rest) + 1 + steps_of_file(tree));
                    lemma_reads_take_steps(tree.entries);
                } else {
                    assert(steps_of_reads(reads) == steps_of_reads(rest) + 2);
                }
            } else {
                assert(left.open =~= host.open.drop_last());
            }
        },
        FindPhase::RootOpened | FindPhase::Opening => {
            if host.current.opened is Ok {
                assert(left.open.drop_last() =~= host.open);
            }
        },
        _ => {},
    }
}

/// Whether events are what a host says that answers from a tree, from a step on.
pub open spec fn is_run(
    query: FindQuery,
    state: FindModel,
    action: ActionModel,
    host: FindHost,
    events: Seq<FindEvent>,
) -> bool
    decreases events.len(),
{
    events.len() > 0 ==> {
        let (after, next) = find::next_step(query.pattern, state, events[0], false);
        &&& answers(host, action, events[0])
        &&& is_run(
            query,
            after,
            next,
            host_after(host, action),
            events.subrange(1, events.len() as int),
        )
    }
}

proof fn lemma_run_is_short(
    query: FindQuery,
    state: FindModel,
    action: ActionModel,
    host: FindHost,
    events: Seq<FindEvent>,
)
    requires
        in_step(query, state, action, host),
        is_run(query, state, action, host, events),
    ensures
        events.len() <= steps_left(state, host),
    decreases events.len(),
{
    if events.len() > 0 {
        let (after, next) = find::next_step(query.pattern, state, events[0], false);
        lemma_step(query, state, action, host, events[0]);
        lemma_fewer_steps(query, state, action, host, events[0]);
        lemma_run_is_short(
            query,
            after,
            next,
            host_after(host, action),
            events.subrange(1, events.len() as int),
        );
    }
}

/// A search of a tree comes to its end: there are no more steps than the tree gives occasion for.
pub proof fn search_comes_to_an_end(
    query: FindQuery,
    root: FindTree,
    state: FindModel,
    events: Seq<FindEvent>,
)
    requires
        state == (FindModel {
            filter: query.filter,
            root_name: root.name,
            frames: Seq::empty(),
            current: root.path,
            phase: FindPhase::Root,
        }),
        is_run(
            query,
            state,
            ActionModel::Describe,
            FindHost { current: root, open: Seq::empty() },
            events,
        ),
    ensures
        events.len() <= steps_of_file(root),
{
    let host = FindHost { current: root, open: Seq::empty() };
    lemma_run_is_short(query, state, ActionModel::Describe, host, events);
}

} // verus!
