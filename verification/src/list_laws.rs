//! What `ls` shows of a tree of files from its start to its end.

use vstd::prelude::*;
use crate::find::TypeFacts;
use crate::list;
use crate::list::{ListActionModel, ListEvent, ListModel, ListPhase, NamedModel};
use crate::order;
use crate::path::NameModel;
use crate::report;
use crate::report::{FailureModel, FileFacts};

verus! {

/// A file with all that a host can say of it and, where it can be listed, what lies in it.
pub struct ListTree {
    pub name: NameModel,
    pub path: Seq<char>,
    /// The number under which the file is looked up.
    pub id: usize,
    pub file_type: Result<TypeFacts, FailureModel>,
    pub facts: Result<FileFacts, FailureModel>,
    pub listed: Result<(), FailureModel>,
    pub entries: Seq<ListTree>,
}

/// What is asked for.
pub struct ListQuery {
    pub show_all: bool,
    pub recursive: bool,
}

/// Files as a listing names them.
pub open spec fn named(trees: Seq<ListTree>) -> Seq<NamedModel> {
    Seq::new(
        trees.len(),
        |i: int| NamedModel { name: trees[i].name, path: trees[i].path, id: trees[i].id },
    )
}

/// Whether no two files have the same name.
pub open spec fn names_differ(trees: Seq<ListTree>) -> bool {
    forall|i: int, j: int|
        0 <= i < trees.len() && 0 <= j < trees.len() && i != j ==> (
        #[trigger] trees[i]).name.raw != (#[trigger] trees[j]).name.raw
}

/// Whether every file below a directory is looked up under its number, and no two files of one directory
/// have the same name.
pub open spec fn is_numbered(tree: ListTree, numbers: Map<usize, ListTree>) -> bool
    decreases tree,
{
    &&& names_differ(tree.entries)
    &&& forall|i: int|
        0 <= i < tree.entries.len() ==> numbers.contains_key((#[trigger] tree.entries[i]).id)
            && numbers[tree.entries[i].id] == tree.entries[i] && is_numbered(
            tree.entries[i],
            numbers,
        )
}

/// The places of the files that are listed, in the order of their names.
pub open spec fn places(query: ListQuery, trees: Seq<ListTree>) -> Seq<usize> {
    choose|places: Seq<usize>| list::listed_in_order(named(trees), query.show_all, places)
}

/// A failure at a path as it is reported.
pub open spec fn failure(code: Seq<char>, path: Seq<char>, reason: FailureModel) -> ListActionModel {
    ListActionModel::Report(report::io_report(code, path, reason))
}

/// The code of a failure at an entry.
pub open spec fn entry_code(query: ListQuery) -> Seq<char> {
    if query.recursive {
        "WalkFailed"@
    } else {
        "MetadataFailed"@
    }
}

/// Whether a listing goes on into an entry: a recursive one does where it is a directory and not a link.
pub open spec fn goes_into(query: ListQuery, tree: ListTree) -> bool {
    query.recursive && (tree.file_type matches Ok(kind) && kind.is_dir && !kind.is_symlink)
}

/// What is told of an entry: the entry itself, and behind it what lies in it where the listing goes on
/// into it.
pub open spec fn told_of_entry(query: ListQuery, tree: ListTree) -> Seq<ListActionModel>
    decreases tree, 1int, 0int,
{
    match (tree.file_type, tree.facts) {
        (Err(reason), _) if query.recursive => seq![failure(entry_code(query), tree.path, reason)],
        (_, Err(reason)) => seq![failure(entry_code(query), tree.path, reason)],
        (_, Ok(facts)) => {
            let itself = seq![ListActionModel::Show(report::file_record(tree.path, facts))];
            if goes_into(query, tree) {
                itself + told_of_inside(query, tree, "WalkFailed"@)
            } else {
                itself
            }
        },
    }
}

/// What is told of what lies in a directory, with the code for one that cannot be listed.
pub open spec fn told_of_inside(query: ListQuery, tree: ListTree, code: Seq<char>) -> Seq<
    ListActionModel,
>
    decreases tree, 0int, 0int,
{
    match tree.listed {
        Err(reason) => seq![failure(code, tree.path, reason)],
        Ok(()) => told_of_places(query, tree.entries, places(query, tree.entries), 0),
    }
}

/// What is told of the files at places, from one of these on.
pub open spec fn told_of_places(
    query: ListQuery,
    trees: Seq<ListTree>,
    places: Seq<usize>,
    from: int,
) -> Seq<ListActionModel>
    decreases trees, 0int, places.len() - from,
{
    if from < 0 || from >= places.len() || places[from] >= trees.len() {
        Seq::empty()
    } else {
        told_of_entry(query, trees[places[from] as int]) + told_of_places(
            query,
            trees,
            places,
            from + 1,
        )
    }
}

/// What is told of the path that is listed: what lies in it where it is a directory, and itself
/// otherwise.
pub open spec fn told_of_root(query: ListQuery, root: ListTree) -> Seq<ListActionModel> {
    match root.facts {
        Err(reason) => seq![failure("ListFailed"@, root.path, reason)],
        Ok(facts) => if facts.is_dir {
            told_of_inside(
                query,
                root,
                if query.recursive {
                    "WalkFailed"@
                } else {
                    "ListFailed"@
                },
            )
        } else {
            seq![ListActionModel::Show(report::file_record(root.path, facts))]
        },
    }
}

/// The steps that an entry takes: it is looked up, shown or reported, and gone into.
pub open spec fn steps_of_entry(query: ListQuery, tree: ListTree) -> nat
    decreases tree, 1int, 0int,
{
    if goes_into(query, tree) && tree.facts is Ok {
        2 + steps_of_inside(query, tree)
    } else {
        2
    }
}

/// The steps that what lies in a directory takes: it is listed, and its entries are gone through or the
/// failure is reported.
pub open spec fn steps_of_inside(query: ListQuery, tree: ListTree) -> nat
    decreases tree, 0int, 0int,
{
    match tree.listed {
        Err(_) => 2,
        Ok(()) => 1 + steps_of_places(query, tree.entries, places(query, tree.entries), 0),
    }
}

/// The steps that the files at places take, from one of these on.
pub open spec fn steps_of_places(
    query: ListQuery,
    trees: Seq<ListTree>,
    places: Seq<usize>,
    from: int,
) -> nat
    decreases trees, 0int, places.len() - from,
{
    if from < 0 || from >= places.len() || places[from] >= trees.len() {
        0
    } else {
        steps_of_entry(query, trees[places[from] as int]) + steps_of_places(
            query,
            trees,
            places,
            from + 1,
        )
    }
}

/// The steps that the path that is listed takes.
pub open spec fn steps_of_root(query: ListQuery, root: ListTree) -> nat {
    match root.facts {
        Err(_) => 2,
        Ok(facts) => if facts.is_dir {
            1 + steps_of_inside(query, root)
        } else {
            2
        },
    }
}

/// Whether a host says what is known of a file.
pub open spec fn says_facts(
    told: Result<FileFacts, report::IoFailure>,
    known: Result<FileFacts, FailureModel>,
) -> bool {
    match (told, known) {
        (Ok(facts), Ok(same)) => facts == same,
        (Err(reason), Err(same)) => reason@ == same,
        _ => false,
    }
}

/// Whether a host says what type a file has.
pub open spec fn says_type(
    told: Result<TypeFacts, report::IoFailure>,
    known: Result<TypeFacts, FailureModel>,
) -> bool {
    match (told, known) {
        (Ok(facts), Ok(same)) => facts == same,
        (Err(reason), Err(same)) => reason@ == same,
        _ => false,
    }
}

/// Whether a host says what lies in a file.
pub open spec fn says_listing(
    told: Result<Vec<list::NamedEntry>, report::IoFailure>,
    tree: ListTree,
) -> bool {
    match (told, tree.listed) {
        (Ok(entries), Ok(_)) => list::named_models(entries@) == named(tree.entries),
        (Err(reason), Err(same)) => reason@ == same,
        _ => false,
    }
}

/// Whether an event is what a host says that does what it is asked to do.
pub open spec fn answers(
    root: ListTree,
    numbers: Map<usize, ListTree>,
    action: ListActionModel,
    event: ListEvent,
) -> bool {
    match action {
        ListActionModel::Describe => event matches ListEvent::Described(told) && says_facts(
            told,
            root.facts,
        ),
        ListActionModel::List { directory } => event matches ListEvent::Listed(told)
            && says_listing(
            told,
            match directory {
                Some(id) => numbers[id],
                None => root,
            },
        ),
        ListActionModel::Visit { id } => event matches ListEvent::Visited { file_type, facts }
            && says_type(file_type, numbers[id].file_type) && says_facts(facts, numbers[id].facts),
        ListActionModel::Show(_) => event == ListEvent::Shown(true),
        ListActionModel::Report(_) => event is Reported,
        ListActionModel::Done => false,
    }
}

/// What an action tells.
pub open spec fn told_by(action: ListActionModel) -> Seq<ListActionModel> {
    if action is Show || action is Report {
        seq![action]
    } else {
        Seq::empty()
    }
}

/// One step of a listing: what the host said, and what followed.
pub struct ListStep {
    pub event: ListEvent,
    pub after: ListModel,
    pub action: ListActionModel,
}

/// What a listing tells in the course of steps, to its end; `None` where the steps are not those of a
/// listing with a host that answers from the tree, or come to no end.
pub open spec fn told_in_run(
    root: ListTree,
    numbers: Map<usize, ListTree>,
    state: ListModel,
    action: ListActionModel,
    steps: Seq<ListStep>,
) -> Option<Seq<ListActionModel>>
    decreases steps.len(),
{
    if action is Done {
        if steps.len() == 0 {
            Some(Seq::empty())
        } else {
            None
        }
    } else if steps.len() == 0 || !answers(root, numbers, action, steps[0].event)
        || !list::follows(state, steps[0].event, false, (steps[0].after, steps[0].action)) {
        None
    } else {
        match told_in_run(
            root,
            numbers,
            steps[0].after,
            steps[0].action,
            steps.subrange(1, steps.len() as int),
        ) {
            Some(rest) => Some(told_by(action) + rest),
            None => None,
        }
    }
}

/// Whether steps are the first ones of a listing with a host that answers from the tree.
pub open spec fn is_run(
    root: ListTree,
    numbers: Map<usize, ListTree>,
    state: ListModel,
    action: ListActionModel,
    steps: Seq<ListStep>,
) -> bool
    decreases steps.len(),
{
    steps.len() == 0 || (!(action is Done) && answers(root, numbers, action, steps[0].event)
        && list::follows(state, steps[0].event, false, (steps[0].after, steps[0].action)) && is_run(
        root,
        numbers,
        steps[0].after,
        steps[0].action,
        steps.subrange(1, steps.len() as int),
    ))
}

/// Two orders in which files with different names are listed begin with the same files.
proof fn lemma_one_order(
    query: ListQuery,
    trees: Seq<ListTree>,
    first: Seq<usize>,
    second: Seq<usize>,
    count: int,
)
    requires
        names_differ(trees),
        list::listed_in_order(named(trees), query.show_all, first),
        list::listed_in_order(named(trees), query.show_all, second),
        0 <= count <= first.len(),
    ensures
        count <= second.len(),
        forall|i: int| 0 <= i < count ==> first[i] == #[trigger] second[i],
    decreases count,
{
    if count > 0 {
        let last = count - 1;
        lemma_one_order(query, trees, first, second, last);
        let here = first[last];
        assert(first.contains(here));
        assert(here < named(trees).len());
        assert(second.contains(here));
        let k = choose|k: int| 0 <= k < second.len() && second[k] == here;
        if k < last {
            assert(first[k] == second[k]);
            assert(false);
        }
        let there = second[last];
        assert(second.contains(there));
        assert(there < named(trees).len());
        assert(first.contains(there));
        let m = choose|m: int| 0 <= m < first.len() && first[m] == there;
        if m < last {
            assert(first[m] == second[m]);
            assert(false);
        }
        if here != there {
            let one = trees[here as int].name.raw;
            let other = trees[there as int].name.raw;
            assert(order::name_le(
                named(trees)[first[last] as int].name.raw,
                named(trees)[first[m] as int].name.raw,
            ));
            assert(order::name_le(
                named(trees)[second[last] as int].name.raw,
                named(trees)[second[k] as int].name.raw,
            ));
            order::names_are_ordered(one, other);
            assert(false);
        }
    }
}

/// There is one order in which files with different names are listed: each of them that is not hidden,
/// or that is to be shown all the same, once and in the order of their names.
pub proof fn listing_has_one_order(query: ListQuery, trees: Seq<ListTree>, found: Seq<usize>)
    requires
        names_differ(trees),
        list::listed_in_order(named(trees), query.show_all, found),
    ensures
        places(query, trees) == found,
        list::listed_in_order(named(trees), query.show_all, places(query, trees)),
{
    let order = places(query, trees);
    lemma_one_order(query, trees, order, found, order.len() as int);
    lemma_one_order(query, trees, found, order, found.len() as int);
    assert(order =~= found);
}

/// What is told of the entries that are still to be looked up, the last first.
spec fn told_of_stack(
    query: ListQuery,
    numbers: Map<usize, ListTree>,
    stack: Seq<NamedModel>,
) -> Seq<ListActionModel>
    decreases stack.len(),
{
    if stack.len() == 0 {
        Seq::empty()
    } else {
        told_of_entry(query, numbers[stack.last().id]) + told_of_stack(
            query,
            numbers,
            stack.drop_last(),
        )
    }
}

/// The steps that the entries that are still to be looked up take.
spec fn steps_of_stack(
    query: ListQuery,
    numbers: Map<usize, ListTree>,
    stack: Seq<NamedModel>,
) -> nat
    decreases stack.len(),
{
    if stack.len() == 0 {
        0
    } else {
        steps_of_entry(query, numbers[stack.last().id]) + steps_of_stack(
            query,
            numbers,
            stack.drop_last(),
        )
    }
}

/// Whether an entry is named as it is known.
spec fn is_known(entry: NamedModel, numbers: Map<usize, ListTree>) -> bool {
    &&& numbers.contains_key(entry.id)
    &&& numbers[entry.id].path == entry.path
    &&& numbers[entry.id].id == entry.id
    &&& is_numbered(numbers[entry.id], numbers)
}

spec fn are_known(entries: Seq<NamedModel>, numbers: Map<usize, ListTree>) -> bool {
    forall|i: int| 0 <= i < entries.len() ==> is_known(#[trigger] entries[i], numbers)
}

/// Pushing the entries of a directory, the last first, puts what is told of them before all else, and
/// adds the steps that they take.
proof fn lemma_pushed(
    query: ListQuery,
    numbers: Map<usize, ListTree>,
    stack: Seq<NamedModel>,
    tree: ListTree,
    found: Seq<usize>,
    from: int,
)
    requires
        is_numbered(tree, numbers),
        list::listed_in_order(named(tree.entries), query.show_all, found),
        0 <= from <= found.len(),
    ensures
        ({
            let picked = list::picked(named(tree.entries), found);
            let pushed = stack + picked.subrange(from, picked.len() as int).reverse();
            &&& told_of_stack(query, numbers, pushed) == told_of_places(
                query,
                tree.entries,
                found,
                from,
            ) + told_of_stack(query, numbers, stack)
            &&& steps_of_stack(query, numbers, pushed) == steps_of_places(
                query,
                tree.entries,
                found,
                from,
            ) + steps_of_stack(query, numbers, stack)
        }),
    decreases found.len() - from,
{
    let picked = list::picked(named(tree.entries), found);
    let pushed = stack + picked.subrange(from, picked.len() as int).reverse();
    let below = told_of_stack(query, numbers, stack);
    if from == found.len() {
        assert(pushed =~= stack);
        assert(Seq::<ListActionModel>::empty() + below =~= below);
    } else {
        lemma_pushed(query, numbers, stack, tree, found, from + 1);
        assert(pushed.last() == picked[from]);
        assert(pushed.drop_last() =~= stack + picked.subrange(
            from + 1,
            picked.len() as int,
        ).reverse());
        let place = found[from] as int;
        assert(numbers[tree.entries[place].id] == tree.entries[place]);
        let first = told_of_entry(query, tree.entries[place]);
        let rest = told_of_places(query, tree.entries, found, from + 1);
        assert(first + (rest + below) =~= (first + rest) + below);
    }
}

/// What is still to be told at a step.
spec fn to_tell(
    query: ListQuery,
    root: ListTree,
    numbers: Map<usize, ListTree>,
    state: ListModel,
    action: ListActionModel,
) -> Seq<ListActionModel> {
    let later = told_of_stack(query, numbers, state.stack);
    let current = numbers[state.current_id];
    match state.phase {
        ListPhase::Root => told_of_root(query, root),
        ListPhase::RootListed => told_of_inside(
            query,
            root,
            if query.recursive {
                "WalkFailed"@
            } else {
                "ListFailed"@
            },
        ),
        ListPhase::Visiting => told_of_entry(query, current) + later,
        ListPhase::Showing { descend } => seq![action] + (if descend {
            told_of_inside(query, current, "WalkFailed"@)
        } else {
            Seq::empty()
        }) + later,
        ListPhase::Listing => told_of_inside(query, current, "WalkFailed"@) + later,
        ListPhase::Reporting => seq![action] + later,
        ListPhase::Ended => Seq::empty(),
    }
}

/// The steps that are left.
spec fn steps_left(
    query: ListQuery,
    root: ListTree,
    numbers: Map<usize, ListTree>,
    state: ListModel,
) -> nat {
    let later = steps_of_stack(query, numbers, state.stack);
    let current = numbers[state.current_id];
    match state.phase {
        ListPhase::Root => steps_of_root(query, root),
        ListPhase::RootListed => steps_of_inside(query, root),
        ListPhase::Visiting => steps_of_entry(query, current) + later,
        ListPhase::Showing { descend } => 1 + later + (if descend {
            steps_of_inside(query, current)
        } else {
            0
        }),
        ListPhase::Listing => steps_of_inside(query, current) + later,
        ListPhase::Reporting => 1 + later,
        ListPhase::Ended => 0,
    }
}

/// Whether listing and host stand at the same step.
spec fn in_step(
    query: ListQuery,
    root: ListTree,
    numbers: Map<usize, ListTree>,
    state: ListModel,
    action: ListActionModel,
) -> bool {
    &&& state.path == root.path
    &&& state.show_all == query.show_all
    &&& state.recursive == query.recursive
    &&& is_numbered(root, numbers)
    &&& are_known(state.stack, numbers)
    &&& match state.phase {
        ListPhase::Root => action is Describe && state.stack.len() == 0,
        ListPhase::RootListed => action == (ListActionModel::List { directory: None })
            && state.stack.len() == 0,
        ListPhase::Visiting => action == (ListActionModel::Visit { id: state.current_id })
            && is_current(numbers, state),
        ListPhase::Showing { descend } => action is Show && (descend ==> is_current(
            numbers,
            state,
        )),
        ListPhase::Listing => action == (ListActionModel::List {
            directory: Some(state.current_id),
        }) && is_current(numbers, state),
        ListPhase::Reporting => action is Report,
        ListPhase::Ended => action is Done,
    }
}

spec fn is_current(numbers: Map<usize, ListTree>, state: ListModel) -> bool {
    is_known(
        NamedModel {
            name: numbers[state.current_id].name,
            path: state.current_path,
            id: state.current_id,
        },
        numbers,
    )
}

/// Going on to the next entry leaves all to be told of the entries that are left.
proof fn lemma_next(
    query: ListQuery,
    root: ListTree,
    numbers: Map<usize, ListTree>,
    state: ListModel,
)
    requires
        state.path == root.path,
        state.show_all == query.show_all,
        state.recursive == query.recursive,
        is_numbered(root, numbers),
        are_known(state.stack, numbers),
    ensures
        ({
            let (after, action) = list::next_entry(state, false);
            &&& in_step(query, root, numbers, after, action)
            &&& to_tell(query, root, numbers, after, action) == told_of_stack(
                query,
                numbers,
                state.stack,
            )
            &&& steps_left(query, root, numbers, after) == steps_of_stack(
                query,
                numbers,
                state.stack,
            )
        }),
{
    if state.stack.len() > 0 {
        assert(state.stack.last() == state.stack[state.stack.len() - 1]);
        assert(is_known(state.stack[state.stack.len() - 1], numbers));
    }
}

/// Listing a directory leaves all to be told of its entries, and of those that are left.
proof fn lemma_listed(
    query: ListQuery,
    root: ListTree,
    numbers: Map<usize, ListTree>,
    state: ListModel,
    tree: ListTree,
    after: ListModel,
    next: ListActionModel,
)
    requires
        state.path == root.path,
        state.show_all == query.show_all,
        state.recursive == query.recursive,
        is_numbered(root, numbers),
        is_numbered(tree, numbers),
        are_known(state.stack, numbers),
        list::follows_listing(state, named(tree.entries), false, (after, next)),
    ensures
        in_step(query, root, numbers, after, next),
        to_tell(query, root, numbers, after, next) == told_of_places(
            query,
            tree.entries,
            places(query, tree.entries),
            0,
        ) + told_of_stack(query, numbers, state.stack),
        steps_left(query, root, numbers, after) == steps_of_places(
            query,
            tree.entries,
            places(query, tree.entries),
            0,
        ) + steps_of_stack(query, numbers, state.stack),
{
    let entries = named(tree.entries);
    let found = choose|found: Seq<usize>| #[trigger]
        list::listed_in_order(entries, state.show_all, found) && (after, next)
            == list::next_entry(
            ListModel { stack: state.stack + list::picked(entries, found).reverse(), ..state },
            false,
        );
    listing_has_one_order(query, tree.entries, found);
    let picked = list::picked(entries, found);
    let pushed = ListModel { stack: state.stack + picked.reverse(), ..state };
    assert forall|i: int| 0 <= i < pushed.stack.len() implies is_known(
        #[trigger] pushed.stack[i],
        numbers,
    ) by {
        if i < state.stack.len() {
            assert(pushed.stack[i] == state.stack[i]);
        } else {
            let place = found[picked.len() - 1 - (i - state.stack.len())] as int;
            assert(pushed.stack[i] == entries[place]);
            assert(numbers[tree.entries[place].id] == tree.entries[place]);
        }
    }
    lemma_next(query, root, numbers, pushed);
    lemma_pushed(query, numbers, state.stack, tree, found, 0);
    assert(picked.subrange(0, picked.len() as int) =~= picked);
}

/// A step leaves to be told what it does not tell itself.
proof fn lemma_step(
    query: ListQuery,
    root: ListTree,
    numbers: Map<usize, ListTree>,
    state: ListModel,
    action: ListActionModel,
    event: ListEvent,
    after: ListModel,
    next: ListActionModel,
)
    requires
        in_step(query, root, numbers, state, action),
        answers(root, numbers, action, event),
        list::follows(state, event, false, (after, next)),
    ensures
        in_step(query, root, numbers, after, next),
        to_tell(query, root, numbers, state, action) == told_by(action) + to_tell(
            query,
            root,
            numbers,
            after,
            next,
        ),
        steps_left(query, root, numbers, state) == 1 + steps_left(query, root, numbers, after),
{
    let current = numbers[state.current_id];
    match state.phase {
        ListPhase::RootListed => {
            if root.listed is Ok {
                lemma_listed(query, root, numbers, state, root, after, next);
            }
        },
        ListPhase::Listing => {
            if current.listed is Ok {
                lemma_listed(query, root, numbers, state, current, after, next);
            }
        },
        ListPhase::Showing { descend } => {
            if !descend {
                lemma_next(query, root, numbers, state);
            }
        },
        ListPhase::Reporting => {
            lemma_next(query, root, numbers, state);
        },
        _ => {},
    }
    assert(to_tell(query, root, numbers, state, action) =~= told_by(action) + to_tell(
        query,
        root,
        numbers,
        after,
        next,
    ));
}

proof fn lemma_run(
    query: ListQuery,
    root: ListTree,
    numbers: Map<usize, ListTree>,
    state: ListModel,
    action: ListActionModel,
    steps: Seq<ListStep>,
)
    requires
        in_step(query, root, numbers, state, action),
    ensures
        told_in_run(root, numbers, state, action, steps) matches Some(told) ==> told == to_tell(
            query,
            root,
            numbers,
            state,
            action,
        ),
        is_run(root, numbers, state, action, steps) ==> steps.len() <= steps_left(
            query,
            root,
            numbers,
            state,
        ),
    decreases steps.len(),
{
    if !(action is Done) && steps.len() > 0 && answers(root, numbers, action, steps[0].event)
        && list::follows(state, steps[0].event, false, (steps[0].after, steps[0].action)) {
        let step = steps[0];
        lemma_step(query, root, numbers, state, action, step.event, step.after, step.action);
        lemma_run(
            query,
            root,
            numbers,
            step.after,
            step.action,
            steps.subrange(1, steps.len() as int),
        );
    }
}

/// A listing that is not stopped tells of a tree all that there is to tell, and nothing twice: of each
/// directory its entries in the order of their names, and where it is recursive, directly behind an entry
/// that is a directory and not a link what lies in it. Failures are told in the place of what they
/// keep from being told.
pub proof fn listing_tells_of_the_whole_tree(
    query: ListQuery,
    root: ListTree,
    numbers: Map<usize, ListTree>,
    state: ListModel,
    steps: Seq<ListStep>,
)
    requires
        is_numbered(root, numbers),
        state == (ListModel {
            path: root.path,
            show_all: query.show_all,
            recursive: query.recursive,
            stack: Seq::empty(),
            current_path: Seq::empty(),
            current_id: 0,
            phase: ListPhase::Root,
        }),
    ensures
        told_in_run(root, numbers, state, ListActionModel::Describe, steps) matches Some(told)
            ==> told == told_of_root(query, root),
{
    lemma_run(query, root, numbers, state, ListActionModel::Describe, steps);
}

/// A listing of a tree comes to its end: there are no more steps than the tree gives occasion for.
pub proof fn listing_comes_to_an_end(
    query: ListQuery,
    root: ListTree,
    numbers: Map<usize, ListTree>,
    state: ListModel,
    steps: Seq<ListStep>,
)
    requires
        is_numbered(root, numbers),
        state == (ListModel {
            path: root.path,
            show_all: query.show_all,
            recursive: query.recursive,
            stack: Seq::empty(),
            current_path: Seq::empty(),
            current_id: 0,
            phase: ListPhase::Root,
        }),
        is_run(root, numbers, state, ListActionModel::Describe, steps),
    ensures
        steps.len() <= steps_of_root(query, root),
{
    lemma_run(query, root, numbers, state, ListActionModel::Describe, steps);
}

} // verus!
