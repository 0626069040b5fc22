//! Patterns that stand for a few literals, which are found faster than other patterns.

use vstd::prelude::*;
use vstd::utf8::*;
use crate::chars::text_of;
use crate::pattern;
use crate::pattern::{MAX_FAST_LITERALS, MAX_FAST_LITERAL_BYTES};
use crate::text;
use crate::text::copy_bytes;
use crate::tree;
use crate::tree::{Expr, Tree};

verus! {

/// Each of some literals with each of others behind it, in order.
pub open spec fn combined(before: Seq<Seq<u8>>, next: Seq<Seq<u8>>) -> Seq<Seq<u8>>
    decreases before.len(),
{
    if before.len() == 0 {
        Seq::empty()
    } else {
        combined(before.drop_last(), next) + extended(before.last(), next)
    }
}

/// A literal with each of others behind it, in order.
pub open spec fn extended(first: Seq<u8>, next: Seq<Seq<u8>>) -> Seq<Seq<u8>> {
    Seq::new(next.len(), |i: int| first + next[i])
}

/// Whether a literal and one behind it are together too long.
pub open spec fn too_long(before: Seq<Seq<u8>>, next: Seq<Seq<u8>>) -> bool {
    exists|i: int, j: int|
        0 <= i < before.len() && 0 <= j < next.len() && (#[trigger] before[i]).len() + (
        #[trigger] next[j]).len() > MAX_FAST_LITERAL_BYTES
}

/// The literals that a pattern stands for, in the order in which they are preferred, unless they are
/// too many or too long, or the pattern stands for something else.
pub open spec fn literals_of(tree: Tree) -> Option<Seq<Seq<u8>>>
    decreases tree, 0nat,
{
    match tree {
        Tree::Empty => Some(seq![Seq::empty()]),
        Tree::Literal(bytes) => Some(seq![bytes]),
        Tree::Unicode(ranges) => if ranges.len() == 1 && ranges[0].0 == ranges[0].1 {
            Some(seq![encode_utf8(seq![ranges[0].0])])
        } else {
            None
        },
        Tree::Bytes(ranges) => if ranges.len() == 1 && ranges[0].0 == ranges[0].1 {
            Some(seq![seq![ranges[0].0]])
        } else {
            None
        },
        Tree::Look(_) => None,
        Tree::Repetition { .. } => None,
        Tree::Capture { index, name, sub } => literals_of(*sub),
        Tree::Concat(subs) => joined_literals(subs, subs.len()),
        Tree::Alternation(subs) => listed_literals(subs, subs.len()),
    }
}

/// The literals that the first `count` of patterns stand for, one behind the other.
pub open spec fn joined_literals(trees: Seq<Tree>, count: nat) -> Option<Seq<Seq<u8>>>
    decreases trees, count,
{
    if count == 0 || count > trees.len() {
        Some(seq![Seq::empty()])
    } else {
        match (joined_literals(trees, (count - 1) as nat), literals_of(trees[count - 1])) {
            (Some(before), Some(next)) => if before.len() * next.len() > MAX_FAST_LITERALS
                || too_long(before, next) {
                None
            } else {
                Some(combined(before, next))
            },
            _ => None,
        }
    }
}

/// The literals that the first `count` of patterns stand for, each by itself.
pub open spec fn listed_literals(trees: Seq<Tree>, count: nat) -> Option<Seq<Seq<u8>>>
    decreases trees, count,
{
    if count == 0 || count > trees.len() {
        Some(Seq::empty())
    } else {
        match (listed_literals(trees, (count - 1) as nat), literals_of(trees[count - 1])) {
            (Some(before), Some(next)) => if before.len() + next.len() > MAX_FAST_LITERALS {
                None
            } else {
                Some(before + next)
            },
            _ => None,
        }
    }
}

/// Literals as a value of the specification.
pub open spec fn some_literals(literals: Option<Vec<Vec<u8>>>) -> Option<Seq<Seq<u8>>> {
    match literals {
        Some(list) => Some(text::byte_strings(list@)),
        None => None,
    }
}

/// The literals that a pattern stands for, where they are few.
pub fn literal_alternatives(expr: &Expr) -> (result: Option<Vec<Vec<u8>>>)
    ensures
        some_literals(result) == literals_of(expr.tree()),
        result matches Some(list) ==> list.len() <= MAX_FAST_LITERALS,
    decreases expr,
{
    match expr {
        Expr::Empty => {
            let none: Vec<u8> = Vec::new();
            Some(single(none))
        },
        Expr::Literal(bytes) => Some(single(copy_bytes(bytes.as_slice()))),
        Expr::Unicode(ranges) => {
            if ranges.len() == 1 && ranges[0].0 == ranges[0].1 {
                let value: [char; 1] = [ranges[0].0];
                let written: String = text_of(value.as_slice());
                assert(value@ =~= seq![ranges[0].0]);
                Some(single(copy_bytes(written.as_str().as_bytes())))
            } else {
                None
            }
        },
        Expr::Bytes(ranges) => {
            if ranges.len() == 1 && ranges[0].0 == ranges[0].1 {
                let mut byte: Vec<u8> = Vec::new();
                byte.push(ranges[0].0);
                assert(byte@ =~= seq![ranges[0].0]);
                Some(single(byte))
            } else {
                None
            }
        },
        Expr::Look(_) => None,
        Expr::Repetition { min, max, greedy, sub } => None,
        Expr::Capture { index, name, sub } => literal_alternatives(sub),
        Expr::Concat(subs) => {
            proof {
                tree::trees_of_subs(*subs);
            }
            join_alternatives(subs)
        },
        Expr::Alternation(subs) => {
            proof {
                tree::trees_of_subs(*subs);
            }
            list_alternatives(subs)
        },
    }
}

/// A list of one literal.
fn single(literal: Vec<u8>) -> (result: Vec<Vec<u8>>)
    ensures
        text::byte_strings(result@) == seq![literal@],
        result.len() == 1,
{
    let mut result: Vec<Vec<u8>> = Vec::new();
    result.push(literal);
    assert(text::byte_strings(result@) =~= seq![literal@]);
    result
}

/// The literals that patterns stand for, each by itself.
fn list_alternatives(subs: &Vec<Expr>) -> (result: Option<Vec<Vec<u8>>>)
    ensures
        some_literals(result) == listed_literals(tree::expr_trees(subs@), subs@.len()),
        result matches Some(list) ==> list.len() <= MAX_FAST_LITERALS,
    decreases subs,
{
    let mut result: Vec<Vec<u8>> = Vec::new();
    let mut index: usize = 0;
    let ghost trees = tree::expr_trees(subs@);
    assert(text::byte_strings(result@) =~= Seq::<Seq<u8>>::empty());
    while index < subs.len()
        invariant
            index <= subs.len(),
            trees == tree::expr_trees(subs@),
            result.len() <= MAX_FAST_LITERALS,
            listed_literals(trees, index as nat) == Some(text::byte_strings(result@)),
        decreases subs.len() - index,
    {
        proof {
            assert(trees[index as int] == subs[index as int].tree());
            assert(decreases_to!(subs => subs@));
            assert(decreases_to!(subs@ => subs@[index as int]));
        }
        let ghost before = text::byte_strings(result@);
        match literal_alternatives(&subs[index]) {
            None => {
                proof {
                    lemma_not_listed(trees, (index + 1) as nat, subs@.len());
                }
                return None;
            },
            Some(next) => {
                if result.len() + next.len() > MAX_FAST_LITERALS {
                    proof {
                        lemma_not_listed(trees, (index + 1) as nat, subs@.len());
                    }
                    return None;
                }
                let ghost model = text::byte_strings(next@);
                let mut next: Vec<Vec<u8>> = next;
                result.append(&mut next);
                assert(text::byte_strings(result@) =~= before + model);
            },
        }
        index += 1;
    }
    Some(result)
}

/// The literals that patterns stand for, one behind the other.
fn join_alternatives(subs: &Vec<Expr>) -> (result: Option<Vec<Vec<u8>>>)
    ensures
        some_literals(result) == joined_literals(tree::expr_trees(subs@), subs@.len()),
        result matches Some(list) ==> list.len() <= MAX_FAST_LITERALS,
    decreases subs,
{
    let none: Vec<u8> = Vec::new();
    let mut result: Vec<Vec<u8>> = single(none);
    let mut index: usize = 0;
    let ghost trees = tree::expr_trees(subs@);
    while index < subs.len()
        invariant
            index <= subs.len(),
            trees == tree::expr_trees(subs@),
            result.len() <= MAX_FAST_LITERALS,
            joined_literals(trees, index as nat) == Some(text::byte_strings(result@)),
        decreases subs.len() - index,
    {
        proof {
            assert(trees[index as int] == subs[index as int].tree());
            assert(decreases_to!(subs => subs@));
            assert(decreases_to!(subs@ => subs@[index as int]));
        }
        match literal_alternatives(&subs[index]) {
            None => {
                proof {
                    lemma_not_joined(trees, (index + 1) as nat, subs@.len());
                }
                return None;
            },
            Some(next) => {
                match combine(&result, &next) {
                    None => {
                        proof {
                            lemma_not_joined(trees, (index + 1) as nat, subs@.len());
                        }
                        return None;
                    },
                    Some(both) => {
                        result = both;
                    },
                }
            },
        }
        index += 1;
    }
    Some(result)
}

proof fn lemma_not_listed(trees: Seq<Tree>, count: nat, total: nat)
    requires
        count <= total <= trees.len(),
        listed_literals(trees, count) is None,
    ensures
        listed_literals(trees, total) is None,
    decreases total - count,
{
    if count < total {
        lemma_not_listed(trees, count + 1, total);
    }
}

proof fn lemma_not_joined(trees: Seq<Tree>, count: nat, total: nat)
    requires
        count <= total <= trees.len(),
        joined_literals(trees, count) is None,
    ensures
        joined_literals(trees, total) is None,
    decreases total - count,
{
    if count < total {
        lemma_not_joined(trees, count + 1, total);
    }
}

/// Each of some literals with each of others behind it, unless these are too many or too long.
fn combine(before: &Vec<Vec<u8>>, next: &Vec<Vec<u8>>) -> (result: Option<Vec<Vec<u8>>>)
    requires
        before.len() <= MAX_FAST_LITERALS,
        next.len() <= MAX_FAST_LITERALS,
    ensures
        ({
            let heads = text::byte_strings(before@);
            let tails = text::byte_strings(next@);
            match result {
                Some(list) => {
                    &&& text::byte_strings(list@) == combined(heads, tails)
                    &&& heads.len() * tails.len() <= MAX_FAST_LITERALS
                    &&& !too_long(heads, tails)
                    &&& list.len() <= MAX_FAST_LITERALS
                },
                None => heads.len() * tails.len() > MAX_FAST_LITERALS || too_long(heads, tails),
            }
        }),
{
    let ghost heads = text::byte_strings(before@);
    let ghost tails = text::byte_strings(next@);
    assert(before.len() * next.len() <= 128 * 128) by (nonlinear_arith)
        requires
            before.len() <= 128,
            next.len() <= 128,
    ;
    if before.len() * next.len() > MAX_FAST_LITERALS {
        return None;
    }
    let mut result: Vec<Vec<u8>> = Vec::new();
    let mut index: usize = 0;
    assert(text::byte_strings(result@) =~= Seq::<Seq<u8>>::empty());
    while index < before.len()
        invariant
            index <= before.len(),
            heads == text::byte_strings(before@),
            tails == text::byte_strings(next@),
            result.len() == index * next.len(),
            text::byte_strings(result@) == combined(heads.subrange(0, index as int), tails),
            forall|i: int, j: int|
                0 <= i < index && 0 <= j < tails.len() ==> (#[trigger] heads[i]).len() + (
                #[trigger] tails[j]).len() <= MAX_FAST_LITERAL_BYTES,
        decreases before.len() - index,
    {
        let head: &Vec<u8> = &before[index];
        let ghost sofar = text::byte_strings(result@);
        let mut inner: usize = 0;
        proof {
            assert(extended(head@, tails).subrange(0, 0) =~= Seq::<Seq<u8>>::empty());
            assert(sofar =~= sofar + extended(head@, tails).subrange(0, 0));
        }
        while inner < next.len()
            invariant
                index < before.len(),
                inner <= next.len(),
                heads == text::byte_strings(before@),
                tails == text::byte_strings(next@),
                head@ == heads[index as int],
                result.len() == index * next.len() + inner,
                text::byte_strings(result@) == sofar + extended(head@, tails).subrange(
                    0,
                    inner as int,
                ),
                forall|j: int|
                    0 <= j < inner ==> head@.len() + (#[trigger] tails[j]).len()
                        <= MAX_FAST_LITERAL_BYTES,
            decreases next.len() - inner,
        {
            let tail: &Vec<u8> = &next[inner];
            assert(tail@ == tails[inner as int]);
            let head_len: usize = head.len();
            let tail_len: usize = tail.len();
            if head_len > MAX_FAST_LITERAL_BYTES || tail_len > MAX_FAST_LITERAL_BYTES - head_len {
                assert(heads[index as int].len() + tails[inner as int].len()
                    > MAX_FAST_LITERAL_BYTES);
                return None;
            }
            let mut literal: Vec<u8> = copy_bytes(head.as_slice());
            let mut rest: Vec<u8> = copy_bytes(tail.as_slice());
            literal.append(&mut rest);
            let ghost earlier = text::byte_strings(result@);
            let ghost model = literal@;
            result.push(literal);
            proof {
                assert(model =~= head@ + tail@);
                assert(text::byte_strings(result@) =~= earlier.push(model));
                assert(extended(head@, tails).subrange(0, inner + 1) =~= extended(
                    head@,
                    tails,
                ).subrange(0, inner as int).push(model));
                assert(text::byte_strings(result@) =~= sofar + extended(head@, tails).subrange(
                    0,
                    inner + 1,
                ));
            }
            inner += 1;
        }
        proof {
            assert(extended(head@, tails).subrange(0, tails.len() as int) =~= extended(
                head@,
                tails,
            ));
            let here = heads.subrange(0, index + 1);
            assert(here.last() == head@);
            assert(here.drop_last() =~= heads.subrange(0, index as int));
            assert((index + 1) * next.len() == index * next.len() + next.len())
                by (nonlinear_arith);
        }
        index += 1;
    }
    assert(heads.subrange(0, heads.len() as int) =~= heads);
    Some(result)
}

/// Whether literals are few and short enough, and none of them is empty.
pub open spec fn fast_literals(literals: Seq<Seq<u8>>) -> bool {
    &&& 0 < literals.len() <= MAX_FAST_LITERALS
    &&& forall|i: int|
        0 <= i < literals.len() ==> 0 < (#[trigger] literals[i]).len() <= MAX_FAST_LITERAL_BYTES
}

/// Whether the fast path takes literals.
pub fn literals_are_fast(literals: &[Vec<u8>]) -> (result: bool)
    ensures
        result == fast_literals(text::byte_strings(literals@)),
{
    let ghost model = text::byte_strings(literals@);
    if literals.len() == 0 || literals.len() > MAX_FAST_LITERALS {
        return false;
    }
    let mut index: usize = 0;
    while index < literals.len()
        invariant
            index <= literals.len(),
            model == text::byte_strings(literals@),
            forall|i: int|
                0 <= i < index ==> 0 < (#[trigger] model[i]).len() <= MAX_FAST_LITERAL_BYTES,
        decreases literals.len() - index,
    {
        assert(model[index as int] == literals[index as int]@);
        if literals[index].len() == 0 || literals[index].len() > MAX_FAST_LITERAL_BYTES {
            return false;
        }
        index += 1;
    }
    true
}

/// Whether a pattern without look-arounds and repetitions matches a whole word.
pub open spec fn says(tree: Tree, word: Seq<u8>) -> bool
    decreases tree, 0nat,
{
    match tree {
        Tree::Empty => word.len() == 0,
        Tree::Literal(bytes) => word == bytes,
        Tree::Unicode(ranges) => exists|value: char|
            pattern::in_chars(ranges, value) && word == #[trigger] encode_utf8(seq![value]),
        Tree::Bytes(ranges) => word.len() == 1 && pattern::in_bytes(ranges, word[0]),
        Tree::Look(_) => false,
        Tree::Repetition { .. } => false,
        Tree::Capture { index, name, sub } => says(*sub, word),
        Tree::Concat(subs) => says_all(subs, subs.len(), word),
        Tree::Alternation(subs) => says_any(subs, subs.len(), word),
    }
}

/// Whether the first `count` of patterns, one behind the other, match a whole word.
pub open spec fn says_all(trees: Seq<Tree>, count: nat, word: Seq<u8>) -> bool
    decreases trees, count,
{
    if count == 0 || count > trees.len() {
        word.len() == 0
    } else {
        exists|cut: int|
            {
                &&& 0 <= cut <= word.len()
                &&& says_all(trees, (count - 1) as nat, #[trigger] word.subrange(0, cut))
                &&& says(trees[count - 1], word.subrange(cut, word.len() as int))
            }
    }
}

/// Whether one of the first `count` of patterns matches a whole word.
pub open spec fn says_any(trees: Seq<Tree>, count: nat, word: Seq<u8>) -> bool
    decreases trees, count,
{
    if count == 0 || count > trees.len() {
        false
    } else {
        says_any(trees, (count - 1) as nat, word) || says(trees[count - 1], word)
    }
}

/// The literals that a pattern stands for are just the words that it matches: looking for the one is
/// looking for the other.
pub proof fn literals_are_the_words(tree: Tree, word: Seq<u8>)
    requires
        literals_of(tree) is Some,
    ensures
        literals_of(tree)->0.contains(word) == says(tree, word),
    decreases tree, 0nat,
{
    let list = literals_of(tree)->0;
    match tree {
        Tree::Empty => {
            assert(list[0] == Seq::<u8>::empty());
            if word.len() == 0 {
                assert(word =~= list[0]);
            }
        },
        Tree::Literal(bytes) => {
            assert(list[0] == bytes);
        },
        Tree::Unicode(ranges) => {
            let one = ranges[0].0;
            assert(list[0] == encode_utf8(seq![one]));
            assert(pattern::in_chars(ranges, one)) by {
                assert(ranges[0].0 as int <= one as int <= ranges[0].1 as int);
            }
            if says(tree, word) {
                let value = choose|value: char|
                    pattern::in_chars(ranges, value) && word == #[trigger] encode_utf8(seq![value]);
                assert(value == one);
            }
        },
        Tree::Bytes(ranges) => {
            let one = ranges[0].0;
            assert(list[0] == seq![one]);
            if says(tree, word) {
                assert(word =~= seq![one]);
            }
            if list.contains(word) {
                assert(word == seq![one]);
                assert(ranges[0].0 <= one <= ranges[0].1);
            }
        },
        Tree::Capture { index, name, sub } => {
            literals_are_the_words(*sub, word);
        },
        Tree::Concat(subs) => {
            lemma_joined_words(subs, subs.len(), word);
        },
        Tree::Alternation(subs) => {
            lemma_listed_words(subs, subs.len(), word);
        },
        _ => {},
    }
}

proof fn lemma_listed_words(trees: Seq<Tree>, count: nat, word: Seq<u8>)
    requires
        count <= trees.len(),
        listed_literals(trees, count) is Some,
    ensures
        listed_literals(trees, count)->0.contains(word) == says_any(trees, count, word),
    decreases trees, count,
{
    if count > 0 {
        let before = listed_literals(trees, (count - 1) as nat)->0;
        let next = literals_of(trees[count - 1])->0;
        lemma_listed_words(trees, (count - 1) as nat, word);
        literals_are_the_words(trees[count - 1], word);
        lemma_contains_sum(before, next, word);
    }
}

proof fn lemma_contains_sum(left: Seq<Seq<u8>>, right: Seq<Seq<u8>>, word: Seq<u8>)
    ensures
        (left + right).contains(word) == (left.contains(word) || right.contains(word)),
{
    let both = left + right;
    if left.contains(word) {
        let i = choose|i: int| 0 <= i < left.len() && left[i] == word;
        assert(both[i] == word);
    }
    if right.contains(word) {
        let i = choose|i: int| 0 <= i < right.len() && right[i] == word;
        assert(both[left.len() + i] == word);
    }
}

proof fn lemma_joined_words(trees: Seq<Tree>, count: nat, word: Seq<u8>)
    requires
        count <= trees.len(),
        joined_literals(trees, count) is Some,
    ensures
        joined_literals(trees, count)->0.contains(word) == says_all(trees, count, word),
    decreases trees, count,
{
    if count == 0 {
        let list = joined_literals(trees, count)->0;
        assert(list[0] == Seq::<u8>::empty());
        if word.len() == 0 {
            assert(word =~= list[0]);
        }
    } else {
        let before = joined_literals(trees, (count - 1) as nat)->0;
        let next = literals_of(trees[count - 1])->0;
        let list = joined_literals(trees, count)->0;
        if says_all(trees, count, word) {
            let cut = choose|cut: int|
                {
                    &&& 0 <= cut <= word.len()
                    &&& says_all(trees, (count - 1) as nat, #[trigger] word.subrange(0, cut))
                    &&& says(trees[count - 1], word.subrange(cut, word.len() as int))
                };
            let head = word.subrange(0, cut);
            let tail = word.subrange(cut, word.len() as int);
            lemma_joined_words(trees, (count - 1) as nat, head);
            literals_are_the_words(trees[count - 1], tail);
            assert(word =~= head + tail);
            lemma_combined_holds(before, next, head, tail);
        }
        if list.contains(word) {
            let (i, j) = lemma_combined_parts(before, next, word);
            let head = before[i];
            let tail = next[j];
            assert(before.contains(head));
            assert(next.contains(tail));
            lemma_joined_words(trees, (count - 1) as nat, head);
            literals_are_the_words(trees[count - 1], tail);
            assert(word.subrange(0, head.len() as int) =~= head);
            assert(word.subrange(head.len() as int, word.len() as int) =~= tail);
            assert(says_all(trees, (count - 1) as nat, word.subrange(0, head.len() as int)));
        }
    }
}

proof fn lemma_combined_holds(
    before: Seq<Seq<u8>>,
    next: Seq<Seq<u8>>,
    head: Seq<u8>,
    tail: Seq<u8>,
)
    requires
        before.contains(head),
        next.contains(tail),
    ensures
        combined(before, next).contains(head + tail),
    decreases before.len(),
{
    let earlier = combined(before.drop_last(), next);
    let latest = extended(before.last(), next);
    lemma_contains_sum(earlier, latest, head + tail);
    if before.last() == head {
        let j = choose|j: int| 0 <= j < next.len() && next[j] == tail;
        assert(latest[j] == head + tail);
    } else {
        let i = choose|i: int| 0 <= i < before.len() && before[i] == head;
        assert(before.drop_last()[i] == head);
        lemma_combined_holds(before.drop_last(), next, head, tail);
    }
}

proof fn lemma_combined_parts(before: Seq<Seq<u8>>, next: Seq<Seq<u8>>, word: Seq<u8>) -> (result: (
    int,
    int,
))
    requires
        combined(before, next).contains(word),
    ensures
        0 <= result.0 < before.len(),
        0 <= result.1 < next.len(),
        word == before[result.0] + next[result.1],
    decreases before.len(),
{
    let earlier = combined(before.drop_last(), next);
    let latest = extended(before.last(), next);
    lemma_contains_sum(earlier, latest, word);
    if latest.contains(word) {
        let j = choose|j: int| 0 <= j < latest.len() && latest[j] == word;
        (before.len() - 1, j)
    } else {
        lemma_combined_parts(before.drop_last(), next, word)
    }
}

} // verus!
