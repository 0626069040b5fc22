//! What FastFs makes of a pattern before it is compiled: line feeds are taken out, and patterns that
//! are no more than a few literals are found out.

use regex_syntax::hir::Hir;
use vstd::prelude::*;
use crate::ascii::LINE_FEED;
use crate::engine;
use crate::engine::{
    alternation_hir, byte_class_hir, capture_hir, class_ranges, concat_hir, hir_node, literal_hir,
    look_hir, repetition_hir, unicode_class_hir, ClassRanges, HirNode,
};
use crate::text::{contains_byte, copy_bytes};
use crate::tree;
use crate::tree::{Expr, Tree};

verus! {

/// The most literals that a pattern may stand for on the fast path.
pub const MAX_FAST_LITERALS: usize = 128;

/// The most bytes of a literal on the fast path.
pub const MAX_FAST_LITERAL_BYTES: usize = 8_192;

/// Why a pattern cannot be searched for.
#[derive(Debug, PartialEq, Eq)]
pub struct MatcherError {
    pub message: String,
}

impl MatcherError {
    pub fn new(message: String) -> (result: Self)
        ensures
            result.message == message,
    {
        MatcherError { message }
    }
}

/// Reads all of a `Hir`.
pub(crate) fn to_expr(hir: &Hir) -> (result: Expr)
    ensures
        result.tree() == engine::hir_tree(*hir),
        result.wf(),
    decreases engine::hir_tree(*hir),
{
    match hir_node(hir) {
        HirNode::Empty => Expr::Empty,
        HirNode::Literal(bytes) => Expr::Literal(bytes),
        HirNode::Class(class) => match class_ranges(class) {
            ClassRanges::Unicode(ranges) => Expr::Unicode(ranges),
            ClassRanges::Bytes(ranges) => Expr::Bytes(ranges),
        },
        HirNode::Look(value) => Expr::Look(value),
        HirNode::Repetition(min, max, greedy, sub) => {
            proof {
                let whole = engine::hir_tree(*hir);
                assert(decreases_to!(whole => whole->Repetition_sub));
            }
            let inner: Expr = to_expr(sub);
            Expr::Repetition { min, max, greedy, sub: Box::new(inner) }
        },
        HirNode::Capture(index, name, sub) => {
            proof {
                let whole = engine::hir_tree(*hir);
                assert(decreases_to!(whole => whole->Capture_sub));
            }
            let inner: Expr = to_expr(sub);
            Expr::Capture { index, name, sub: Box::new(inner) }
        },
        HirNode::Concat(subs) => {
            proof {
                let whole = engine::hir_tree(*hir);
                assert(decreases_to!(whole => whole->Concat_0));
            }
            let inner: Vec<Expr> = to_exprs(subs);
            proof {
                tree::trees_of_subs(inner);
                tree::trees_all_wf(tree::expr_trees(inner@), inner@.len());
                assert(tree::expr_trees(inner@) =~= engine::hir_trees(subs@));
            }
            Expr::Concat(inner)
        },
        HirNode::Alternation(subs) => {
            proof {
                let whole = engine::hir_tree(*hir);
                assert(decreases_to!(whole => whole->Alternation_0));
            }
            let inner: Vec<Expr> = to_exprs(subs);
            proof {
                tree::trees_of_subs(inner);
                tree::trees_all_wf(tree::expr_trees(inner@), inner@.len());
                assert(tree::expr_trees(inner@) =~= engine::hir_trees(subs@));
            }
            Expr::Alternation(inner)
        },
    }
}

/// Reads all of several `Hir`s.
fn to_exprs(subs: &[Hir]) -> (result: Vec<Expr>)
    ensures
        result.len() == subs.len(),
        forall|i: int|
            0 <= i < subs.len() ==> (#[trigger] result[i]).tree() == engine::hir_tree(subs[i])
                && result[i].wf(),
    decreases engine::hir_trees(subs@),
{
    let mut result: Vec<Expr> = Vec::new();
    let mut index: usize = 0;
    let ghost trees = engine::hir_trees(subs@);
    while index < subs.len()
        invariant
            index <= subs.len(),
            result.len() == index,
            trees == engine::hir_trees(subs@),
            forall|i: int|
                0 <= i < index ==> (#[trigger] result[i]).tree() == engine::hir_tree(subs[i])
                    && result[i].wf(),
        decreases subs.len() - index,
    {
        assert(trees[index as int] == engine::hir_tree(subs[index as int]));
        assert(decreases_to!(trees => trees[index as int]));
        result.push(to_expr(&subs[index]));
        index += 1;
    }
    result
}

/// A pattern as the constructors of `regex-syntax` make it from its parts.
pub open spec fn rebuilt(tree: Tree) -> Tree
    decreases tree, 0nat,
{
    match tree {
        Tree::Empty => Tree::Empty,
        Tree::Literal(bytes) => engine::literal_tree(bytes),
        Tree::Unicode(ranges) => engine::unicode_tree(ranges),
        Tree::Bytes(ranges) => engine::bytes_tree(ranges),
        Tree::Look(value) => Tree::Look(value),
        Tree::Repetition { min, max, greedy, sub } => engine::repeated_tree(
            min,
            max,
            greedy,
            rebuilt(*sub),
        ),
        Tree::Capture { index, name, sub } => Tree::Capture {
            index,
            name,
            sub: Box::new(rebuilt(*sub)),
        },
        Tree::Concat(subs) => engine::concat_tree(all_rebuilt(subs, subs.len())),
        Tree::Alternation(subs) => engine::alternation_tree(all_rebuilt(subs, subs.len())),
    }
}

/// The first `count` of patterns, each as the constructors make it.
pub open spec fn all_rebuilt(trees: Seq<Tree>, count: nat) -> Seq<Tree>
    decreases trees, count,
{
    if count == 0 || count > trees.len() {
        Seq::empty()
    } else {
        all_rebuilt(trees, (count - 1) as nat).push(rebuilt(trees[count - 1]))
    }
}

/// Makes a `Hir` of a pattern.
pub(crate) fn to_hir(expr: &Expr) -> (result: Hir)
    requires
        expr.wf(),
    ensures
        engine::hir_tree(result) == rebuilt(expr.tree()),
    decreases expr,
{
    match expr {
        Expr::Empty => {
            let none: [u8; 0] = [];
            literal_hir(none.as_slice())
        },
        Expr::Literal(bytes) => literal_hir(bytes.as_slice()),
        Expr::Unicode(ranges) => unicode_class_hir(ranges.as_slice()),
        Expr::Bytes(ranges) => byte_class_hir(ranges.as_slice()),
        Expr::Look(value) => look_hir(*value),
        Expr::Repetition { min, max, greedy, sub } => {
            let inner: Hir = to_hir(sub);
            repetition_hir(*min, *max, *greedy, inner)
        },
        Expr::Capture { index, name, sub } => {
            let inner: Hir = to_hir(sub);
            let name: Option<String> = match name {
                Some(name) => Some(name.clone()),
                None => None,
            };
            capture_hir(*index, name, inner)
        },
        Expr::Concat(subs) => {
            proof {
                tree::trees_of_subs(*subs);
            }
            concat_hir(to_hirs(subs))
        },
        Expr::Alternation(subs) => {
            proof {
                tree::trees_of_subs(*subs);
            }
            alternation_hir(to_hirs(subs))
        },
    }
}

/// Makes `Hir`s of patterns.
fn to_hirs(subs: &Vec<Expr>) -> (result: Vec<Hir>)
    requires
        tree::trees_wf(tree::expr_trees(subs@), subs@.len()),
    ensures
        engine::hir_trees(result@) == all_rebuilt(tree::expr_trees(subs@), subs@.len()),
    decreases subs,
{
    let mut result: Vec<Hir> = Vec::new();
    let mut index: usize = 0;
    let ghost trees = tree::expr_trees(subs@);
    assert(engine::hir_trees(result@) =~= Seq::<Tree>::empty());
    while index < subs.len()
        invariant
            index <= subs.len(),
            trees == tree::expr_trees(subs@),
            tree::trees_wf(trees, subs@.len()),
            engine::hir_trees(result@) == all_rebuilt(trees, index as nat),
        decreases subs.len() - index,
    {
        let ghost before = engine::hir_trees(result@);
        proof {
            tree::tree_of_wf(trees, subs@.len(), index as int);
            assert(trees[index as int] == subs[index as int].tree());
            assert(decreases_to!(subs => subs@));
            assert(decreases_to!(subs@ => subs@[index as int]));
        }
        let hir: Hir = to_hir(&subs[index]);
        let ghost model = engine::hir_tree(hir);
        result.push(hir);
        assert(engine::hir_trees(result@) =~= before.push(model));
        index += 1;
    }
    result
}

/// What is left of a range of characters without the line feed.
pub open spec fn char_pieces(range: (char, char)) -> Seq<(char, char)> {
    let start = range.0 as int;
    let end = range.1 as int;
    if end < 0xa || start > 0xa {
        seq![range]
    } else {
        (if start < 0xa {
            seq![(range.0, '\t')]
        } else {
            Seq::empty()
        }) + (if end > 0xa {
            seq![('\u{b}', range.1)]
        } else {
            Seq::empty()
        })
    }
}

/// Ranges of characters without the line feed.
pub open spec fn chars_without_feed(ranges: Seq<(char, char)>) -> Seq<(char, char)>
    decreases ranges.len(),
{
    if ranges.len() == 0 {
        ranges
    } else {
        chars_without_feed(ranges.drop_last()) + char_pieces(ranges.last())
    }
}

/// What is left of a range of bytes without the line feed.
pub open spec fn byte_pieces(range: (u8, u8)) -> Seq<(u8, u8)> {
    if range.1 < LINE_FEED || range.0 > LINE_FEED {
        seq![range]
    } else {
        (if range.0 < LINE_FEED {
            seq![(range.0, 0x9u8)]
        } else {
            Seq::empty()
        }) + (if range.1 > LINE_FEED {
            seq![(0xbu8, range.1)]
        } else {
            Seq::empty()
        })
    }
}

/// Ranges of bytes without the line feed.
pub open spec fn bytes_without_feed(ranges: Seq<(u8, u8)>) -> Seq<(u8, u8)>
    decreases ranges.len(),
{
    if ranges.len() == 0 {
        ranges
    } else {
        bytes_without_feed(ranges.drop_last()) + byte_pieces(ranges.last())
    }
}

/// The number of a character.
fn code_of(value: char) -> (result: u32)
    ensures
        result == value as int,
{
    value as u32
}

/// Takes the line feed out of ranges of characters.
pub fn strip_line_feed_from_chars(ranges: &[(char, char)]) -> (result: Vec<(char, char)>)
    requires
        tree::chars_apart(ranges@),
    ensures
        result@ == chars_without_feed(ranges@),
        tree::chars_apart(result@),
{
    let mut result: Vec<(char, char)> = Vec::new();
    let mut index: usize = 0;
    assert(result@ =~= ranges@.subrange(0, 0));
    while index < ranges.len()
        invariant
            index <= ranges.len(),
            tree::chars_apart(ranges@),
            result@ == chars_without_feed(ranges@.subrange(0, index as int)),
            tree::chars_apart(result@),
            forall|i: int, j: int|
                0 <= i < result.len() && index <= j < ranges.len() ==> (
                #[trigger] result[i]).1 as int + 1 < (#[trigger] ranges[j]).0 as int,
        decreases ranges.len() - index,
    {
        let range: (char, char) = ranges[index];
        let ghost before = result@;
        proof {
            let here = ranges@.subrange(0, index + 1);
            assert(here.last() == range);
            assert(here.drop_last() =~= ranges@.subrange(0, index as int));
            assert(ranges[index as int].0 as int <= ranges[index as int].1 as int);
        }
        let start: u32 = code_of(range.0);
        let end: u32 = code_of(range.1);
        if end < 0xa || start > 0xa {
            result.push(range);
        } else {
            if start < 0xa {
                result.push((range.0, '\t'));
            }
            if end > 0xa {
                result.push(('\u{b}', range.1));
            }
        }
        assert(result@ =~= before + char_pieces(range));
        index += 1;
    }
    assert(ranges@.subrange(0, ranges.len() as int) =~= ranges@);
    result
}

/// Takes the line feed out of ranges of bytes.
pub fn strip_line_feed_from_bytes(ranges: &[(u8, u8)]) -> (result: Vec<(u8, u8)>)
    requires
        tree::bytes_apart(ranges@),
    ensures
        result@ == bytes_without_feed(ranges@),
        tree::bytes_apart(result@),
{
    let mut result: Vec<(u8, u8)> = Vec::new();
    let mut index: usize = 0;
    assert(result@ =~= ranges@.subrange(0, 0));
    while index < ranges.len()
        invariant
            index <= ranges.len(),
            tree::bytes_apart(ranges@),
            result@ == bytes_without_feed(ranges@.subrange(0, index as int)),
            tree::bytes_apart(result@),
            forall|i: int, j: int|
                0 <= i < result.len() && index <= j < ranges.len() ==> (#[trigger] result[i]).1 + 1
                    < (#[trigger] ranges[j]).0,
        decreases ranges.len() - index,
    {
        let range: (u8, u8) = ranges[index];
        let ghost before = result@;
        proof {
            let here = ranges@.subrange(0, index + 1);
            assert(here.last() == range);
            assert(here.drop_last() =~= ranges@.subrange(0, index as int));
            assert(ranges[index as int].0 <= ranges[index as int].1);
        }
        if range.1 < LINE_FEED || range.0 > LINE_FEED {
            result.push(range);
        } else {
            if range.0 < LINE_FEED {
                result.push((range.0, 0x9));
            }
            if range.1 > LINE_FEED {
                result.push((0xb, range.1));
            }
        }
        assert(result@ =~= before + byte_pieces(range));
        index += 1;
    }
    assert(ranges@.subrange(0, ranges.len() as int) =~= ranges@);
    result
}

/// A pattern without line feeds: classes lose them, and a literal with one is refused.
pub open spec fn without_feeds(tree: Tree) -> Option<Tree>
    decreases tree, 0nat,
{
    match tree {
        Tree::Empty => Some(tree),
        Tree::Literal(bytes) => if bytes.contains(LINE_FEED) {
            None
        } else {
            Some(tree)
        },
        Tree::Unicode(ranges) => Some(Tree::Unicode(chars_without_feed(ranges))),
        Tree::Bytes(ranges) => Some(Tree::Bytes(bytes_without_feed(ranges))),
        Tree::Look(_) => Some(tree),
        Tree::Repetition { min, max, greedy, sub } => match without_feeds(*sub) {
            Some(inner) => Some(Tree::Repetition { min, max, greedy, sub: Box::new(inner) }),
            None => None,
        },
        Tree::Capture { index, name, sub } => match without_feeds(*sub) {
            Some(inner) => Some(Tree::Capture { index, name, sub: Box::new(inner) }),
            None => None,
        },
        Tree::Concat(subs) => match all_without_feeds(subs, subs.len()) {
            Some(inner) => Some(Tree::Concat(inner)),
            None => None,
        },
        Tree::Alternation(subs) => match all_without_feeds(subs, subs.len()) {
            Some(inner) => Some(Tree::Alternation(inner)),
            None => None,
        },
    }
}

/// The first `count` of patterns without line feeds, unless one of them is refused.
pub open spec fn all_without_feeds(trees: Seq<Tree>, count: nat) -> Option<Seq<Tree>>
    decreases trees, count,
{
    if count == 0 || count > trees.len() {
        Some(Seq::empty())
    } else {
        match all_without_feeds(trees, (count - 1) as nat) {
            None => None,
            Some(before) => match without_feeds(trees[count - 1]) {
                None => None,
                Some(last) => Some(before.push(last)),
            },
        }
    }
}

/// The message for a pattern with a line feed in a literal.
pub open spec fn line_feed_message() -> Seq<char> {
    "FastFs rg の行検索では改行を明示したパターンは使用できません"@
}

/// Takes the line feeds out of a pattern.
pub fn strip_line_feed(expr: &Expr) -> (result: Result<Expr, MatcherError>)
    requires
        expr.wf(),
    ensures
        match result {
            Ok(stripped) => without_feeds(expr.tree()) == Some(stripped.tree()) && stripped.wf(),
            Err(error) => without_feeds(expr.tree()) is None && error.message@
                == line_feed_message(),
        },
    decreases expr,
{
    match expr {
        Expr::Empty => Ok(Expr::Empty),
        Expr::Literal(bytes) => {
            if contains_byte(bytes.as_slice(), LINE_FEED) {
                return Err(
                    MatcherError::new(
                        "FastFs rg の行検索では改行を明示したパターンは使用できません".to_owned(),
                    ),
                );
            }
            Ok(Expr::Literal(copy_bytes(bytes.as_slice())))
        },
        Expr::Unicode(ranges) => Ok(
            Expr::Unicode(strip_line_feed_from_chars(ranges.as_slice())),
        ),
        Expr::Bytes(ranges) => Ok(Expr::Bytes(strip_line_feed_from_bytes(ranges.as_slice()))),
        Expr::Look(value) => Ok(Expr::Look(*value)),
        Expr::Repetition { min, max, greedy, sub } => match strip_line_feed(sub) {
            Ok(inner) => Ok(
                Expr::Repetition {
                    min: *min,
                    max: *max,
                    greedy: *greedy,
                    sub: Box::new(inner),
                },
            ),
            Err(error) => Err(error),
        },
        Expr::Capture { index, name, sub } => match strip_line_feed(sub) {
            Ok(inner) => {
                let name: Option<String> = match name {
                    Some(name) => Some(name.clone()),
                    None => None,
                };
                Ok(Expr::Capture { index: *index, name, sub: Box::new(inner) })
            },
            Err(error) => Err(error),
        },
        Expr::Concat(subs) => {
            proof {
                tree::trees_of_subs(*subs);
            }
            match strip_line_feeds(subs) {
                Ok(inner) => {
                    proof {
                        tree::trees_of_subs(inner);
                    }
                    Ok(Expr::Concat(inner))
                },
                Err(error) => Err(error),
            }
        },
        Expr::Alternation(subs) => {
            proof {
                tree::trees_of_subs(*subs);
            }
            match strip_line_feeds(subs) {
                Ok(inner) => {
                    proof {
                        tree::trees_of_subs(inner);
                    }
                    Ok(Expr::Alternation(inner))
                },
                Err(error) => Err(error),
            }
        },
    }
}

/// Takes the line feeds out of patterns.
fn strip_line_feeds(subs: &Vec<Expr>) -> (result: Result<Vec<Expr>, MatcherError>)
    requires
        tree::trees_wf(tree::expr_trees(subs@), subs@.len()),
    ensures
        match result {
            Ok(stripped) => {
                &&& all_without_feeds(tree::expr_trees(subs@), subs@.len()) == Some(
                    tree::expr_trees(stripped@),
                )
                &&& tree::trees_wf(tree::expr_trees(stripped@), stripped@.len())
            },
            Err(error) => {
                &&& all_without_feeds(tree::expr_trees(subs@), subs@.len()) is None
                &&& error.message@ == line_feed_message()
            },
        },
    decreases subs,
{
    let mut result: Vec<Expr> = Vec::new();
    let mut index: usize = 0;
    let ghost trees = tree::expr_trees(subs@);
    assert(tree::expr_trees(result@) =~= Seq::<Tree>::empty());
    while index < subs.len()
        invariant
            index <= subs.len(),
            trees == tree::expr_trees(subs@),
            tree::trees_wf(trees, subs@.len()),
            result.len() == index,
            forall|i: int| 0 <= i < index ==> (#[trigger] result[i]).wf(),
            all_without_feeds(trees, index as nat) == Some(tree::expr_trees(result@)),
        decreases subs.len() - index,
    {
        let ghost before = tree::expr_trees(result@);
        proof {
            tree::tree_of_wf(trees, subs@.len(), index as int);
            assert(trees[index as int] == subs[index as int].tree());
            assert(decreases_to!(subs => subs@));
            assert(decreases_to!(subs@ => subs@[index as int]));
        }
        match strip_line_feed(&subs[index]) {
            Ok(inner) => {
                let ghost model = inner.tree();
                result.push(inner);
                assert(tree::expr_trees(result@) =~= before.push(model));
            },
            Err(error) => {
                proof {
                    lemma_refused(trees, (index + 1) as nat, subs@.len());
                }
                return Err(error);
            },
        }
        index += 1;
    }
    proof {
        tree::trees_all_wf(tree::expr_trees(result@), result@.len());
    }
    Ok(result)
}

proof fn lemma_refused(trees: Seq<Tree>, count: nat, total: nat)
    requires
        count <= total <= trees.len(),
        all_without_feeds(trees, count) is None,
    ensures
        all_without_feeds(trees, total) is None,
    decreases total - count,
{
    if count < total {
        lemma_refused(trees, count + 1, total);
    }
}

/// Whether a character is in one of ranges.
pub open spec fn in_chars(ranges: Seq<(char, char)>, value: char) -> bool {
    exists|i: int|
        0 <= i < ranges.len() && (#[trigger] ranges[i]).0 as int <= value as int
            <= ranges[i].1 as int
}

/// Taking the line feed out of a class takes out nothing else.
pub proof fn only_the_feed_is_taken_out(ranges: Seq<(char, char)>, value: char)
    ensures
        in_chars(chars_without_feed(ranges), value) == (in_chars(ranges, value) && value as int
            != 0xa),
    decreases ranges.len(),
{
    if ranges.len() > 0 {
        let before = ranges.drop_last();
        let last = ranges.last();
        only_the_feed_is_taken_out(before, value);
        let pieces = char_pieces(last);
        lemma_in_sum(chars_without_feed(before), pieces, value);
        assert(ranges =~= before + seq![last]);
        lemma_in_sum(before, seq![last], value);
        let there = last.0 as int <= value as int <= last.1 as int;
        assert(in_chars(seq![last], value) == there) by {
            if there {
                assert(seq![last][0] == last);
            }
        }
        assert(in_chars(pieces, value) == (there && value as int != 0xa)) by {
            if there && value as int != 0xa {
                if last.1 as int >= 0xa && last.0 as int <= 0xa {
                    if (value as int) < 0xa {
                        assert(pieces[0] == (last.0, '\t'));
                    } else {
                        assert(pieces[pieces.len() - 1] == ('\u{b}', last.1));
                    }
                } else {
                    assert(pieces[0] == last);
                }
            }
        }
    }
}

proof fn lemma_in_sum(left: Seq<(char, char)>, right: Seq<(char, char)>, value: char)
    ensures
        in_chars(left + right, value) == (in_chars(left, value) || in_chars(right, value)),
{
    let both = left + right;
    if in_chars(left, value) {
        let i = choose|i: int|
            0 <= i < left.len() && (#[trigger] left[i]).0 as int <= value as int
                <= left[i].1 as int;
        assert(both[i] == left[i]);
    }
    if in_chars(right, value) {
        let i = choose|i: int|
            0 <= i < right.len() && (#[trigger] right[i]).0 as int <= value as int
                <= right[i].1 as int;
        assert(both[left.len() + i] == right[i]);
    }
    if in_chars(both, value) {
        let i = choose|i: int|
            0 <= i < both.len() && (#[trigger] both[i]).0 as int <= value as int
                <= both[i].1 as int;
        if i < left.len() {
            assert(both[i] == left[i]);
        } else {
            assert(both[i] == right[i - left.len()]);
        }
    }
}

/// Whether a byte is in one of ranges.
pub open spec fn in_bytes(ranges: Seq<(u8, u8)>, value: u8) -> bool {
    exists|i: int| 0 <= i < ranges.len() && (#[trigger] ranges[i]).0 <= value <= ranges[i].1
}

/// Taking the line feed out of a class of bytes takes out nothing else.
pub proof fn only_the_feed_byte_is_taken_out(ranges: Seq<(u8, u8)>, value: u8)
    ensures
        in_bytes(bytes_without_feed(ranges), value) == (in_bytes(ranges, value) && value
            != LINE_FEED),
    decreases ranges.len(),
{
    if ranges.len() > 0 {
        let before = ranges.drop_last();
        let last = ranges.last();
        only_the_feed_byte_is_taken_out(before, value);
        let pieces = byte_pieces(last);
        lemma_byte_in_sum(bytes_without_feed(before), pieces, value);
        assert(ranges =~= before + seq![last]);
        lemma_byte_in_sum(before, seq![last], value);
        let there = last.0 <= value <= last.1;
        assert(in_bytes(seq![last], value) == there) by {
            if there {
                assert(seq![last][0] == last);
            }
        }
        assert(in_bytes(pieces, value) == (there && value != LINE_FEED)) by {
            if there && value != LINE_FEED {
                if last.1 >= LINE_FEED && last.0 <= LINE_FEED {
                    if value < LINE_FEED {
                        assert(pieces[0] == (last.0, 0x9u8));
                    } else {
                        assert(pieces[pieces.len() - 1] == (0xbu8, last.1));
                    }
                } else {
                    assert(pieces[0] == last);
                }
            }
        }
    }
}

proof fn lemma_byte_in_sum(left: Seq<(u8, u8)>, right: Seq<(u8, u8)>, value: u8)
    ensures
        in_bytes(left + right, value) == (in_bytes(left, value) || in_bytes(right, value)),
{
    let both = left + right;
    if in_bytes(left, value) {
        let i = choose|i: int|
            0 <= i < left.len() && (#[trigger] left[i]).0 <= value <= left[i].1;
        assert(both[i] == left[i]);
    }
    if in_bytes(right, value) {
        let i = choose|i: int|
            0 <= i < right.len() && (#[trigger] right[i]).0 <= value <= right[i].1;
        assert(both[left.len() + i] == right[i]);
    }
    if in_bytes(both, value) {
        let i = choose|i: int|
            0 <= i < both.len() && (#[trigger] both[i]).0 <= value <= both[i].1;
        if i < left.len() {
            assert(both[i] == left[i]);
        } else {
            assert(both[i] == right[i - left.len()]);
        }
    }
}

} // verus!
