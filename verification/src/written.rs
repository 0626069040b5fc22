//! What is read of a pattern as it is written: whether it asks for a NUL byte, and whether it is
//! written in lower case.

use regex_syntax::ast::{Ast, ClassSet, ClassSetItem};
use vstd::prelude::*;
use crate::engine;
use crate::engine::{
    ast_node, is_upper_case, item_node, parse_ast, set_node, AstNode, ItemNode, SetNode,
};
use crate::chars::to_chars;
use crate::pattern::MatcherError;
use crate::text::contains_byte;
use crate::tree;
use crate::tree::{AstExpr, AstTree, ItemExpr, ItemTree, SetExpr, SetTree};
use vstd::utf8::*;

verus! {

/// Reads all of an `Ast`.
fn to_ast(ast: &Ast) -> (result: AstExpr)
    ensures
        result.tree() == engine::ast_tree(*ast),
    decreases engine::ast_tree(*ast),
{
    match ast_node(ast) {
        AstNode::Literal(value) => AstExpr::Literal(value),
        AstNode::Bracketed(negated, set) => AstExpr::Bracketed {
            negated,
            set: Box::new(to_set(set)),
        },
        AstNode::Inner(sub) => {
            proof {
                let whole = engine::ast_tree(*ast);
                assert(decreases_to!(whole => whole->Inner_0));
            }
            AstExpr::Inner(Box::new(to_ast(sub)))
        },
        AstNode::Many(subs) => {
            proof {
                let whole = engine::ast_tree(*ast);
                assert(decreases_to!(whole => whole->Many_0));
            }
            let inner: Vec<AstExpr> = to_asts(subs);
            proof {
                tree::trees_of_many(inner);
                assert(tree::ast_trees(inner@) =~= engine::ast_trees(subs@));
            }
            AstExpr::Many(inner)
        },
        AstNode::Other => AstExpr::Other,
    }
}

/// Reads all of several `Ast`s.
fn to_asts(subs: &[Ast]) -> (result: Vec<AstExpr>)
    ensures
        tree::ast_trees(result@) == engine::ast_trees(subs@),
    decreases engine::ast_trees(subs@),
{
    let mut result: Vec<AstExpr> = Vec::new();
    let mut index: usize = 0;
    let ghost trees = engine::ast_trees(subs@);
    while index < subs.len()
        invariant
            index <= subs.len(),
            result.len() == index,
            trees == engine::ast_trees(subs@),
            forall|i: int|
                0 <= i < index ==> (#[trigger] result[i]).tree() == engine::ast_tree(subs[i]),
        decreases subs.len() - index,
    {
        assert(trees[index as int] == engine::ast_tree(subs[index as int]));
        assert(decreases_to!(trees => trees[index as int]));
        result.push(to_ast(&subs[index]));
        index += 1;
    }
    assert(tree::ast_trees(result@) =~= trees);
    result
}

/// Reads all of a `ClassSet`.
fn to_set(set: &ClassSet) -> (result: SetExpr)
    ensures
        result.tree() == engine::set_tree(*set),
    decreases engine::set_tree(*set),
{
    match set_node(set) {
        SetNode::Item(item) => {
            proof {
                let whole = engine::set_tree(*set);
                assert(decreases_to!(whole => whole->Item_0));
            }
            SetExpr::Item(Box::new(to_item(item)))
        },
        SetNode::Operation(left, right) => {
            proof {
                let whole = engine::set_tree(*set);
                assert(decreases_to!(whole => whole->Operation_0));
                assert(decreases_to!(whole => whole->Operation_1));
            }
            SetExpr::Operation(Box::new(to_set(left)), Box::new(to_set(right)))
        },
    }
}

/// Reads all of a `ClassSetItem`.
fn to_item(item: &ClassSetItem) -> (result: ItemExpr)
    ensures
        result.tree() == engine::item_tree(*item),
    decreases engine::item_tree(*item),
{
    match item_node(item) {
        ItemNode::Literal(value) => ItemExpr::Literal(value),
        ItemNode::Range(start, end) => ItemExpr::Range(start, end),
        ItemNode::Bracketed(negated, set) => {
            proof {
                let whole = engine::item_tree(*item);
                assert(decreases_to!(whole => whole->Bracketed_set));
            }
            ItemExpr::Bracketed { negated, set: Box::new(to_set(set)) }
        },
        ItemNode::Union(items) => {
            proof {
                let whole = engine::item_tree(*item);
                assert(decreases_to!(whole => whole->Union_0));
            }
            let inner: Vec<ItemExpr> = to_items(items);
            proof {
                tree::trees_of_union(inner);
                assert(tree::item_trees(inner@) =~= engine::item_trees(items@));
            }
            ItemExpr::Union(inner)
        },
        ItemNode::Other => ItemExpr::Other,
    }
}

/// Reads all of several `ClassSetItem`s.
fn to_items(items: &[ClassSetItem]) -> (result: Vec<ItemExpr>)
    ensures
        tree::item_trees(result@) == engine::item_trees(items@),
    decreases engine::item_trees(items@),
{
    let mut result: Vec<ItemExpr> = Vec::new();
    let mut index: usize = 0;
    let ghost trees = engine::item_trees(items@);
    while index < items.len()
        invariant
            index <= items.len(),
            result.len() == index,
            trees == engine::item_trees(items@),
            forall|i: int|
                0 <= i < index ==> (#[trigger] result[i]).tree() == engine::item_tree(items[i]),
        decreases items.len() - index,
    {
        assert(trees[index as int] == engine::item_tree(items[index as int]));
        assert(decreases_to!(trees => trees[index as int]));
        result.push(to_item(&items[index]));
        index += 1;
    }
    assert(tree::item_trees(result@) =~= trees);
    result
}

/// Whether a NUL byte is written out in a pattern. One that a negated class or a wider kind of class
/// would match does not count.
pub open spec fn nul_in_ast(tree: AstTree) -> bool
    decreases tree, 0nat,
{
    match tree {
        AstTree::Literal(value) => value == '\0',
        AstTree::Bracketed { negated, set } => !negated && nul_in_set(*set),
        AstTree::Inner(sub) => nul_in_ast(*sub),
        AstTree::Many(subs) => nul_in_asts(subs, subs.len()),
        AstTree::Other => false,
    }
}

/// Whether a NUL byte is written out in one of the first `count` of patterns.
pub open spec fn nul_in_asts(trees: Seq<AstTree>, count: nat) -> bool
    decreases trees, count,
{
    if count == 0 || count > trees.len() {
        false
    } else {
        nul_in_asts(trees, (count - 1) as nat) || nul_in_ast(trees[count - 1])
    }
}

/// Whether a NUL byte is written out inside of brackets.
pub open spec fn nul_in_set(tree: SetTree) -> bool
    decreases tree, 0nat,
{
    match tree {
        SetTree::Item(item) => nul_in_item(*item),
        SetTree::Operation(left, right) => nul_in_set(*left) || nul_in_set(*right),
    }
}

/// Whether a NUL byte is written out in an item inside of brackets.
pub open spec fn nul_in_item(tree: ItemTree) -> bool
    decreases tree, 0nat,
{
    match tree {
        ItemTree::Literal(value) => value == '\0',
        ItemTree::Range(start, end) => start == '\0',
        ItemTree::Bracketed { negated, set } => !negated && nul_in_set(*set),
        ItemTree::Union(items) => nul_in_items(items, items.len()),
        ItemTree::Other => false,
    }
}

/// Whether a NUL byte is written out in one of the first `count` of items.
pub open spec fn nul_in_items(trees: Seq<ItemTree>, count: nat) -> bool
    decreases trees, count,
{
    if count == 0 || count > trees.len() {
        false
    } else {
        nul_in_items(trees, (count - 1) as nat) || nul_in_item(trees[count - 1])
    }
}

/// Whether a pattern writes out a NUL byte.
pub fn ast_mentions_nul(expression: &AstExpr) -> (result: bool)
    ensures
        result == nul_in_ast(expression.tree()),
    decreases expression,
{
    match expression {
        AstExpr::Literal(value) => *value == '\0',
        AstExpr::Bracketed { negated, set } => !*negated && class_set_mentions_nul(set),
        AstExpr::Inner(sub) => ast_mentions_nul(sub),
        AstExpr::Many(subs) => {
            let ghost trees = tree::ast_trees(subs@);
            proof {
                tree::trees_of_many(*subs);
            }
            let mut found: bool = false;
            let mut index: usize = 0;
            while index < subs.len()
                invariant
                    index <= subs.len(),
                    trees == tree::ast_trees(subs@),
                    *expression == AstExpr::Many(*subs),
                    found == nul_in_asts(trees, index as nat),
                decreases subs.len() - index,
            {
                proof {
                    assert(trees[index as int] == subs[index as int].tree());
                    assert(decreases_to!(*expression => expression->Many_0));
                    assert(decreases_to!(subs => subs@));
                    assert(decreases_to!(subs@ => subs@[index as int]));
                }
                found = found || ast_mentions_nul(&subs[index]);
                index += 1;
            }
            found
        },
        AstExpr::Other => false,
    }
}

/// Whether the inside of brackets writes out a NUL byte.
pub fn class_set_mentions_nul(set: &SetExpr) -> (result: bool)
    ensures
        result == nul_in_set(set.tree()),
    decreases set,
{
    match set {
        SetExpr::Item(item) => class_item_mentions_nul(item),
        SetExpr::Operation(left, right) => class_set_mentions_nul(left) || class_set_mentions_nul(
            right,
        ),
    }
}

/// Whether an item inside of brackets writes out a NUL byte.
pub fn class_item_mentions_nul(item: &ItemExpr) -> (result: bool)
    ensures
        result == nul_in_item(item.tree()),
    decreases item,
{
    match item {
        ItemExpr::Literal(value) => *value == '\0',
        ItemExpr::Range(start, end) => *start == '\0',
        ItemExpr::Bracketed { negated, set } => !*negated && class_set_mentions_nul(set),
        ItemExpr::Union(items) => {
            let ghost trees = tree::item_trees(items@);
            proof {
                tree::trees_of_union(*items);
            }
            let mut found: bool = false;
            let mut index: usize = 0;
            while index < items.len()
                invariant
                    index <= items.len(),
                    trees == tree::item_trees(items@),
                    *item == ItemExpr::Union(*items),
                    found == nul_in_items(trees, index as nat),
                decreases items.len() - index,
            {
                proof {
                    assert(trees[index as int] == items[index as int].tree());
                    assert(decreases_to!(*item => item->Union_0));
                    assert(decreases_to!(items => items@));
                    assert(decreases_to!(items@ => items@[index as int]));
                }
                found = found || class_item_mentions_nul(&items[index]);
                index += 1;
            }
            found
        },
        ItemExpr::Other => false,
    }
}

/// Whether a pattern asks for a NUL byte, or the message of the error in the pattern.
pub open spec fn mentions_nul(pattern: Seq<char>, fixed: bool) -> Result<bool, Seq<char>> {
    if fixed {
        Ok(encode_utf8(pattern).contains(0u8))
    } else {
        match engine::parsed_ast(pattern, false) {
            Ok(tree) => Ok(nul_in_ast(tree)),
            Err(message) => Err(message),
        }
    }
}

/// Whether a pattern asks for a NUL byte.
pub fn pattern_explicitly_mentions_nul(pattern: &str, fixed_strings: bool) -> (result: Result<
    bool,
    MatcherError,
>)
    ensures
        match result {
            Ok(found) => mentions_nul(pattern@, fixed_strings) == Ok::<bool, Seq<char>>(found),
            Err(error) => mentions_nul(pattern@, fixed_strings) == Err::<bool, Seq<char>>(
                error.message@,
            ),
        },
{
    if fixed_strings {
        return Ok(contains_byte(pattern.as_bytes(), 0));
    }
    match parse_ast(pattern, false) {
        Ok(parsed) => {
            let expression: AstExpr = to_ast(&parsed);
            Ok(ast_mentions_nul(&expression))
        },
        Err(message) => Err(MatcherError::new(message)),
    }
}

/// What the letters of a pattern say of its case.
#[derive(Clone, Copy, Debug, Default, PartialEq, Eq, Structural)]
pub struct LiteralCaseAnalysis {
    pub has_literal: bool,
    pub has_uppercase: bool,
}

/// What is known once a character is seen.
pub open spec fn seen_char(analysis: LiteralCaseAnalysis, value: char) -> LiteralCaseAnalysis {
    LiteralCaseAnalysis {
        has_literal: true,
        has_uppercase: analysis.has_uppercase || engine::is_upper(value),
    }
}

/// What is known once a text is seen.
pub open spec fn seen_text(analysis: LiteralCaseAnalysis, text: Seq<char>) -> LiteralCaseAnalysis {
    if text.len() == 0 {
        analysis
    } else {
        LiteralCaseAnalysis {
            has_literal: true,
            has_uppercase: analysis.has_uppercase || exists|i: int|
                0 <= i < text.len() && engine::is_upper(#[trigger] text[i]),
        }
    }
}

/// What is known once a pattern is seen: the literals in it count, those of a range by its ends.
pub open spec fn seen_ast(analysis: LiteralCaseAnalysis, tree: AstTree) -> LiteralCaseAnalysis
    decreases tree, 0nat,
{
    match tree {
        AstTree::Literal(value) => seen_char(analysis, value),
        AstTree::Bracketed { negated, set } => seen_set(analysis, *set),
        AstTree::Inner(sub) => seen_ast(analysis, *sub),
        AstTree::Many(subs) => seen_asts(analysis, subs, subs.len()),
        AstTree::Other => analysis,
    }
}

/// What is known once the first `count` of patterns are seen.
pub open spec fn seen_asts(
    analysis: LiteralCaseAnalysis,
    trees: Seq<AstTree>,
    count: nat,
) -> LiteralCaseAnalysis
    decreases trees, count,
{
    if count == 0 || count > trees.len() {
        analysis
    } else {
        seen_ast(seen_asts(analysis, trees, (count - 1) as nat), trees[count - 1])
    }
}

/// What is known once the inside of brackets is seen.
pub open spec fn seen_set(analysis: LiteralCaseAnalysis, tree: SetTree) -> LiteralCaseAnalysis
    decreases tree, 0nat,
{
    match tree {
        SetTree::Item(item) => seen_item(analysis, *item),
        SetTree::Operation(left, right) => seen_set(seen_set(analysis, *left), *right),
    }
}

/// What is known once an item inside of brackets is seen.
pub open spec fn seen_item(analysis: LiteralCaseAnalysis, tree: ItemTree) -> LiteralCaseAnalysis
    decreases tree, 0nat,
{
    match tree {
        ItemTree::Literal(value) => seen_char(analysis, value),
        ItemTree::Range(start, end) => seen_char(seen_char(analysis, start), end),
        ItemTree::Bracketed { negated, set } => seen_set(analysis, *set),
        ItemTree::Union(items) => seen_items(analysis, items, items.len()),
        ItemTree::Other => analysis,
    }
}

/// What is known once the first `count` of items inside of brackets are seen.
pub open spec fn seen_items(
    analysis: LiteralCaseAnalysis,
    trees: Seq<ItemTree>,
    count: nat,
) -> LiteralCaseAnalysis
    decreases trees, count,
{
    if count == 0 || count > trees.len() {
        analysis
    } else {
        seen_item(seen_items(analysis, trees, (count - 1) as nat), trees[count - 1])
    }
}

/// Takes a character into account.
pub fn analyse_literal_char(character: char, analysis: &mut LiteralCaseAnalysis)
    ensures
        *final(analysis) == seen_char(*old(analysis), character),
{
    analysis.has_literal = true;
    if is_upper_case(character) {
        analysis.has_uppercase = true;
    }
}

/// Takes a text into account.
pub fn analyse_literal_text(text: &str, analysis: &mut LiteralCaseAnalysis)
    ensures
        *final(analysis) == seen_text(*old(analysis), text@),
{
    let letters: Vec<char> = to_chars(text);
    if letters.len() == 0 {
        return;
    }
    let ghost before = *analysis;
    let mut upper: bool = false;
    let mut index: usize = 0;
    while index < letters.len()
        invariant
            index <= letters.len(),
            upper == exists|i: int| 0 <= i < index && engine::is_upper(#[trigger] letters@[i]),
        decreases letters.len() - index,
    {
        let letter: char = letters[index];
        if is_upper_case(letter) {
            upper = true;
            assert(engine::is_upper(letters@[index as int]));
        }
        index += 1;
    }
    analysis.has_literal = true;
    if upper {
        analysis.has_uppercase = true;
    }
}

/// Takes a pattern into account.
pub fn analyse_ast_literals(expression: &AstExpr, analysis: &mut LiteralCaseAnalysis)
    ensures
        *final(analysis) == seen_ast(*old(analysis), expression.tree()),
    decreases expression,
{
    match expression {
        AstExpr::Literal(value) => analyse_literal_char(*value, analysis),
        AstExpr::Bracketed { negated, set } => analyse_ast_class_set(set, analysis),
        AstExpr::Inner(sub) => analyse_ast_literals(sub, analysis),
        AstExpr::Many(subs) => {
            let ghost trees = tree::ast_trees(subs@);
            let ghost before = *analysis;
            proof {
                tree::trees_of_many(*subs);
            }
            let mut index: usize = 0;
            while index < subs.len()
                invariant
                    index <= subs.len(),
                    trees == tree::ast_trees(subs@),
                    *expression == AstExpr::Many(*subs),
                    *analysis == seen_asts(before, trees, index as nat),
                decreases subs.len() - index,
            {
                proof {
                    assert(trees[index as int] == subs[index as int].tree());
                    assert(decreases_to!(*expression => expression->Many_0));
                    assert(decreases_to!(subs => subs@));
                    assert(decreases_to!(subs@ => subs@[index as int]));
                }
                analyse_ast_literals(&subs[index], analysis);
                index += 1;
            }
        },
        AstExpr::Other => {},
    }
}

/// Takes the inside of brackets into account.
pub fn analyse_ast_class_set(set: &SetExpr, analysis: &mut LiteralCaseAnalysis)
    ensures
        *final(analysis) == seen_set(*old(analysis), set.tree()),
    decreases set,
{
    match set {
        SetExpr::Item(item) => analyse_ast_class_item(item, analysis),
        SetExpr::Operation(left, right) => {
            analyse_ast_class_set(left, analysis);
            analyse_ast_class_set(right, analysis);
        },
    }
}

/// Takes an item inside of brackets into account.
pub fn analyse_ast_class_item(item: &ItemExpr, analysis: &mut LiteralCaseAnalysis)
    ensures
        *final(analysis) == seen_item(*old(analysis), item.tree()),
    decreases item,
{
    match item {
        ItemExpr::Literal(value) => analyse_literal_char(*value, analysis),
        ItemExpr::Range(start, end) => {
            analyse_literal_char(*start, analysis);
            analyse_literal_char(*end, analysis);
        },
        ItemExpr::Bracketed { negated, set } => analyse_ast_class_set(set, analysis),
        ItemExpr::Union(items) => {
            let ghost trees = tree::item_trees(items@);
            let ghost before = *analysis;
            proof {
                tree::trees_of_union(*items);
            }
            let mut index: usize = 0;
            while index < items.len()
                invariant
                    index <= items.len(),
                    trees == tree::item_trees(items@),
                    *item == ItemExpr::Union(*items),
                    *analysis == seen_items(before, trees, index as nat),
                decreases items.len() - index,
            {
                proof {
                    assert(trees[index as int] == items[index as int].tree());
                    assert(decreases_to!(*item => item->Union_0));
                    assert(decreases_to!(items => items@));
                    assert(decreases_to!(items@ => items@[index as int]));
                }
                analyse_ast_class_item(&items[index], analysis);
                index += 1;
            }
        },
        ItemExpr::Other => {},
    }
}

/// What is known before anything is seen.
pub open spec fn nothing_seen() -> LiteralCaseAnalysis {
    LiteralCaseAnalysis { has_literal: false, has_uppercase: false }
}

/// Whether a pattern has letters and none of them is in upper case, or the message of the error in
/// the pattern.
pub open spec fn lower_case_only(pattern: Seq<char>, fixed: bool) -> Result<bool, Seq<char>> {
    if fixed {
        let analysis = seen_text(nothing_seen(), pattern);
        Ok(analysis.has_literal && !analysis.has_uppercase)
    } else {
        match engine::parsed_ast(pattern, false) {
            Ok(tree) => {
                let analysis = seen_ast(nothing_seen(), tree);
                Ok(analysis.has_literal && !analysis.has_uppercase)
            },
            Err(message) => Err(message),
        }
    }
}

/// Whether a pattern has letters and none of them is in upper case.
pub fn is_lower_case_only(pattern: &str, fixed_strings: bool) -> (result: Result<
    bool,
    MatcherError,
>)
    ensures
        match result {
            Ok(found) => lower_case_only(pattern@, fixed_strings) == Ok::<bool, Seq<char>>(found),
            Err(error) => lower_case_only(pattern@, fixed_strings) == Err::<bool, Seq<char>>(
                error.message@,
            ),
        },
{
    let mut analysis = LiteralCaseAnalysis { has_literal: false, has_uppercase: false };
    if fixed_strings {
        analyse_literal_text(pattern, &mut analysis);
    } else {
        match parse_ast(pattern, false) {
            Ok(parsed) => {
                let expression: AstExpr = to_ast(&parsed);
                analyse_ast_literals(&expression, &mut analysis);
            },
            Err(message) => {
                return Err(MatcherError::new(message));
            },
        }
    }
    Ok(analysis.has_literal && !analysis.has_uppercase)
}

} // verus!
