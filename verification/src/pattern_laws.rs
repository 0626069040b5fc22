//! What the letters that a pattern is written with decide.

use vstd::prelude::*;
use crate::engine;
use crate::engine::SyntaxOptions;
use crate::native_matcher;
use crate::native_matcher::MatcherOptions;
use crate::pattern;
use crate::tree::{AstTree, ItemTree, SetTree, Tree};
use crate::written;
use crate::written::LiteralCaseAnalysis;

verus! {

/// Whether a character is written out in a pattern. Of a range the two ends are written.
pub open spec fn writes(tree: AstTree, value: char) -> bool
    decreases tree, 0nat,
{
    match tree {
        AstTree::Literal(letter) => letter == value,
        AstTree::Bracketed { negated, set } => set_writes(*set, value),
        AstTree::Inner(sub) => writes(*sub, value),
        AstTree::Many(subs) => some_writes(subs, subs.len(), value),
        AstTree::Other => false,
    }
}

/// Whether a character is written out in one of the first `count` of patterns.
pub open spec fn some_writes(subs: Seq<AstTree>, count: nat, value: char) -> bool
    decreases subs, count,
{
    if count == 0 || count > subs.len() {
        false
    } else {
        some_writes(subs, (count - 1) as nat, value) || writes(subs[count - 1], value)
    }
}

/// Whether a character is written out inside of brackets.
pub open spec fn set_writes(tree: SetTree, value: char) -> bool
    decreases tree, 0nat,
{
    match tree {
        SetTree::Item(item) => item_writes(*item, value),
        SetTree::Operation(left, right) => set_writes(*left, value) || set_writes(*right, value),
    }
}

/// Whether a character is written out in an item inside of brackets.
pub open spec fn item_writes(tree: ItemTree, value: char) -> bool
    decreases tree, 0nat,
{
    match tree {
        ItemTree::Literal(letter) => letter == value,
        ItemTree::Range(start, end) => start == value || end == value,
        ItemTree::Bracketed { negated, set } => set_writes(*set, value),
        ItemTree::Union(items) => some_item_writes(items, items.len(), value),
        ItemTree::Other => false,
    }
}

/// Whether a character is written out in one of the first `count` of items.
pub open spec fn some_item_writes(items: Seq<ItemTree>, count: nat, value: char) -> bool
    decreases items, count,
{
    if count == 0 || count > items.len() {
        false
    } else {
        some_item_writes(items, (count - 1) as nat, value) || item_writes(items[count - 1], value)
    }
}

/// What is known of a pattern agrees with what was known before and the characters that some of its
/// parts write.
spec fn tells(
    before: LiteralCaseAnalysis,
    after: LiteralCaseAnalysis,
    written: spec_fn(char) -> bool,
) -> bool {
    &&& after.has_literal == (before.has_literal || exists|c: char| #[trigger] written(c))
    &&& after.has_uppercase == (before.has_uppercase || exists|c: char|
        #[trigger] written(c) && engine::is_upper(c))
}

proof fn lemma_tells_one(before: LiteralCaseAnalysis, value: char, written: spec_fn(char) -> bool)
    requires
        forall|c: char| #[trigger] written(c) == (c == value),
    ensures
        tells(before, written::seen_char(before, value), written),
{
    assert(written(value));
}

proof fn lemma_tells_both(
    before: LiteralCaseAnalysis,
    middle: LiteralCaseAnalysis,
    after: LiteralCaseAnalysis,
    first: spec_fn(char) -> bool,
    second: spec_fn(char) -> bool,
    both: spec_fn(char) -> bool,
)
    requires
        tells(before, middle, first),
        tells(middle, after, second),
        forall|c: char| #[trigger] both(c) == (first(c) || second(c)),
    ensures
        tells(before, after, both),
{
    if exists|c: char| #[trigger] first(c) {
        let c = choose|c: char| #[trigger] first(c);
        assert(both(c));
    }
    if exists|c: char| #[trigger] second(c) {
        let c = choose|c: char| #[trigger] second(c);
        assert(both(c));
    }
    if exists|c: char| #[trigger] first(c) && engine::is_upper(c) {
        let c = choose|c: char| #[trigger] first(c) && engine::is_upper(c);
        assert(both(c));
    }
    if exists|c: char| #[trigger] second(c) && engine::is_upper(c) {
        let c = choose|c: char| #[trigger] second(c) && engine::is_upper(c);
        assert(both(c));
    }
    if exists|c: char| #[trigger] both(c) {
        let c = choose|c: char| #[trigger] both(c);
        assert(first(c) || second(c));
    }
    if exists|c: char| #[trigger] both(c) && engine::is_upper(c) {
        let c = choose|c: char| #[trigger] both(c) && engine::is_upper(c);
        assert(first(c) || second(c));
    }
}

proof fn lemma_seen_item(before: LiteralCaseAnalysis, tree: ItemTree)
    ensures
        tells(before, written::seen_item(before, tree), |c: char| item_writes(tree, c)),
    decreases tree, 0nat,
{
    let all = |c: char| item_writes(tree, c);
    match tree {
        ItemTree::Literal(value) => {
            assert forall|c: char| #[trigger] all(c) == (c == value) by {}
            lemma_tells_one(before, value, all);
        },
        ItemTree::Range(start, end) => {
            let first = |c: char| c == start;
            let second = |c: char| c == end;
            let middle = written::seen_char(before, start);
            lemma_tells_one(before, start, first);
            lemma_tells_one(middle, end, second);
            lemma_tells_both(
                before,
                middle,
                written::seen_char(middle, end),
                first,
                second,
                all,
            );
        },
        ItemTree::Bracketed { negated, set } => {
            lemma_seen_set(before, *set);
            let inner = |c: char| set_writes(*set, c);
            lemma_same(before, written::seen_set(before, *set), inner, all);
        },
        ItemTree::Union(items) => {
            lemma_seen_items(before, items, items.len());
            let inner = |c: char| some_item_writes(items, items.len(), c);
            lemma_same(before, written::seen_item(before, tree), inner, all);
        },
        ItemTree::Other => {
            lemma_nothing(before, all);
        },
    }
}

proof fn lemma_same(
    before: LiteralCaseAnalysis,
    after: LiteralCaseAnalysis,
    one: spec_fn(char) -> bool,
    other: spec_fn(char) -> bool,
)
    requires
        tells(before, after, one),
        forall|c: char| #[trigger] one(c) == other(c),
    ensures
        tells(before, after, other),
{
    assert(one =~= other) by {
        assert forall|c: char| #[trigger] one(c) == other(c) by {}
    }
}

proof fn lemma_nothing(before: LiteralCaseAnalysis, none: spec_fn(char) -> bool)
    requires
        forall|c: char| !#[trigger] none(c),
    ensures
        tells(before, before, none),
{
}

proof fn lemma_seen_items(before: LiteralCaseAnalysis, items: Seq<ItemTree>, count: nat)
    requires
        count <= items.len(),
    ensures
        tells(
            before,
            written::seen_items(before, items, count),
            |c: char| some_item_writes(items, count, c),
        ),
    decreases items, count,
{
    let all = |c: char| some_item_writes(items, count, c);
    if count == 0 {
        lemma_nothing(before, all);
    } else {
        let less = (count - 1) as nat;
        let first = |c: char| some_item_writes(items, less, c);
        let second = |c: char| item_writes(items[less as int], c);
        let middle = written::seen_items(before, items, less);
        lemma_seen_items(before, items, less);
        lemma_seen_item(middle, items[less as int]);
        lemma_tells_both(
            before,
            middle,
            written::seen_items(before, items, count),
            first,
            second,
            all,
        );
    }
}

proof fn lemma_seen_set(before: LiteralCaseAnalysis, tree: SetTree)
    ensures
        tells(before, written::seen_set(before, tree), |c: char| set_writes(tree, c)),
    decreases tree, 0nat,
{
    let all = |c: char| set_writes(tree, c);
    match tree {
        SetTree::Item(item) => {
            lemma_seen_item(before, *item);
            let inner = |c: char| item_writes(*item, c);
            lemma_same(before, written::seen_item(before, *item), inner, all);
        },
        SetTree::Operation(left, right) => {
            let middle = written::seen_set(before, *left);
            lemma_seen_set(before, *left);
            lemma_seen_set(middle, *right);
            lemma_tells_both(
                before,
                middle,
                written::seen_set(middle, *right),
                |c: char| set_writes(*left, c),
                |c: char| set_writes(*right, c),
                all,
            );
        },
    }
}

proof fn lemma_seen(before: LiteralCaseAnalysis, tree: AstTree)
    ensures
        tells(before, written::seen_ast(before, tree), |c: char| writes(tree, c)),
    decreases tree, 0nat,
{
    let all = |c: char| writes(tree, c);
    match tree {
        AstTree::Literal(value) => {
            lemma_tells_one(before, value, all);
        },
        AstTree::Bracketed { negated, set } => {
            lemma_seen_set(before, *set);
            let inner = |c: char| set_writes(*set, c);
            lemma_same(before, written::seen_set(before, *set), inner, all);
        },
        AstTree::Inner(sub) => {
            lemma_seen(before, *sub);
            let inner = |c: char| writes(*sub, c);
            lemma_same(before, written::seen_ast(before, *sub), inner, all);
        },
        AstTree::Many(subs) => {
            lemma_seen_many(before, subs, subs.len());
            let inner = |c: char| some_writes(subs, subs.len(), c);
            lemma_same(before, written::seen_ast(before, tree), inner, all);
        },
        AstTree::Other => {
            lemma_nothing(before, all);
        },
    }
}

proof fn lemma_seen_many(before: LiteralCaseAnalysis, subs: Seq<AstTree>, count: nat)
    requires
        count <= subs.len(),
    ensures
        tells(
            before,
            written::seen_asts(before, subs, count),
            |c: char| some_writes(subs, count, c),
        ),
    decreases subs, count,
{
    let all = |c: char| some_writes(subs, count, c);
    if count == 0 {
        lemma_nothing(before, all);
    } else {
        let less = (count - 1) as nat;
        let first = |c: char| some_writes(subs, less, c);
        let second = |c: char| writes(subs[less as int], c);
        let middle = written::seen_asts(before, subs, less);
        lemma_seen_many(before, subs, less);
        lemma_seen(middle, subs[less as int]);
        lemma_tells_both(
            before,
            middle,
            written::seen_asts(before, subs, count),
            first,
            second,
            all,
        );
    }
}

/// Where smart case is asked for, the case of letters is passed over just where the pattern writes some
/// character out and writes none in upper case.
pub proof fn upper_case_makes_case_count(pattern: Seq<char>, options: MatcherOptions)
    requires
        options.smart_case,
        !options.ignore_case,
        !options.fixed_strings,
    ensures
        match engine::parsed_ast(pattern, false) {
            Ok(tree) => native_matcher::folds_case(pattern, options) == Ok::<bool, Seq<char>>(
                (exists|c: char| #[trigger] writes(tree, c)) && (forall|c: char|
                    #[trigger] writes(tree, c) ==> !engine::is_upper(c)),
            ),
            Err(message) => native_matcher::folds_case(pattern, options) == Err::<bool, Seq<char>>(
                message,
            ),
        },
{
    if let Ok(tree) = engine::parsed_ast(pattern, false) {
        let all = |c: char| writes(tree, c);
        lemma_seen(written::nothing_seen(), tree);
        let after = written::seen_ast(written::nothing_seen(), tree);
        assert(after.has_literal == exists|c: char| #[trigger] all(c));
        if exists|c: char| #[trigger] all(c) {
            let c = choose|c: char| #[trigger] all(c);
            assert(writes(tree, c));
        }
        if exists|c: char| #[trigger] writes(tree, c) {
            let c = choose|c: char| #[trigger] writes(tree, c);
            assert(all(c));
        }
        if after.has_uppercase {
            let c = choose|c: char| #[trigger] all(c) && engine::is_upper(c);
            assert(writes(tree, c));
        } else {
            assert forall|c: char| #[trigger] writes(tree, c) implies !engine::is_upper(c) by {
                assert(all(c));
            }
        }
    }
}

/// Whether a pattern asks for a NUL byte by writing it out, but for brackets that take it out.
pub open spec fn asks_for_nul(tree: AstTree) -> bool
    decreases tree, 0nat,
{
    match tree {
        AstTree::Literal(letter) => letter as int == 0,
        AstTree::Bracketed { negated, set } => !negated && set_asks_for_nul(*set),
        AstTree::Inner(sub) => asks_for_nul(*sub),
        AstTree::Many(subs) => some_asks_for_nul(subs, subs.len()),
        AstTree::Other => false,
    }
}

/// Whether one of the first `count` of patterns asks for a NUL byte.
pub open spec fn some_asks_for_nul(subs: Seq<AstTree>, count: nat) -> bool
    decreases subs, count,
{
    if count == 0 || count > subs.len() {
        false
    } else {
        some_asks_for_nul(subs, (count - 1) as nat) || asks_for_nul(subs[count - 1])
    }
}

/// Whether the inside of brackets asks for a NUL byte.
pub open spec fn set_asks_for_nul(tree: SetTree) -> bool
    decreases tree, 0nat,
{
    match tree {
        SetTree::Item(item) => item_asks_for_nul(*item),
        SetTree::Operation(left, right) => set_asks_for_nul(*left) || set_asks_for_nul(*right),
    }
}

/// Whether an item inside of brackets asks for a NUL byte. No range but one that starts with it does.
pub open spec fn item_asks_for_nul(tree: ItemTree) -> bool
    decreases tree, 0nat,
{
    match tree {
        ItemTree::Literal(letter) => letter as int == 0,
        ItemTree::Range(start, end) => start as int == 0,
        ItemTree::Bracketed { negated, set } => !negated && set_asks_for_nul(*set),
        ItemTree::Union(items) => some_item_asks_for_nul(items, items.len()),
        ItemTree::Other => false,
    }
}

/// Whether one of the first `count` of items asks for a NUL byte.
pub open spec fn some_item_asks_for_nul(items: Seq<ItemTree>, count: nat) -> bool
    decreases items, count,
{
    if count == 0 || count > items.len() {
        false
    } else {
        some_item_asks_for_nul(items, (count - 1) as nat) || item_asks_for_nul(items[count - 1])
    }
}

proof fn lemma_nul_item(tree: ItemTree)
    ensures
        written::nul_in_item(tree) == item_asks_for_nul(tree),
    decreases tree, 0nat,
{
    match tree {
        ItemTree::Bracketed { negated, set } => {
            lemma_nul_set(*set);
        },
        ItemTree::Union(items) => {
            lemma_nul_items(items, items.len());
        },
        _ => {},
    }
}

proof fn lemma_nul_items(items: Seq<ItemTree>, count: nat)
    requires
        count <= items.len(),
    ensures
        written::nul_in_items(items, count) == some_item_asks_for_nul(items, count),
    decreases items, count,
{
    if count > 0 {
        lemma_nul_items(items, (count - 1) as nat);
        lemma_nul_item(items[count - 1]);
    }
}

proof fn lemma_nul_set(tree: SetTree)
    ensures
        written::nul_in_set(tree) == set_asks_for_nul(tree),
    decreases tree, 0nat,
{
    match tree {
        SetTree::Item(item) => {
            lemma_nul_item(*item);
        },
        SetTree::Operation(left, right) => {
            lemma_nul_set(*left);
            lemma_nul_set(*right);
        },
    }
}

proof fn lemma_nul(tree: AstTree)
    ensures
        written::nul_in_ast(tree) == asks_for_nul(tree),
    decreases tree, 0nat,
{
    match tree {
        AstTree::Bracketed { negated, set } => {
            lemma_nul_set(*set);
        },
        AstTree::Inner(sub) => {
            lemma_nul(*sub);
        },
        AstTree::Many(subs) => {
            lemma_nul_many(subs, subs.len());
        },
        _ => {},
    }
}

proof fn lemma_nul_many(subs: Seq<AstTree>, count: nat)
    requires
        count <= subs.len(),
    ensures
        written::nul_in_asts(subs, count) == some_asks_for_nul(subs, count),
    decreases subs, count,
{
    if count > 0 {
        lemma_nul_many(subs, (count - 1) as nat);
        lemma_nul(subs[count - 1]);
    }
}

/// A pattern that asks for a NUL byte is refused unless files are taken as text.
pub proof fn nul_is_not_searched_for(pattern: Seq<char>, options: MatcherOptions)
    requires
        !options.fixed_strings,
        !options.text,
        engine::parsed_ast(pattern, false) is Ok,
    ensures
        asks_for_nul(engine::parsed_ast(pattern, false)->Ok_0) ==> native_matcher::built(
            pattern,
            options,
        ) is Err,
        written::mentions_nul(pattern, false) == Ok::<bool, Seq<char>>(
            asks_for_nul(engine::parsed_ast(pattern, false)->Ok_0),
        ),
{
    lemma_nul(engine::parsed_ast(pattern, false)->Ok_0);
}

/// Whether a text in a pattern holds a line feed.
pub open spec fn holds_feed(tree: Tree) -> bool
    decreases tree, 0nat,
{
    match tree {
        Tree::Literal(bytes) => exists|i: int|
            0 <= i < bytes.len() && #[trigger] bytes[i] as int == '\n' as int,
        Tree::Repetition { min, max, greedy, sub } => holds_feed(*sub),
        Tree::Capture { index, name, sub } => holds_feed(*sub),
        Tree::Concat(subs) => some_holds_feed(subs, subs.len()),
        Tree::Alternation(subs) => some_holds_feed(subs, subs.len()),
        _ => false,
    }
}

/// Whether a text in one of the first `count` of patterns holds a line feed.
pub open spec fn some_holds_feed(subs: Seq<Tree>, count: nat) -> bool
    decreases subs, count,
{
    if count == 0 || count > subs.len() {
        false
    } else {
        some_holds_feed(subs, (count - 1) as nat) || holds_feed(subs[count - 1])
    }
}

/// A pattern is refused just where a text in it holds a line feed.
pub proof fn feeds_are_not_searched_for(tree: Tree)
    ensures
        pattern::without_feeds(tree) is None == holds_feed(tree),
    decreases tree, 0nat,
{
    match tree {
        Tree::Literal(bytes) => {
            if bytes.contains(0xau8) {
                let i = choose|i: int| 0 <= i < bytes.len() && bytes[i] == 0xau8;
                assert(bytes[i] as int == '\n' as int);
            }
            if holds_feed(tree) {
                let i = choose|i: int|
                    0 <= i < bytes.len() && #[trigger] bytes[i] as int == '\n' as int;
                assert(bytes[i] == 0xau8);
            }
        },
        Tree::Repetition { min, max, greedy, sub } => {
            feeds_are_not_searched_for(*sub);
        },
        Tree::Capture { index, name, sub } => {
            feeds_are_not_searched_for(*sub);
        },
        Tree::Concat(subs) => {
            lemma_feeds(subs, subs.len());
        },
        Tree::Alternation(subs) => {
            lemma_feeds(subs, subs.len());
        },
        _ => {},
    }
}

proof fn lemma_feeds(subs: Seq<Tree>, count: nat)
    requires
        count <= subs.len(),
    ensures
        pattern::all_without_feeds(subs, count) is None == some_holds_feed(subs, count),
    decreases subs, count,
{
    if count > 0 {
        lemma_feeds(subs, (count - 1) as nat);
        feeds_are_not_searched_for(subs[count - 1]);
    }
}

/// A pattern is read line by line: `^` and `$` stand at the ends of lines, a dot stands for no line feed,
/// classes are those of Unicode, and any byte may be asked for. A fixed text is read by its bytes, or
/// with all its signs escaped where case is passed over.
pub proof fn patterns_are_read_line_by_line(source: Seq<char>, folds: bool)
    ensures
        native_matcher::pattern_tree(source, false, folds) == engine::parsed_tree(
            source,
            SyntaxOptions {
                case_insensitive: folds,
                multi_line: true,
                unicode: true,
                utf8: false,
                octal: false,
                dot_matches_new_line: false,
                line_terminator: 0xa,
            },
        ),
        native_matcher::pattern_tree(source, true, true) == native_matcher::pattern_tree(
            engine::escaped(source),
            false,
            true,
        ),
{
}

/// What a word character is, is said by the class `\w` of Unicode.
pub proof fn words_are_made_of_word_characters()
    ensures
        native_matcher::word_model() matches Ok(model) ==> {
            &&& engine::parsed_tree(
                "\\w"@,
                SyntaxOptions {
                    case_insensitive: false,
                    multi_line: false,
                    unicode: true,
                    utf8: true,
                    octal: false,
                    dot_matches_new_line: false,
                    line_terminator: 0xa,
                },
            ) == Ok::<Tree, Seq<char>>(model.tree)
            &&& model.line_terminator == 0xa
        },
{
}

} // verus!
