//! Patterns as plain trees: what a pattern says, and how it is written.

use vstd::prelude::*;
use crate::text;

verus! {

/// What a pattern says.
pub enum Tree {
    Empty,
    Literal(Seq<u8>),
    /// Ranges of characters, in order and apart.
    Unicode(Seq<(char, char)>),
    /// Ranges of bytes, in order and apart.
    Bytes(Seq<(u8, u8)>),
    /// A condition on a place in the text, by its number.
    Look(u32),
    Repetition { min: u32, max: Option<u32>, greedy: bool, sub: Box<Tree> },
    Capture { index: u32, name: Option<Seq<char>>, sub: Box<Tree> },
    Concat(Seq<Tree>),
    Alternation(Seq<Tree>),
}

/// What a pattern says.
#[derive(Debug)]
pub enum Expr {
    Empty,
    Literal(Vec<u8>),
    Unicode(Vec<(char, char)>),
    Bytes(Vec<(u8, u8)>),
    Look(u32),
    Repetition { min: u32, max: Option<u32>, greedy: bool, sub: Box<Expr> },
    Capture { index: u32, name: Option<String>, sub: Box<Expr> },
    Concat(Vec<Expr>),
    Alternation(Vec<Expr>),
}

/// Whether ranges of characters are in order and apart.
pub open spec fn chars_apart(ranges: Seq<(char, char)>) -> bool {
    &&& forall|i: int|
        0 <= i < ranges.len() ==> (#[trigger] ranges[i]).0 as int <= ranges[i].1 as int
    &&& forall|i: int, j: int|
        0 <= i < j < ranges.len() ==> (#[trigger] ranges[i]).1 as int + 1 < (
        #[trigger] ranges[j]).0 as int
}

/// Whether ranges of bytes are in order and apart.
pub open spec fn bytes_apart(ranges: Seq<(u8, u8)>) -> bool {
    &&& forall|i: int| 0 <= i < ranges.len() ==> (#[trigger] ranges[i]).0 <= ranges[i].1
    &&& forall|i: int, j: int|
        0 <= i < j < ranges.len() ==> (#[trigger] ranges[i]).1 + 1 < (#[trigger] ranges[j]).0
}

/// The conditions by their numbers: each has one bit of the lowest eighteen.
pub open spec fn is_look(value: u32) -> bool {
    value == 0x1 || value == 0x2 || value == 0x4 || value == 0x8 || value == 0x10 || value == 0x20
        || value == 0x40 || value == 0x80 || value == 0x100 || value == 0x200 || value == 0x400
        || value == 0x800 || value == 0x1000 || value == 0x2000 || value == 0x4000 || value
        == 0x8000 || value == 0x1_0000 || value == 0x2_0000
}

/// The condition that a line starts.
pub const START_OF_LINE: u32 = 0x4;

/// The condition that a line ends.
pub const END_OF_LINE: u32 = 0x8;

/// The condition that no word character comes before.
pub const WORD_START_HALF: u32 = 0x1_0000;

/// The condition that no word character follows.
pub const WORD_END_HALF: u32 = 0x2_0000;

/// Whether all parts of a tree are well formed.
pub open spec fn tree_wf(tree: Tree) -> bool
    decreases tree, 0nat,
{
    match tree {
        Tree::Empty => true,
        Tree::Literal(_) => true,
        Tree::Unicode(ranges) => chars_apart(ranges),
        Tree::Bytes(ranges) => bytes_apart(ranges),
        Tree::Look(value) => is_look(value),
        Tree::Repetition { min, max, greedy, sub } => tree_wf(*sub),
        Tree::Capture { index, name, sub } => tree_wf(*sub),
        Tree::Concat(subs) => trees_wf(subs, subs.len()),
        Tree::Alternation(subs) => trees_wf(subs, subs.len()),
    }
}

/// Whether the first `count` of trees are well formed.
pub open spec fn trees_wf(trees: Seq<Tree>, count: nat) -> bool
    decreases trees, count,
{
    if count == 0 || count > trees.len() {
        count == 0
    } else {
        trees_wf(trees, (count - 1) as nat) && tree_wf(trees[count - 1])
    }
}

impl Expr {
    /// What the pattern says.
    pub open spec fn tree(self) -> Tree
        decreases self,
    {
        match self {
            Expr::Empty => Tree::Empty,
            Expr::Literal(bytes) => Tree::Literal(bytes@),
            Expr::Unicode(ranges) => Tree::Unicode(ranges@),
            Expr::Bytes(ranges) => Tree::Bytes(ranges@),
            Expr::Look(value) => Tree::Look(value),
            Expr::Repetition { min, max, greedy, sub } => Tree::Repetition {
                min,
                max,
                greedy,
                sub: Box::new(sub.tree()),
            },
            Expr::Capture { index, name, sub } => Tree::Capture {
                index,
                name: text::optional_text(name),
                sub: Box::new(sub.tree()),
            },
            Expr::Concat(subs) => Tree::Concat(
                Seq::new(
                    subs@.len(),
                    |i: int|
                        if 0 <= i < subs@.len() {
                            subs@[i].tree()
                        } else {
                            Tree::Empty
                        },
                ),
            ),
            Expr::Alternation(subs) => Tree::Alternation(
                Seq::new(
                    subs@.len(),
                    |i: int|
                        if 0 <= i < subs@.len() {
                            subs@[i].tree()
                        } else {
                            Tree::Empty
                        },
                ),
            ),
        }
    }

    pub open spec fn wf(self) -> bool {
        tree_wf(self.tree())
    }
}

/// What patterns say.
pub open spec fn expr_trees(exprs: Seq<Expr>) -> Seq<Tree> {
    Seq::new(exprs.len(), |i: int| exprs[i].tree())
}

/// The trees of a list of patterns.
pub proof fn trees_of_subs(subs: Vec<Expr>)
    ensures
        Expr::Concat(subs).tree() == Tree::Concat(expr_trees(subs@)),
        Expr::Alternation(subs).tree() == Tree::Alternation(expr_trees(subs@)),
{
    assert(Expr::Concat(subs).tree()->Concat_0 =~= expr_trees(subs@));
    assert(Expr::Alternation(subs).tree()->Alternation_0 =~= expr_trees(subs@));
}

/// Any of well-formed trees is well formed.
pub proof fn tree_of_wf(trees: Seq<Tree>, count: nat, index: int)
    requires
        trees_wf(trees, count),
        0 <= index < count <= trees.len(),
    ensures
        tree_wf(trees[index]),
    decreases count,
{
    if index < count - 1 {
        tree_of_wf(trees, (count - 1) as nat, index);
    }
}

/// Trees that are all well formed.
pub proof fn trees_all_wf(trees: Seq<Tree>, count: nat)
    requires
        count <= trees.len(),
        forall|i: int| 0 <= i < count ==> tree_wf(#[trigger] trees[i]),
    ensures
        trees_wf(trees, count),
    decreases count,
{
    if count > 0 {
        trees_all_wf(trees, (count - 1) as nat);
    }
}

/// How a pattern is written.
pub enum AstTree {
    Literal(char),
    Bracketed { negated: bool, set: Box<SetTree> },
    /// A repetition or a group.
    Inner(Box<AstTree>),
    /// Alternatives, or parts one behind the other.
    Many(Seq<AstTree>),
    Other,
}

/// How the inside of brackets is written.
pub enum SetTree {
    Item(Box<ItemTree>),
    Operation(Box<SetTree>, Box<SetTree>),
}

/// How an item inside of brackets is written.
pub enum ItemTree {
    Literal(char),
    Range(char, char),
    Bracketed { negated: bool, set: Box<SetTree> },
    Union(Seq<ItemTree>),
    Other,
}

/// How a pattern is written.
#[derive(Debug)]
pub enum AstExpr {
    Literal(char),
    Bracketed { negated: bool, set: Box<SetExpr> },
    Inner(Box<AstExpr>),
    Many(Vec<AstExpr>),
    Other,
}

/// How the inside of brackets is written.
#[derive(Debug)]
pub enum SetExpr {
    Item(Box<ItemExpr>),
    Operation(Box<SetExpr>, Box<SetExpr>),
}

/// How an item inside of brackets is written.
#[derive(Debug)]
pub enum ItemExpr {
    Literal(char),
    Range(char, char),
    Bracketed { negated: bool, set: Box<SetExpr> },
    Union(Vec<ItemExpr>),
    Other,
}

impl AstExpr {
    /// How the pattern is written.
    pub open spec fn tree(self) -> AstTree
        decreases self,
    {
        match self {
            AstExpr::Literal(value) => AstTree::Literal(value),
            AstExpr::Bracketed { negated, set } => AstTree::Bracketed {
                negated,
                set: Box::new(set.tree()),
            },
            AstExpr::Inner(sub) => AstTree::Inner(Box::new(sub.tree())),
            AstExpr::Many(subs) => AstTree::Many(
                Seq::new(
                    subs@.len(),
                    |i: int|
                        if 0 <= i < subs@.len() {
                            subs@[i].tree()
                        } else {
                            AstTree::Other
                        },
                ),
            ),
            AstExpr::Other => AstTree::Other,
        }
    }
}

impl SetExpr {
    /// How the inside of brackets is written.
    pub open spec fn tree(self) -> SetTree
        decreases self,
    {
        match self {
            SetExpr::Item(item) => SetTree::Item(Box::new(item.tree())),
            SetExpr::Operation(left, right) => SetTree::Operation(
                Box::new(left.tree()),
                Box::new(right.tree()),
            ),
        }
    }
}

impl ItemExpr {
    /// How the item is written.
    pub open spec fn tree(self) -> ItemTree
        decreases self,
    {
        match self {
            ItemExpr::Literal(value) => ItemTree::Literal(value),
            ItemExpr::Range(start, end) => ItemTree::Range(start, end),
            ItemExpr::Bracketed { negated, set } => ItemTree::Bracketed {
                negated,
                set: Box::new(set.tree()),
            },
            ItemExpr::Union(items) => ItemTree::Union(
                Seq::new(
                    items@.len(),
                    |i: int|
                        if 0 <= i < items@.len() {
                            items@[i].tree()
                        } else {
                            ItemTree::Other
                        },
                ),
            ),
            ItemExpr::Other => ItemTree::Other,
        }
    }
}

/// How patterns are written.
pub open spec fn ast_trees(exprs: Seq<AstExpr>) -> Seq<AstTree> {
    Seq::new(exprs.len(), |i: int| exprs[i].tree())
}

/// How items are written.
pub open spec fn item_trees(items: Seq<ItemExpr>) -> Seq<ItemTree> {
    Seq::new(items.len(), |i: int| items[i].tree())
}

/// The trees of a list of written patterns.
pub proof fn trees_of_many(subs: Vec<AstExpr>)
    ensures
        AstExpr::Many(subs).tree() == AstTree::Many(ast_trees(subs@)),
{
    assert(AstExpr::Many(subs).tree()->Many_0 =~= ast_trees(subs@));
}

/// The trees of a list of written items.
pub proof fn trees_of_union(items: Vec<ItemExpr>)
    ensures
        ItemExpr::Union(items).tree() == ItemTree::Union(item_trees(items@)),
{
    assert(ItemExpr::Union(items).tree()->Union_0 =~= item_trees(items@));
}

} // verus!
