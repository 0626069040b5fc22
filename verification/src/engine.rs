//! The pattern engines that FastFs stands on, and what is taken from them.

use aho_corasick::{AhoCorasick, AhoCorasickBuilder, MatchKind};
use regex_automata::meta::Regex;
use regex_automata::util::syntax;
use regex_automata::Input;
use regex_syntax::ast::parse::ParserBuilder;
use regex_syntax::ast::{Ast, ClassSet, ClassSetItem};
use regex_syntax::hir::{
    Capture, Class, ClassBytes, ClassBytesRange, ClassUnicode, ClassUnicodeRange, Hir, HirKind,
    Look, Repetition,
};
use vstd::prelude::*;
use vstd::utf8::*;
use crate::text;
use crate::tree;
use crate::tree::{AstTree, ItemTree, SetTree, Tree};

verus! {

/// A pattern as `regex-syntax` holds it.
#[verifier::external_type_specification]
#[verifier::external_body]
pub struct ExHir(regex_syntax::hir::Hir);

/// A class of characters or bytes as `regex-syntax` holds it.
#[verifier::external_type_specification]
#[verifier::external_body]
pub struct ExClass(regex_syntax::hir::Class);

/// A written pattern as `regex-syntax` holds it.
#[verifier::external_type_specification]
#[verifier::external_body]
pub struct ExAst(regex_syntax::ast::Ast);

/// The inside of brackets as `regex-syntax` holds it.
#[verifier::external_type_specification]
#[verifier::external_body]
pub struct ExClassSet(regex_syntax::ast::ClassSet);

/// An item inside of brackets as `regex-syntax` holds it.
#[verifier::external_type_specification]
#[verifier::external_body]
pub struct ExClassSetItem(regex_syntax::ast::ClassSetItem);

/// A pattern that is ready to match.
#[verifier::external_type_specification]
#[verifier::external_body]
pub struct ExRegex(regex_automata::meta::Regex);

/// A set of literals that is ready to match.
#[verifier::external_type_specification]
#[verifier::external_body]
pub struct ExAhoCorasick(aho_corasick::AhoCorasick);

/// What a `Hir` holds.
pub uninterp spec fn hir_tree(hir: Hir) -> Tree;

/// What a `Class` holds.
pub uninterp spec fn class_tree(class: Class) -> Tree;

/// What `Hir`s hold.
pub open spec fn hir_trees(hirs: Seq<Hir>) -> Seq<Tree> {
    Seq::new(hirs.len(), |i: int| hir_tree(hirs[i]))
}

/// One level of a `Hir`.
pub enum HirNode<'a> {
    Empty,
    Literal(Vec<u8>),
    Class(&'a Class),
    Look(u32),
    Repetition(u32, Option<u32>, bool, &'a Hir),
    Capture(u32, Option<String>, &'a Hir),
    Concat(&'a [Hir]),
    Alternation(&'a [Hir]),
}

impl<'a> HirNode<'a> {
    /// What the `Hir` holds of which this is the first level.
    pub open spec fn tree(self) -> Tree {
        match self {
            HirNode::Empty => Tree::Empty,
            HirNode::Literal(bytes) => Tree::Literal(bytes@),
            HirNode::Class(class) => class_tree(*class),
            HirNode::Look(value) => Tree::Look(value),
            HirNode::Repetition(min, max, greedy, sub) => Tree::Repetition {
                min,
                max,
                greedy,
                sub: Box::new(hir_tree(*sub)),
            },
            HirNode::Capture(index, name, sub) => Tree::Capture {
                index,
                name: text::optional_text(name),
                sub: Box::new(hir_tree(*sub)),
            },
            HirNode::Concat(subs) => Tree::Concat(hir_trees(subs@)),
            HirNode::Alternation(subs) => Tree::Alternation(hir_trees(subs@)),
        }
    }
}

/// Calls `Hir::kind`, and takes apart what it gives. A look-around is one of those that there are.
#[verifier::external_body]
pub(crate) fn hir_node<'a>(hir: &'a Hir) -> (result: HirNode<'a>)
    ensures
        result.tree() == hir_tree(*hir),
        result matches HirNode::Look(value) ==> tree::is_look(value),
{
    match hir.kind() {
        HirKind::Empty => HirNode::Empty,
        HirKind::Literal(x) => HirNode::Literal(x.0.to_vec()),
        HirKind::Class(x) => HirNode::Class(x),
        HirKind::Look(x) => HirNode::Look(x.as_repr()),
        HirKind::Repetition(x) => HirNode::Repetition(x.min, x.max, x.greedy, &x.sub),
        HirKind::Capture(x) => {
            HirNode::Capture(x.index, x.name.as_ref().map(|name| name.to_string()), &x.sub)
        },
        HirKind::Concat(x) => HirNode::Concat(x),
        HirKind::Alternation(x) => HirNode::Alternation(x),
    }
}

/// The ranges of a class.
pub enum ClassRanges {
    Unicode(Vec<(char, char)>),
    Bytes(Vec<(u8, u8)>),
}

impl ClassRanges {
    /// The class as a tree.
    pub open spec fn tree(self) -> Tree {
        match self {
            ClassRanges::Unicode(ranges) => Tree::Unicode(ranges@),
            ClassRanges::Bytes(ranges) => Tree::Bytes(ranges@),
        }
    }
}

/// Calls `ClassUnicode::ranges` or `ClassBytes::ranges`. The ranges are in order, and no two of them
/// overlap or touch.
#[verifier::external_body]
pub(crate) fn class_ranges(class: &Class) -> (result: ClassRanges)
    ensures
        result.tree() == class_tree(*class),
        result matches ClassRanges::Unicode(ranges) ==> tree::chars_apart(ranges@),
        result matches ClassRanges::Bytes(ranges) ==> tree::bytes_apart(ranges@),
{
    match class {
        Class::Unicode(x) => {
            ClassRanges::Unicode(x.ranges().iter().map(|r| (r.start(), r.end())).collect())
        },
        Class::Bytes(x) => {
            ClassRanges::Bytes(x.ranges().iter().map(|r| (r.start(), r.end())).collect())
        },
    }
}

/// How a pattern is read.
#[derive(Clone, Copy, Debug, PartialEq, Eq, Structural)]
pub struct SyntaxOptions {
    pub case_insensitive: bool,
    pub multi_line: bool,
    pub unicode: bool,
    pub utf8: bool,
    pub octal: bool,
    pub dot_matches_new_line: bool,
    pub line_terminator: u8,
}

/// What `syntax::parse_with` makes of a pattern: a tree, or the message of its error.
pub uninterp spec fn parsed_tree(source: Seq<char>, options: SyntaxOptions) -> Result<
    Tree,
    Seq<char>,
>;

/// Calls `regex_automata::util::syntax::parse_with` with these options, and its defaults for all
/// others. The outcome depends on the pattern and the options alone.
#[verifier::external_body]
pub(crate) fn parse_source(source: &str, options: SyntaxOptions) -> (result: Result<Hir, String>)
    ensures
        match result {
            Ok(hir) => parsed_tree(source@, options) == Ok::<Tree, Seq<char>>(hir_tree(hir)),
            Err(message) => parsed_tree(source@, options) == Err::<Tree, Seq<char>>(message@),
        },
{
    let config = syntax::Config::new()
        .case_insensitive(options.case_insensitive)
        .multi_line(options.multi_line)
        .unicode(options.unicode)
        .utf8(options.utf8)
        .octal(options.octal)
        .dot_matches_new_line(options.dot_matches_new_line)
        .line_terminator(options.line_terminator);
    syntax::parse_with(source, &config).map_err(|error| error.to_string())
}

/// The characters that mean something else than themselves in a pattern.
pub open spec fn is_meta(value: char) -> bool {
    value == '\\' || value == '.' || value == '+' || value == '*' || value == '?' || value == '('
        || value == ')' || value == '|' || value == '[' || value == ']' || value == '{' || value
        == '}' || value == '^' || value == '$' || value == '#' || value == '&' || value == '-'
        || value == '~'
}

/// A text with a backslash before each character that would mean something else.
pub open spec fn escaped(text: Seq<char>) -> Seq<char>
    decreases text.len(),
{
    if text.len() == 0 {
        text
    } else if is_meta(text.last()) {
        escaped(text.drop_last()).push('\\').push(text.last())
    } else {
        escaped(text.drop_last()).push(text.last())
    }
}

/// Calls `regex_syntax::escape`, which puts a backslash before each such character.
#[verifier::external_body]
pub(crate) fn escape_text(text: &str) -> (result: String)
    ensures
        result@ == escaped(text@),
{
    regex_syntax::escape(text)
}

/// The pattern for bytes: an empty pattern where there are none.
pub open spec fn literal_tree(bytes: Seq<u8>) -> Tree {
    if bytes.len() == 0 {
        Tree::Empty
    } else {
        Tree::Literal(bytes)
    }
}

/// Calls `Hir::literal`, which gives the empty pattern for no bytes.
#[verifier::external_body]
pub(crate) fn literal_hir(bytes: &[u8]) -> (result: Hir)
    ensures
        hir_tree(result) == literal_tree(bytes@),
{
    Hir::literal(bytes)
}

/// Calls `Hir::look`.
#[verifier::external_body]
pub(crate) fn look_hir(value: u32) -> (result: Hir)
    requires
        tree::is_look(value),
    ensures
        hir_tree(result) == Tree::Look(value),
{
    Hir::look(Look::from_repr(value).unwrap())
}

/// The pattern for a class of characters: one that never matches where it is empty, and a literal
/// where it holds one character.
pub open spec fn unicode_tree(ranges: Seq<(char, char)>) -> Tree {
    if ranges.len() == 0 {
        Tree::Bytes(Seq::empty())
    } else if ranges.len() == 1 && ranges[0].0 == ranges[0].1 {
        Tree::Literal(encode_utf8(seq![ranges[0].0]))
    } else {
        Tree::Unicode(ranges)
    }
}

/// Calls `Hir::class` on a class of these characters.
#[verifier::external_body]
pub(crate) fn unicode_class_hir(ranges: &[(char, char)]) -> (result: Hir)
    requires
        tree::chars_apart(ranges@),
    ensures
        hir_tree(result) == unicode_tree(ranges@),
{
    let ranges = ranges.iter().map(|range| ClassUnicodeRange::new(range.0, range.1));
    Hir::class(Class::Unicode(ClassUnicode::new(ranges)))
}

/// The pattern for a class of bytes: one that never matches where it is empty, and a literal where it
/// holds one byte.
pub open spec fn bytes_tree(ranges: Seq<(u8, u8)>) -> Tree {
    if ranges.len() == 1 && ranges[0].0 == ranges[0].1 {
        Tree::Literal(seq![ranges[0].0])
    } else {
        Tree::Bytes(ranges)
    }
}

/// Calls `Hir::class` on a class of these bytes.
#[verifier::external_body]
pub(crate) fn byte_class_hir(ranges: &[(u8, u8)]) -> (result: Hir)
    requires
        tree::bytes_apart(ranges@),
    ensures
        hir_tree(result) == bytes_tree(ranges@),
{
    let ranges = ranges.iter().map(|range| ClassBytesRange::new(range.0, range.1));
    Hir::class(Class::Bytes(ClassBytes::new(ranges)))
}

/// What `Hir::repetition` makes of a repetition.
pub uninterp spec fn repeated_tree(min: u32, max: Option<u32>, greedy: bool, sub: Tree) -> Tree;

/// Calls `Hir::repetition`, whose result depends on its arguments alone.
#[verifier::external_body]
pub(crate) fn repetition_hir(min: u32, max: Option<u32>, greedy: bool, sub: Hir) -> (result: Hir)
    ensures
        hir_tree(result) == repeated_tree(min, max, greedy, hir_tree(sub)),
{
    Hir::repetition(Repetition { min, max, greedy, sub: Box::new(sub) })
}

/// Calls `Hir::capture`.
#[verifier::external_body]
pub(crate) fn capture_hir(index: u32, name: Option<String>, sub: Hir) -> (result: Hir)
    ensures
        hir_tree(result) == (Tree::Capture {
            index,
            name: text::optional_text(name),
            sub: Box::new(hir_tree(sub)),
        }),
{
    Hir::capture(Capture { index, name: name.map(String::into_boxed_str), sub: Box::new(sub) })
}

/// What `Hir::concat` makes of patterns one behind the other.
pub uninterp spec fn concat_tree(subs: Seq<Tree>) -> Tree;

/// Calls `Hir::concat`, whose result depends on its arguments alone.
#[verifier::external_body]
pub(crate) fn concat_hir(subs: Vec<Hir>) -> (result: Hir)
    ensures
        hir_tree(result) == concat_tree(hir_trees(subs@)),
{
    Hir::concat(subs)
}

/// What `Hir::alternation` makes of patterns.
pub uninterp spec fn alternation_tree(subs: Seq<Tree>) -> Tree;

/// Calls `Hir::alternation`, whose result depends on its arguments alone.
#[verifier::external_body]
pub(crate) fn alternation_hir(subs: Vec<Hir>) -> (result: Hir)
    ensures
        hir_tree(result) == alternation_tree(hir_trees(subs@)),
{
    Hir::alternation(subs)
}

/// What a `Regex` matches, and how.
pub struct RegexModel {
    pub tree: Tree,
    pub utf8_empty: bool,
    pub line_terminator: u8,
}

/// What a `Regex` matches, and how.
pub uninterp spec fn regex_model(regex: Regex) -> RegexModel;

/// The message of the error where no `Regex` can be built on machines with words of this many bits.
pub uninterp spec fn regex_error(model: RegexModel, word_bits: u32) -> Option<Seq<char>>;

/// Calls `Regex::builder` and `build_from_hir` with these options, and its defaults for all others.
/// Whether that succeeds depends on the pattern, the options and, because the limit on a pattern's size
/// counts bytes of memory, on the width of a machine word.
#[verifier::external_body]
pub(crate) fn compile_hir(hir: &Hir, utf8_empty: bool, line_terminator: u8) -> (result: Result<
    Regex,
    String,
>)
    ensures
        ({
            let model = RegexModel { tree: hir_tree(*hir), utf8_empty, line_terminator };
            match result {
                Ok(regex) => regex_model(regex) == model && regex_error(model, usize::BITS) is None,
                Err(message) => regex_error(model, usize::BITS) == Some(message@),
            }
        }),
{
    let mut builder = Regex::builder();
    builder.configure(
        Regex::config().utf8_empty(utf8_empty).line_terminator(line_terminator),
    );
    builder.build_from_hir(hir).map_err(|error| error.to_string())
}

/// Where a pattern first matches in a text at or behind a place.
pub uninterp spec fn regex_span(model: RegexModel, haystack: Seq<u8>, at: int) -> Option<
    (int, int),
>;

/// A pair of machine positions as a pair of mathematical ones.
pub open spec fn span_of(pair: Option<(usize, usize)>) -> Option<(int, int)> {
    match pair {
        Some(found) => Some((found.0 as int, found.1 as int)),
        None => None,
    }
}

/// Calls `Regex::find` on the text from `at` on; what comes before is still seen by look-arounds. The
/// match depends on the pattern, the text and the place alone, and lies between the place and the end.
#[verifier::external_body]
pub(crate) fn find_regex(regex: &Regex, haystack: &[u8], at: usize) -> (result: Option<
    (usize, usize),
>)
    requires
        at <= haystack@.len(),
    ensures
        span_of(result) == regex_span(regex_model(*regex), haystack@, at as int),
        result matches Some((start, end)) ==> at <= start <= end <= haystack@.len(),
{
    regex.find(Input::new(haystack).range(at..haystack.len())).map(|x| (x.start(), x.end()))
}

/// The literals that an `AhoCorasick` looks for, first first.
pub uninterp spec fn automaton_literals(automaton: AhoCorasick) -> Seq<Seq<u8>>;

/// Whether an `AhoCorasick` passes over the case of ASCII letters.
pub uninterp spec fn automaton_folds(automaton: AhoCorasick) -> bool;

/// The message of the error where no `AhoCorasick` can be built for literals.
pub uninterp spec fn automaton_error(literals: Seq<Seq<u8>>, folds: bool) -> Option<Seq<char>>;

/// Calls `AhoCorasickBuilder::build` for leftmost-first matches. Whether that succeeds depends on the
/// literals and on the case option alone.
#[verifier::external_body]
pub(crate) fn build_automaton(literals: &[Vec<u8>], folds: bool) -> (result: Result<
    AhoCorasick,
    String,
>)
    ensures
        match result {
            Ok(automaton) => {
                &&& automaton_literals(automaton) == text::byte_strings(literals@)
                &&& automaton_folds(automaton) == folds
                &&& automaton_error(text::byte_strings(literals@), folds) is None
            },
            Err(message) => automaton_error(text::byte_strings(literals@), folds) == Some(
                message@,
            ),
        },
{
    let mut builder = AhoCorasickBuilder::new();
    builder.ascii_case_insensitive(folds);
    builder.match_kind(MatchKind::LeftmostFirst);
    builder.build(literals).map_err(|error| error.to_string())
}

/// Whether a literal stands in a text at a place, the case of ASCII letters aside where `folds`.
pub open spec fn literal_at(haystack: Seq<u8>, at: int, literal: Seq<u8>, folds: bool) -> bool {
    &&& 0 <= at
    &&& at + literal.len() <= haystack.len()
    &&& if folds {
        text::same_ignoring_case(haystack.subrange(at, at + literal.len()), literal)
    } else {
        haystack.subrange(at, at + literal.len()) == literal
    }
}

/// Whether one of literals stands in a text at a place.
pub open spec fn some_literal_at(
    haystack: Seq<u8>,
    at: int,
    literals: Seq<Seq<u8>>,
    folds: bool,
) -> bool {
    exists|i: int|
        0 <= i < literals.len() && literal_at(haystack, at, #[trigger] literals[i], folds)
}

/// Whether this is the first place at which one of literals stands, with the first of those that
/// stand there.
pub open spec fn leftmost_first(
    haystack: Seq<u8>,
    literals: Seq<Seq<u8>>,
    folds: bool,
    span: Option<(int, int)>,
) -> bool {
    match span {
        None => forall|at: int| !#[trigger] some_literal_at(haystack, at, literals, folds),
        Some((start, end)) => {
            &&& exists|i: int|
                {
                    &&& 0 <= i < literals.len()
                    &&& literal_at(haystack, start, #[trigger] literals[i], folds)
                    &&& end == start + literals[i].len()
                    &&& forall|j: int|
                        0 <= j < i ==> !literal_at(haystack, start, #[trigger] literals[j], folds)
                }
            &&& forall|at: int|
                at < start ==> !#[trigger] some_literal_at(haystack, at, literals, folds)
        },
    }
}

/// Calls `AhoCorasick::find`: the leftmost match, and of those at one place that of the literal that
/// comes first.
#[verifier::external_body]
pub(crate) fn find_automaton(automaton: &AhoCorasick, haystack: &[u8]) -> (result: Option<
    (usize, usize),
>)
    ensures
        leftmost_first(
            haystack@,
            automaton_literals(*automaton),
            automaton_folds(*automaton),
            span_of(result),
        ),
{
    automaton.find(haystack).map(|x| (x.start(), x.end()))
}

/// Whether this is the first place at which a literal stands.
pub open spec fn first_literal(haystack: Seq<u8>, literal: Seq<u8>, place: Option<usize>) -> bool {
    match place {
        None => forall|at: int| !#[trigger] literal_at(haystack, at, literal, false),
        Some(start) => {
            &&& literal_at(haystack, start as int, literal, false)
            &&& forall|at: int|
                at < start ==> !#[trigger] literal_at(haystack, at, literal, false)
        },
    }
}

/// Calls `memchr::memmem::find`, which gives the first place of a byte string.
#[verifier::external_body]
pub(crate) fn find_bytes(haystack: &[u8], literal: &[u8]) -> (result: Option<usize>)
    ensures
        first_literal(haystack@, literal@, result),
{
    memchr::memmem::find(haystack, literal)
}

/// Calls `memchr::memchr`, which gives the first place of a byte.
#[verifier::external_body]
pub(crate) fn find_byte(needle: u8, haystack: &[u8]) -> (result: Option<usize>)
    ensures
        match result {
            Some(index) => {
                &&& index < haystack@.len()
                &&& haystack@[index as int] == needle
                &&& forall|i: int| 0 <= i < index ==> haystack@[i] != needle
            },
            None => !haystack@.contains(needle),
        },
{
    memchr::memchr(needle, haystack)
}

/// How an `Ast` is written.
pub uninterp spec fn ast_tree(ast: Ast) -> AstTree;

/// How a `ClassSet` is written.
pub uninterp spec fn set_tree(set: ClassSet) -> SetTree;

/// How a `ClassSetItem` is written.
pub uninterp spec fn item_tree(item: ClassSetItem) -> ItemTree;

/// What the parser of `regex-syntax` makes of a pattern as it is written: a tree, or the message of
/// its error.
pub uninterp spec fn parsed_ast(pattern: Seq<char>, octal: bool) -> Result<AstTree, Seq<char>>;

/// Calls `ast::parse::Parser::parse`, with the defaults for all other options. The outcome depends on
/// the pattern and on the option for octal numbers alone.
#[verifier::external_body]
pub(crate) fn parse_ast(pattern: &str, octal: bool) -> (result: Result<Ast, String>)
    ensures
        match result {
            Ok(ast) => parsed_ast(pattern@, octal) == Ok::<AstTree, Seq<char>>(ast_tree(ast)),
            Err(message) => parsed_ast(pattern@, octal) == Err::<AstTree, Seq<char>>(message@),
        },
{
    ParserBuilder::new().octal(octal).build().parse(pattern).map_err(|error| error.to_string())
}

/// How `Ast`s are written.
pub open spec fn ast_trees(asts: Seq<Ast>) -> Seq<AstTree> {
    Seq::new(asts.len(), |i: int| ast_tree(asts[i]))
}

/// How `ClassSetItem`s are written.
pub open spec fn item_trees(items: Seq<ClassSetItem>) -> Seq<ItemTree> {
    Seq::new(items.len(), |i: int| item_tree(items[i]))
}

/// One level of an `Ast`.
pub enum AstNode<'a> {
    Literal(char),
    Bracketed(bool, &'a ClassSet),
    Inner(&'a Ast),
    Many(&'a [Ast]),
    Other,
}

impl<'a> AstNode<'a> {
    /// How the `Ast` is written of which this is the first level.
    pub open spec fn tree(self) -> AstTree {
        match self {
            AstNode::Literal(value) => AstTree::Literal(value),
            AstNode::Bracketed(negated, set) => AstTree::Bracketed {
                negated,
                set: Box::new(set_tree(*set)),
            },
            AstNode::Inner(sub) => AstTree::Inner(Box::new(ast_tree(*sub))),
            AstNode::Many(subs) => AstTree::Many(ast_trees(subs@)),
            AstNode::Other => AstTree::Other,
        }
    }
}

/// Takes an `Ast` apart: a literal by its character, brackets, what is repeated or grouped, and the
/// parts of an alternation or a concatenation. Nothing is read of any other kind.
#[verifier::external_body]
pub(crate) fn ast_node<'a>(ast: &'a Ast) -> (result: AstNode<'a>)
    ensures
        result.tree() == ast_tree(*ast),
{
    match ast {
        Ast::Literal(x) => AstNode::Literal(x.c),
        Ast::ClassBracketed(x) => AstNode::Bracketed(x.negated, &x.kind),
        Ast::Repetition(x) => AstNode::Inner(&x.ast),
        Ast::Group(x) => AstNode::Inner(&x.ast),
        Ast::Alternation(x) => AstNode::Many(&x.asts),
        Ast::Concat(x) => AstNode::Many(&x.asts),
        _ => AstNode::Other,
    }
}

/// One level of a `ClassSet`.
pub enum SetNode<'a> {
    Item(&'a ClassSetItem),
    Operation(&'a ClassSet, &'a ClassSet),
}

/// Takes a `ClassSet` apart: an item, or the two sides of an operation.
#[verifier::external_body]
pub(crate) fn set_node<'a>(set: &'a ClassSet) -> (result: SetNode<'a>)
    ensures
        set_tree(*set) == match result {
            SetNode::Item(item) => SetTree::Item(Box::new(item_tree(*item))),
            SetNode::Operation(left, right) => SetTree::Operation(
                Box::new(set_tree(*left)),
                Box::new(set_tree(*right)),
            ),
        },
{
    match set {
        ClassSet::Item(x) => SetNode::Item(x),
        ClassSet::BinaryOp(x) => SetNode::Operation(&x.lhs, &x.rhs),
    }
}

/// One level of a `ClassSetItem`.
pub enum ItemNode<'a> {
    Literal(char),
    Range(char, char),
    Bracketed(bool, &'a ClassSet),
    Union(&'a [ClassSetItem]),
    Other,
}

/// Takes a `ClassSetItem` apart: a literal, the ends of a range, brackets, or the items of a union.
/// Nothing is read of any other kind.
#[verifier::external_body]
pub(crate) fn item_node<'a>(item: &'a ClassSetItem) -> (result: ItemNode<'a>)
    ensures
        item_tree(*item) == match result {
            ItemNode::Literal(value) => ItemTree::Literal(value),
            ItemNode::Range(start, end) => ItemTree::Range(start, end),
            ItemNode::Bracketed(negated, set) => ItemTree::Bracketed {
                negated,
                set: Box::new(set_tree(*set)),
            },
            ItemNode::Union(items) => ItemTree::Union(item_trees(items@)),
            ItemNode::Other => ItemTree::Other,
        },
{
    match item {
        ClassSetItem::Literal(x) => ItemNode::Literal(x.c),
        ClassSetItem::Range(x) => ItemNode::Range(x.start.c, x.end.c),
        ClassSetItem::Bracketed(x) => ItemNode::Bracketed(x.negated, &x.kind),
        ClassSetItem::Union(x) => ItemNode::Union(&x.items),
        _ => ItemNode::Other,
    }
}

/// Whether a character is an upper-case letter to `char::is_uppercase`.
pub uninterp spec fn is_upper(value: char) -> bool;

/// Calls `char::is_uppercase`. It depends on the character alone; of the ASCII characters it holds of
/// `A` to `Z`.
#[verifier::external_body]
pub(crate) fn is_upper_case(value: char) -> (result: bool)
    ensures
        result == is_upper(value),
        value as u32 <= 0x7f ==> result == (0x41 <= value as u32 <= 0x5a),
{
    value.is_uppercase()
}

} // verus!
