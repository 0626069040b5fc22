//! The matcher of a search: what a pattern and its options are compiled to, and where a line matches.
//!
//! A pattern that stands for a few literals is looked for by these; any other is left to the general
//! engine.

use aho_corasick::AhoCorasick;
use regex_automata::meta::Regex;
use regex_syntax::hir::Hir;
use vstd::prelude::*;
use vstd::utf8::*;
use crate::ascii::{CARRIAGE_RETURN, LINE_FEED};
use crate::chars::to_chars;
use crate::engine;
use crate::engine::{
    build_automaton, compile_hir, concat_hir, escape_text, find_automaton, find_byte, find_bytes,
    find_regex, literal_hir, look_hir, parse_source, repetition_hir, RegexModel, SyntaxOptions,
};
use crate::literals;
use crate::literals::{literal_alternatives, literals_are_fast};
use crate::pattern;
use crate::pattern::{strip_line_feed, to_expr, to_hir, MatcherError};
use crate::platform::{folded_bytes_equal, Platform};
use crate::text;
use crate::text::{byte_strings_equal, copy_bytes};
use crate::tree::{Expr, Tree, END_OF_LINE, START_OF_LINE, WORD_END_HALF, WORD_START_HALF};
use crate::written;
use crate::written::{is_lower_case_only, pattern_explicitly_mentions_nul};

verus! {

/// How a pattern is taken.
#[derive(Clone, Copy, Debug, PartialEq, Eq, Structural)]
pub struct MatcherOptions {
    pub ignore_case: bool,
    pub smart_case: bool,
    pub fixed_strings: bool,
    pub word_regexp: bool,
    pub line_regexp: bool,
    /// Whether a pattern may ask for a NUL byte.
    pub text: bool,
}

impl Default for MatcherOptions {
    fn default() -> (result: Self)
        ensures
            result == (MatcherOptions {
                ignore_case: false,
                smart_case: false,
                fixed_strings: false,
                word_regexp: false,
                line_regexp: false,
                text: false,
            }),
    {
        MatcherOptions {
            ignore_case: false,
            smart_case: false,
            fixed_strings: false,
            word_regexp: false,
            line_regexp: false,
            text: false,
        }
    }
}

/// Where a match starts and ends.
#[derive(Clone, Copy, Debug, PartialEq, Eq, Structural)]
pub struct MatchRange {
    pub start: usize,
    pub end: usize,
}

/// A range as a pair of positions.
pub open spec fn range_span(range: Option<MatchRange>) -> Option<(int, int)> {
    match range {
        Some(found) => Some((found.start as int, found.end as int)),
        None => None,
    }
}

/// How the pattern of a search is read: line by line, and over bytes that need not be UTF-8.
pub open spec fn line_syntax(case_insensitive: bool) -> SyntaxOptions {
    SyntaxOptions {
        case_insensitive,
        multi_line: true,
        unicode: true,
        utf8: false,
        octal: false,
        dot_matches_new_line: false,
        line_terminator: LINE_FEED,
    }
}

/// How the pattern of a search is read.
fn syntax_config(case_insensitive: bool) -> (result: SyntaxOptions)
    ensures
        result == line_syntax(case_insensitive),
{
    SyntaxOptions {
        case_insensitive,
        multi_line: true,
        unicode: true,
        utf8: false,
        octal: false,
        dot_matches_new_line: false,
        line_terminator: LINE_FEED,
    }
}

/// What a pattern says, or the message of the error in it. A fixed string says its bytes.
pub open spec fn pattern_tree(pattern: Seq<char>, fixed: bool, case_insensitive: bool) -> Result<
    Tree,
    Seq<char>,
> {
    if fixed && !case_insensitive {
        Ok(engine::literal_tree(encode_utf8(pattern)))
    } else if fixed {
        engine::parsed_tree(engine::escaped(pattern), line_syntax(case_insensitive))
    } else {
        engine::parsed_tree(pattern, line_syntax(case_insensitive))
    }
}

/// Reads a pattern.
pub fn parse_pattern(pattern: &str, fixed_strings: bool, case_insensitive: bool) -> (result: Result<
    Expr,
    MatcherError,
>)
    ensures
        match result {
            Ok(expr) => {
                &&& pattern_tree(pattern@, fixed_strings, case_insensitive) == Ok::<
                    Tree,
                    Seq<char>,
                >(expr.tree())
                &&& expr.wf()
            },
            Err(error) => pattern_tree(pattern@, fixed_strings, case_insensitive) == Err::<
                Tree,
                Seq<char>,
            >(error.message@),
        },
{
    if fixed_strings && !case_insensitive {
        let hir: Hir = literal_hir(pattern.as_bytes());
        return Ok(to_expr(&hir));
    }
    let parsed: Result<Hir, String> = if fixed_strings {
        let source: String = escape_text(pattern);
        parse_source(source.as_str(), syntax_config(case_insensitive))
    } else {
        parse_source(pattern, syntax_config(case_insensitive))
    };
    match parsed {
        Ok(hir) => Ok(to_expr(&hir)),
        Err(message) => Err(MatcherError::new(message)),
    }
}

/// What a pattern says without its line feeds, or the message of the error in it.
pub open spec fn prepared_tree(pattern: Seq<char>, fixed: bool, case_insensitive: bool) -> Result<
    Tree,
    Seq<char>,
> {
    match pattern_tree(pattern, fixed, case_insensitive) {
        Ok(tree) => match pattern::without_feeds(tree) {
            Some(stripped) => Ok(pattern::rebuilt(stripped)),
            None => Err(pattern::line_feed_message()),
        },
        Err(message) => Err(message),
    }
}

/// Reads a pattern and takes its line feeds out.
fn prepare_hir(pattern: &str, fixed_strings: bool, case_insensitive: bool) -> (result: Result<
    Hir,
    MatcherError,
>)
    ensures
        match result {
            Ok(hir) => prepared_tree(pattern@, fixed_strings, case_insensitive) == Ok::<
                Tree,
                Seq<char>,
            >(engine::hir_tree(hir)),
            Err(error) => prepared_tree(pattern@, fixed_strings, case_insensitive) == Err::<
                Tree,
                Seq<char>,
            >(error.message@),
        },
{
    match parse_pattern(pattern, fixed_strings, case_insensitive) {
        Ok(expr) => match strip_line_feed(&expr) {
            Ok(stripped) => Ok(to_hir(&stripped)),
            Err(error) => Err(error),
        },
        Err(error) => Err(error),
    }
}

/// A pattern that must match whole lines, or whole words, where that is asked for.
pub open spec fn bounded_tree(tree: Tree, options: MatcherOptions) -> Tree {
    if options.line_regexp {
        engine::concat_tree(
            seq![
                Tree::Look(START_OF_LINE),
                tree,
                engine::repeated_tree(0, Some(1), true, Tree::Literal(seq![CARRIAGE_RETURN])),
                Tree::Look(END_OF_LINE),
            ],
        )
    } else if options.word_regexp {
        engine::concat_tree(
            seq![Tree::Look(WORD_START_HALF), tree, Tree::Look(WORD_END_HALF)],
        )
    } else {
        tree
    }
}

/// Makes a pattern match whole lines, or whole words, where that is asked for. A carriage return may
/// stand at the end of a line.
fn apply_boundaries(hir: Hir, options: MatcherOptions) -> (result: Hir)
    ensures
        engine::hir_tree(result) == bounded_tree(engine::hir_tree(hir), options),
{
    let ghost inner = engine::hir_tree(hir);
    if options.line_regexp {
        let mut parts: Vec<Hir> = Vec::new();
        parts.push(look_hir(START_OF_LINE));
        parts.push(hir);
        parts.push(optional_carriage_return());
        parts.push(look_hir(END_OF_LINE));
        assert(engine::hir_trees(parts@) =~= seq![
            Tree::Look(START_OF_LINE),
            inner,
            engine::repeated_tree(0, Some(1), true, Tree::Literal(seq![CARRIAGE_RETURN])),
            Tree::Look(END_OF_LINE),
        ]);
        return concat_hir(parts);
    }
    if options.word_regexp {
        let mut parts: Vec<Hir> = Vec::new();
        parts.push(look_hir(WORD_START_HALF));
        parts.push(hir);
        parts.push(look_hir(WORD_END_HALF));
        assert(engine::hir_trees(parts@) =~= seq![
            Tree::Look(WORD_START_HALF),
            inner,
            Tree::Look(WORD_END_HALF),
        ]);
        return concat_hir(parts);
    }
    hir
}

/// A pattern for a carriage return that may be missing.
fn optional_carriage_return() -> (result: Hir)
    ensures
        engine::hir_tree(result) == engine::repeated_tree(
            0,
            Some(1),
            true,
            Tree::Literal(seq![CARRIAGE_RETURN]),
        ),
{
    let bytes: [u8; 1] = [CARRIAGE_RETURN];
    assert(bytes@ =~= seq![CARRIAGE_RETURN]);
    repetition_hir(0, Some(1), true, literal_hir(bytes.as_slice()))
}

/// What the general engine makes of a pattern, or the message of its error.
pub open spec fn compiled(tree: Tree) -> Result<RegexModel, Seq<char>> {
    let model = RegexModel { tree, utf8_empty: false, line_terminator: LINE_FEED };
    match engine::regex_error(model, usize::BITS) {
        Some(message) => Err(message),
        None => Ok(model),
    }
}

/// Hands a pattern to the general engine.
fn build_regex(hir: &Hir) -> (result: Result<Regex, MatcherError>)
    ensures
        match result {
            Ok(regex) => compiled(engine::hir_tree(*hir)) == Ok::<RegexModel, Seq<char>>(
                engine::regex_model(regex),
            ),
            Err(error) => compiled(engine::hir_tree(*hir)) == Err::<RegexModel, Seq<char>>(
                error.message@,
            ),
        },
{
    match compile_hir(hir, false, LINE_FEED) {
        Ok(regex) => Ok(regex),
        Err(message) => Err(MatcherError::new(message)),
    }
}

/// What the general engine makes of a prepared and bounded pattern, or the message of the error.
pub open spec fn regex_for(pattern: Seq<char>, case_insensitive: bool, options: MatcherOptions) -> Result<
    RegexModel,
    Seq<char>,
> {
    match prepared_tree(pattern, options.fixed_strings, case_insensitive) {
        Ok(tree) => compiled(bounded_tree(tree, options)),
        Err(message) => Err(message),
    }
}

/// Hands a pattern with its boundaries to the general engine.
fn regex_of(pattern: &str, case_insensitive: bool, options: MatcherOptions) -> (result: Result<
    Regex,
    MatcherError,
>)
    ensures
        match result {
            Ok(regex) => regex_for(pattern@, case_insensitive, options) == Ok::<
                RegexModel,
                Seq<char>,
            >(engine::regex_model(regex)),
            Err(error) => regex_for(pattern@, case_insensitive, options) == Err::<
                RegexModel,
                Seq<char>,
            >(error.message@),
        },
{
    match prepare_hir(pattern, options.fixed_strings, case_insensitive) {
        Ok(hir) => {
            let bounded: Hir = apply_boundaries(hir, options);
            build_regex(&bounded)
        },
        Err(error) => Err(error),
    }
}

/// How the pattern of a word character is read.
pub open spec fn plain_syntax() -> SyntaxOptions {
    SyntaxOptions {
        case_insensitive: false,
        multi_line: false,
        unicode: true,
        utf8: true,
        octal: false,
        dot_matches_new_line: false,
        line_terminator: LINE_FEED,
    }
}

/// What matches a word character, or the message of the error.
pub open spec fn word_model() -> Result<RegexModel, Seq<char>> {
    match engine::parsed_tree("\\w"@, plain_syntax()) {
        Ok(tree) => {
            let model = RegexModel { tree, utf8_empty: true, line_terminator: LINE_FEED };
            match engine::regex_error(model, usize::BITS) {
                Some(message) => Err(message),
                None => Ok(model),
            }
        },
        Err(message) => Err(message),
    }
}

/// Builds what matches a word character.
fn unicode_word_regex() -> (result: Result<Regex, MatcherError>)
    ensures
        match result {
            Ok(regex) => word_model() == Ok::<RegexModel, Seq<char>>(engine::regex_model(regex)),
            Err(error) => word_model() == Err::<RegexModel, Seq<char>>(error.message@),
        },
{
    let options = SyntaxOptions {
        case_insensitive: false,
        multi_line: false,
        unicode: true,
        utf8: true,
        octal: false,
        dot_matches_new_line: false,
        line_terminator: LINE_FEED,
    };
    match parse_source("\\w", options) {
        Ok(hir) => match compile_hir(&hir, true, LINE_FEED) {
            Ok(regex) => Ok(regex),
            Err(message) => Err(MatcherError::new(message)),
        },
        Err(message) => Err(MatcherError::new(message)),
    }
}

/// How many bytes a character has that starts with a byte; one where no character does.
pub open spec fn width_of(first: u8) -> int {
    if 0xc2 <= first <= 0xdf {
        2
    } else if 0xe0 <= first <= 0xef {
        3
    } else if 0xf0 <= first <= 0xf4 {
        4
    } else {
        1
    }
}

/// How many bytes a character has that starts with a byte.
pub fn utf8_width(first: u8) -> (result: usize)
    ensures
        result == width_of(first),
{
    if 0xc2 <= first && first <= 0xdf {
        2
    } else if 0xe0 <= first && first <= 0xef {
        3
    } else if 0xf0 <= first && first <= 0xf4 {
        4
    } else {
        1
    }
}

/// Whether bytes start with a word character: an ASCII one by itself, any other as the engine says.
pub open spec fn is_word(bytes: Seq<u8>, word: RegexModel) -> bool {
    if bytes.len() > 0 && bytes[0] < 0x80 {
        0x30 <= bytes[0] <= 0x39 || 0x41 <= bytes[0] <= 0x5a || 0x61 <= bytes[0] <= 0x7a || bytes[0]
            == 0x5f
    } else {
        engine::regex_span(word, bytes, 0) is Some
    }
}

/// Whether bytes start with a word character.
pub fn is_word_character(bytes: &[u8], word: &Regex) -> (result: bool)
    ensures
        result == is_word(bytes@, engine::regex_model(*word)),
{
    if bytes.len() > 0 {
        let byte: u8 = bytes[0];
        if byte < 0x80 {
            return (0x30 <= byte && byte <= 0x39) || (0x41 <= byte && byte <= 0x5a) || (0x61 <= byte
                && byte <= 0x7a) || byte == 0x5f;
        }
    }
    find_regex(word, bytes, 0).is_some()
}

/// Where the character starts that ends before a place: at the first byte, from `start` backwards,
/// that continues none, but not before `minimum`.
pub open spec fn character_start(haystack: Seq<u8>, minimum: int, start: int) -> int
    decreases start - minimum,
{
    if start > minimum && 0x80 <= haystack[start] < 0xc0 {
        character_start(haystack, minimum, start - 1)
    } else {
        start
    }
}

/// Whether a word character ends at a place.
pub open spec fn word_before(haystack: Seq<u8>, at: int, word: RegexModel) -> bool {
    if at == 0 {
        false
    } else {
        let minimum = if at >= 4 {
            at - 4
        } else {
            0
        };
        is_word(haystack.subrange(character_start(haystack, minimum, at - 1), at), word)
    }
}

/// Whether a word character ends at a place.
pub fn is_word_before(haystack: &[u8], at: usize, word: &Regex) -> (result: bool)
    requires
        at <= haystack@.len(),
    ensures
        result == word_before(haystack@, at as int, engine::regex_model(*word)),
{
    if at == 0 {
        return false;
    }
    let minimum: usize = if at >= 4 {
        at - 4
    } else {
        0
    };
    let mut start: usize = at - 1;
    while start > minimum && 0x80 <= haystack[start] && haystack[start] < 0xc0
        invariant
            minimum <= start < at <= haystack@.len(),
            character_start(haystack@, minimum as int, at - 1) == character_start(
                haystack@,
                minimum as int,
                start as int,
            ),
        decreases start,
    {
        start -= 1;
    }
    is_word_character(&haystack[start..at], word)
}

/// Whether a word character starts at a place.
pub open spec fn word_after(haystack: Seq<u8>, at: int, word: RegexModel) -> bool {
    if at >= haystack.len() || at + width_of(haystack[at]) > haystack.len() {
        false
    } else {
        is_word(haystack.subrange(at, at + width_of(haystack[at])), word)
    }
}

/// Whether a word character starts at a place.
pub fn is_word_after(haystack: &[u8], at: usize, word: &Regex) -> (result: bool)
    ensures
        result == word_after(haystack@, at as int, engine::regex_model(*word)),
{
    let total: usize = haystack.len();
    if at >= total {
        return false;
    }
    let width: usize = utf8_width(haystack[at]);
    if width > total - at {
        return false;
    }
    is_word_character(&haystack[at..at + width], word)
}

/// Whether a match is cut off from word characters on both sides.
pub open spec fn stands_alone(haystack: Seq<u8>, start: int, end: int, word: RegexModel) -> bool {
    !word_before(haystack, start, word) && !word_after(haystack, end, word)
}

/// Whether a match is cut off from word characters on both sides.
pub fn has_word_half_boundaries(haystack: &[u8], range: MatchRange, word: &Regex) -> (result: bool)
    requires
        range.start <= haystack@.len(),
    ensures
        result == stands_alone(
            haystack@,
            range.start as int,
            range.end as int,
            engine::regex_model(*word),
        ),
{
    !is_word_before(haystack, range.start, word) && !is_word_after(haystack, range.end, word)
}

/// Whether a literal is taken at a place: it stands there before `end`, and is cut off from word
/// characters where that is asked for.
pub open spec fn is_taken(
    haystack: Seq<u8>,
    at: int,
    end: int,
    literal: Seq<u8>,
    folds: bool,
    word: Option<RegexModel>,
) -> bool {
    &&& engine::literal_at(haystack.subrange(0, end), at, literal, folds)
    &&& word matches Some(model) ==> stands_alone(haystack, at, at + literal.len(), model)
}

/// The first of literals, from one on, that is taken at a place.
pub open spec fn taken_index(
    haystack: Seq<u8>,
    at: int,
    end: int,
    literals: Seq<Seq<u8>>,
    folds: bool,
    word: Option<RegexModel>,
    from: int,
) -> Option<int>
    decreases literals.len() - from,
{
    if from < 0 || from >= literals.len() {
        None
    } else if is_taken(haystack, at, end, literals[from], folds, word) {
        Some(from)
    } else {
        taken_index(haystack, at, end, literals, folds, word, from + 1)
    }
}

/// Where the first literal ends that is taken at a place.
pub open spec fn taken_at(
    haystack: Seq<u8>,
    at: int,
    end: int,
    literals: Seq<Seq<u8>>,
    folds: bool,
    word: Option<RegexModel>,
) -> Option<int> {
    match taken_index(haystack, at, end, literals, folds, word, 0) {
        Some(i) => Some(at + literals[i].len()),
        None => None,
    }
}

/// The first place between `at` and `end` at which a literal is taken.
pub open spec fn first_taken(
    haystack: Seq<u8>,
    at: int,
    end: int,
    literals: Seq<Seq<u8>>,
    folds: bool,
    word: Option<RegexModel>,
) -> Option<(int, int)>
    decreases end - at,
{
    if at >= end {
        None
    } else {
        match taken_at(haystack, at, end, literals, folds, word) {
            Some(stop) => Some((at, stop)),
            None => first_taken(haystack, at + 1, end, literals, folds, word),
        }
    }
}

/// What matches a word character, where it is there.
pub open spec fn optional_model(regex: Option<Regex>) -> Option<RegexModel> {
    match regex {
        Some(regex) => Some(engine::regex_model(regex)),
        None => None,
    }
}

proof fn lemma_none_taken(
    haystack: Seq<u8>,
    at: int,
    end: int,
    literals: Seq<Seq<u8>>,
    folds: bool,
    word: Option<RegexModel>,
    from: int,
)
    requires
        0 <= from <= literals.len(),
        forall|i: int|
            from <= i < literals.len() ==> !is_taken(
                haystack,
                at,
                end,
                #[trigger] literals[i],
                folds,
                word,
            ),
    ensures
        taken_index(haystack, at, end, literals, folds, word, from) is None,
    decreases literals.len() - from,
{
    if from < literals.len() {
        lemma_none_taken(haystack, at, end, literals, folds, word, from + 1);
    }
}

proof fn lemma_one_taken(
    haystack: Seq<u8>,
    at: int,
    end: int,
    literals: Seq<Seq<u8>>,
    folds: bool,
    word: Option<RegexModel>,
    from: int,
    index: int,
)
    requires
        0 <= from <= index < literals.len(),
        is_taken(haystack, at, end, literals[index], folds, word),
        forall|i: int|
            from <= i < index ==> !is_taken(
                haystack,
                at,
                end,
                #[trigger] literals[i],
                folds,
                word,
            ),
    ensures
        taken_index(haystack, at, end, literals, folds, word, from) == Some(index),
    decreases index - from,
{
    if from < index {
        lemma_one_taken(haystack, at, end, literals, folds, word, from + 1, index);
    }
}

proof fn lemma_same_place(
    haystack: Seq<u8>,
    cursor: int,
    end: int,
    offset: int,
    literal: Seq<u8>,
    folds: bool,
)
    requires
        0 <= cursor <= end <= haystack.len(),
        0 <= offset,
    ensures
        engine::literal_at(haystack.subrange(cursor, end), offset, literal, folds)
            == engine::literal_at(haystack.subrange(0, end), cursor + offset, literal, folds),
{
    if cursor + offset + literal.len() <= end {
        assert(haystack.subrange(cursor, end).subrange(offset, offset + literal.len())
            =~= haystack.subrange(0, end).subrange(
            cursor + offset,
            cursor + offset + literal.len(),
        ));
    }
}

proof fn lemma_skip(
    haystack: Seq<u8>,
    at: int,
    to: int,
    end: int,
    literals: Seq<Seq<u8>>,
    folds: bool,
    word: Option<RegexModel>,
)
    requires
        at <= to <= end,
        forall|place: int|
            at <= place < to ==> (#[trigger] taken_at(
                haystack,
                place,
                end,
                literals,
                folds,
                word,
            )) is None,
    ensures
        first_taken(haystack, at, end, literals, folds, word) == first_taken(
            haystack,
            to,
            end,
            literals,
            folds,
            word,
        ),
    decreases to - at,
{
    if at < to {
        assert(taken_at(haystack, at, end, literals, folds, word) is None);
        lemma_skip(haystack, at + 1, to, end, literals, folds, word);
    }
}

/// The first place at which one literal is taken.
pub fn find_single_literal(
    haystack: &[u8],
    at: usize,
    end: usize,
    needle: &[u8],
    word: &Option<Regex>,
) -> (result: Option<MatchRange>)
    requires
        end <= haystack@.len(),
    ensures
        range_span(result) == first_taken(
            haystack@,
            at as int,
            end as int,
            seq![needle@],
            false,
            optional_model(*word),
        ),
        result matches Some(range) ==> at <= range.start <= range.end <= end,
{
    let ghost literals = seq![needle@];
    let ghost model = optional_model(*word);
    let total: usize = haystack.len();
    let mut cursor: usize = at;
    while cursor < end
        invariant
            at <= cursor,
            end <= total,
            total == haystack@.len(),
            literals == seq![needle@],
            model == optional_model(*word),
            first_taken(haystack@, at as int, end as int, literals, false, model) == first_taken(
                haystack@,
                cursor as int,
                end as int,
                literals,
                false,
                model,
            ),
        decreases end - cursor,
    {
        let rest: &[u8] = &haystack[cursor..end];
        let ghost part = haystack@.subrange(cursor as int, end as int);
        match find_bytes(rest, needle) {
            None => {
                proof {
                    assert forall|place: int| cursor <= place < end implies (#[trigger] taken_at(
                        haystack@,
                        place,
                        end as int,
                        literals,
                        false,
                        model,
                    )) is None by {
                        let offset = place - cursor;
                        assert(!engine::literal_at(part, offset, needle@, false));
                        lemma_same_place(
                            haystack@,
                            cursor as int,
                            end as int,
                            offset,
                            needle@,
                            false,
                        );
                        lemma_none_taken(haystack@, place, end as int, literals, false, model, 0);
                    }
                    lemma_skip(
                        haystack@,
                        cursor as int,
                        end as int,
                        end as int,
                        literals,
                        false,
                        model,
                    );
                }
                return None;
            },
            Some(relative) => {
                proof {
                    assert(relative + needle@.len() <= part.len());
                    if needle@.len() == 0 {
                        assert(part.subrange(0, 0) =~= needle@);
                        assert(engine::literal_at(part, 0, needle@, false));
                    }
                    assert(relative < part.len());
                }
                let start: usize = cursor + relative;
                let range = MatchRange { start, end: start + needle.len() };
                proof {
                    assert forall|place: int| cursor <= place < start implies (#[trigger] taken_at(
                        haystack@,
                        place,
                        end as int,
                        literals,
                        false,
                        model,
                    )) is None by {
                        let offset = place - cursor;
                        assert(!engine::literal_at(part, offset, needle@, false));
                        lemma_same_place(
                            haystack@,
                            cursor as int,
                            end as int,
                            offset,
                            needle@,
                            false,
                        );
                        lemma_none_taken(haystack@, place, end as int, literals, false, model, 0);
                    }
                    lemma_same_place(
                        haystack@,
                        cursor as int,
                        end as int,
                        relative as int,
                        needle@,
                        false,
                    );
                    assert(literals[0] == needle@);
                }
                proof {
                    lemma_skip(
                        haystack@,
                        cursor as int,
                        start as int,
                        end as int,
                        literals,
                        false,
                        model,
                    );
                }
                let alone: bool = match word {
                    Some(regex) => has_word_half_boundaries(haystack, range, regex),
                    None => true,
                };
                if alone {
                    proof {
                        lemma_one_taken(
                            haystack@,
                            start as int,
                            end as int,
                            literals,
                            false,
                            model,
                            0,
                            0,
                        );
                    }
                    return Some(range);
                }
                proof {
                    lemma_none_taken(
                        haystack@,
                        start as int,
                        end as int,
                        literals,
                        false,
                        model,
                        0,
                    );
                }
                cursor = start + 1;
            },
        }
    }
    None
}

/// Literals that are looked for together.
pub struct LiteralSet {
    pub automaton: AhoCorasick,
    pub literals: Vec<Vec<u8>>,
    pub folds: bool,
}

impl LiteralSet {
    pub open spec fn wf(self) -> bool {
        &&& engine::automaton_literals(self.automaton) == text::byte_strings(self.literals@)
        &&& engine::automaton_folds(self.automaton) == self.folds
    }

    /// Gets literals ready to be looked for, the case of ASCII letters aside where `folds`.
    pub fn new(literals: Vec<Vec<u8>>, folds: bool) -> (result: Result<Self, MatcherError>)
        ensures
            match result {
                Ok(set) => {
                    &&& set.wf()
                    &&& text::byte_strings(set.literals@) == text::byte_strings(literals@)
                    &&& set.folds == folds
                    &&& engine::automaton_error(text::byte_strings(literals@), folds) is None
                },
                Err(error) => engine::automaton_error(text::byte_strings(literals@), folds) == Some(
                    error.message@,
                ),
            },
    {
        match build_automaton(literals.as_slice(), folds) {
            Ok(automaton) => Ok(LiteralSet { automaton, literals, folds }),
            Err(message) => Err(MatcherError::new(message)),
        }
    }
}

/// Whether a literal stands at a place before `end`.
fn stands_at(haystack: &[u8], at: usize, end: usize, literal: &[u8], folds: bool) -> (result: bool)
    requires
        at <= end <= haystack@.len(),
    ensures
        result == engine::literal_at(
            haystack@.subrange(0, end as int),
            at as int,
            literal@,
            folds,
        ),
{
    if literal.len() > end - at {
        return false;
    }
    let part: &[u8] = &haystack[at..at + literal.len()];
    assert(part@ =~= haystack@.subrange(0, end as int).subrange(at as int, at + literal@.len()));
    if folds {
        folded_bytes_equal(part, literal, Platform::Windows)
    } else {
        byte_strings_equal(part, literal)
    }
}

/// Where the first literal ends that is taken at a place as a whole word.
fn whole_word_at(
    haystack: &[u8],
    at: usize,
    end: usize,
    literals: &[Vec<u8>],
    folds: bool,
    word: &Regex,
) -> (result: Option<usize>)
    requires
        at <= end <= haystack@.len(),
    ensures
        taken_at(
            haystack@,
            at as int,
            end as int,
            text::byte_strings(literals@),
            folds,
            Some(engine::regex_model(*word)),
        ) == match result {
            Some(stop) => Some(stop as int),
            None => None,
        },
        result matches Some(stop) ==> at <= stop <= end,
{
    let ghost list = text::byte_strings(literals@);
    let ghost model = Some(engine::regex_model(*word));
    let mut index: usize = 0;
    while index < literals.len()
        invariant
            index <= literals.len(),
            at <= end <= haystack@.len(),
            list == text::byte_strings(literals@),
            model == Some(engine::regex_model(*word)),
            forall|i: int|
                0 <= i < index ==> !is_taken(
                    haystack@,
                    at as int,
                    end as int,
                    #[trigger] list[i],
                    folds,
                    model,
                ),
        decreases literals.len() - index,
    {
        let literal: &[u8] = literals[index].as_slice();
        assert(literal@ == list[index as int]);
        if stands_at(haystack, at, end, literal, folds) {
            let stop: usize = at + literal.len();
            if has_word_half_boundaries(haystack, MatchRange { start: at, end: stop }, word) {
                proof {
                    lemma_one_taken(
                        haystack@,
                        at as int,
                        end as int,
                        list,
                        folds,
                        model,
                        0,
                        index as int,
                    );
                }
                return Some(stop);
            }
        }
        index += 1;
    }
    proof {
        lemma_none_taken(haystack@, at as int, end as int, list, folds, model, 0);
    }
    None
}

/// The first place at which one of literals is taken, with the first of those that are taken there. Where
/// none of those that stand at a place is a whole word, the search goes on one byte later.
pub fn find_literal_set(
    haystack: &[u8],
    at: usize,
    end: usize,
    set: &LiteralSet,
    word: &Option<Regex>,
) -> (result: Option<MatchRange>)
    requires
        end <= haystack@.len(),
        set.wf(),
    ensures
        range_span(result) == first_taken(
            haystack@,
            at as int,
            end as int,
            text::byte_strings(set.literals@),
            set.folds,
            optional_model(*word),
        ),
        result matches Some(range) ==> at <= range.start <= range.end <= end,
{
    let ghost literals = text::byte_strings(set.literals@);
    let ghost folds = set.folds;
    let ghost model = optional_model(*word);
    let total: usize = haystack.len();
    let mut cursor: usize = at;
    while cursor < end
        invariant
            at <= cursor,
            end <= total,
            total == haystack@.len(),
            set.wf(),
            literals == text::byte_strings(set.literals@),
            folds == set.folds,
            model == optional_model(*word),
            first_taken(haystack@, at as int, end as int, literals, folds, model) == first_taken(
                haystack@,
                cursor as int,
                end as int,
                literals,
                folds,
                model,
            ),
        decreases end - cursor,
    {
        let rest: &[u8] = &haystack[cursor..end];
        let ghost part = haystack@.subrange(cursor as int, end as int);
        match find_automaton(&set.automaton, rest) {
            None => {
                proof {
                    lemma_nothing_before(
                        haystack@,
                        cursor as int,
                        end as int,
                        end as int,
                        literals,
                        folds,
                        model,
                    );
                    lemma_skip(
                        haystack@,
                        cursor as int,
                        end as int,
                        end as int,
                        literals,
                        folds,
                        model,
                    );
                }
                return None;
            },
            Some((first, last)) => {
                let ghost index = choose|i: int|
                    {
                        &&& 0 <= i < literals.len()
                        &&& engine::literal_at(part, first as int, #[trigger] literals[i], folds)
                        &&& last == first + literals[i].len()
                        &&& forall|j: int|
                            0 <= j < i ==> !engine::literal_at(
                                part,
                                first as int,
                                #[trigger] literals[j],
                                folds,
                            )
                    };
                proof {
                    assert(last <= part.len());
                    if literals[index].len() == 0 {
                        assert(part.subrange(0, 0) =~= literals[index]);
                        assert(engine::literal_at(part, 0, literals[index], folds));
                        assert(engine::some_literal_at(part, 0, literals, folds));
                    }
                    assert(first < part.len());
                }
                let start: usize = cursor + first;
                proof {
                    lemma_nothing_before(
                        haystack@,
                        cursor as int,
                        start as int,
                        end as int,
                        literals,
                        folds,
                        model,
                    );
                    lemma_skip(
                        haystack@,
                        cursor as int,
                        start as int,
                        end as int,
                        literals,
                        folds,
                        model,
                    );
                }
                match word {
                    None => {
                        proof {
                            lemma_first_stands(
                                haystack@,
                                cursor as int,
                                first as int,
                                end as int,
                                literals,
                                folds,
                                index,
                            );
                        }
                        return Some(MatchRange { start, end: cursor + last });
                    },
                    Some(regex) => {
                        match whole_word_at(
                            haystack,
                            start,
                            end,
                            set.literals.as_slice(),
                            set.folds,
                            regex,
                        ) {
                            Some(stop) => {
                                return Some(MatchRange { start, end: stop });
                            },
                            None => {},
                        }
                        cursor = start + 1;
                    },
                }
            },
        }
    }
    None
}

/// The first of literals that stands at a place is taken there where words do not matter.
proof fn lemma_first_stands(
    haystack: Seq<u8>,
    cursor: int,
    first: int,
    end: int,
    literals: Seq<Seq<u8>>,
    folds: bool,
    index: int,
)
    requires
        0 <= cursor <= end <= haystack.len(),
        0 <= first,
        0 <= index < literals.len(),
        engine::literal_at(haystack.subrange(cursor, end), first, literals[index], folds),
        forall|j: int|
            0 <= j < index ==> !engine::literal_at(
                haystack.subrange(cursor, end),
                first,
                #[trigger] literals[j],
                folds,
            ),
    ensures
        taken_index(haystack, cursor + first, end, literals, folds, None, 0) == Some(index),
{
    lemma_same_place(haystack, cursor, end, first, literals[index], folds);
    assert forall|j: int| 0 <= j < index implies !is_taken(
        haystack,
        cursor + first,
        end,
        #[trigger] literals[j],
        folds,
        None,
    ) by {
        lemma_same_place(haystack, cursor, end, first, literals[j], folds);
    }
    lemma_one_taken(haystack, cursor + first, end, literals, folds, None, 0, index);
}

proof fn lemma_nothing_before(
    haystack: Seq<u8>,
    cursor: int,
    start: int,
    end: int,
    literals: Seq<Seq<u8>>,
    folds: bool,
    word: Option<RegexModel>,
)
    requires
        0 <= cursor <= start <= end <= haystack.len(),
        forall|at: int|
            at < start - cursor ==> !#[trigger] engine::some_literal_at(
                haystack.subrange(cursor, end),
                at,
                literals,
                folds,
            ),
    ensures
        forall|place: int|
            cursor <= place < start ==> (#[trigger] taken_at(
                haystack,
                place,
                end,
                literals,
                folds,
                word,
            )) is None,
{
    let part = haystack.subrange(cursor, end);
    assert forall|place: int| cursor <= place < start implies (#[trigger] taken_at(
        haystack,
        place,
        end,
        literals,
        folds,
        word,
    )) is None by {
        let offset = place - cursor;
        assert(!engine::some_literal_at(part, offset, literals, folds));
        assert forall|i: int| 0 <= i < literals.len() implies !is_taken(
            haystack,
            place,
            end,
            #[trigger] literals[i],
            folds,
            word,
        ) by {
            lemma_same_place(haystack, cursor, end, offset, literals[i], folds);
            assert(!engine::literal_at(part, offset, literals[i], folds));
        }
        lemma_none_taken(haystack, place, end, literals, folds, word, 0);
    }
}

/// The literals of a fast search.
pub enum LiteralEngine {
    Single(Vec<u8>),
    Multiple(LiteralSet),
}

impl LiteralEngine {
    pub open spec fn wf(self) -> bool {
        self matches LiteralEngine::Multiple(set) ==> set.wf()
    }

    /// The literals, first first.
    pub open spec fn literals(self) -> Seq<Seq<u8>> {
        match self {
            LiteralEngine::Single(needle) => seq![needle@],
            LiteralEngine::Multiple(set) => text::byte_strings(set.literals@),
        }
    }

    /// Whether the case of ASCII letters is passed over.
    pub open spec fn folds(self) -> bool {
        match self {
            LiteralEngine::Single(_) => false,
            LiteralEngine::Multiple(set) => set.folds,
        }
    }
}

/// A search for literals.
pub struct FastLiteralMatcher {
    pub engine: LiteralEngine,
    /// Whether the case of letters is passed over. That of ASCII letters says all of a text of ASCII
    /// characters; where there are others, the general engine is asked as well.
    pub ascii_case_insensitive: bool,
    /// What matches a word character, where only whole words count.
    pub word: Option<Regex>,
    pub text: bool,
    pub fallback: Option<Regex>,
}

/// A search by the general engine.
pub struct RegexMatcher {
    pub regex: Regex,
    pub text: bool,
}

/// A compiled pattern.
pub enum NativeMatcher {
    Literal(FastLiteralMatcher),
    Regex(RegexMatcher),
}

/// What a compiled pattern looks for.
pub enum MatcherModel {
    Literal {
        literals: Seq<Seq<u8>>,
        folds: bool,
        word: Option<RegexModel>,
        text: bool,
        fallback: Option<RegexModel>,
    },
    Regex { model: RegexModel, text: bool },
}

/// Where the characters stop, from a place on, that are all ASCII.
pub open spec fn ascii_end(haystack: Seq<u8>, at: int) -> int
    decreases haystack.len() - at,
{
    if 0 <= at < haystack.len() && haystack[at] < 0x80 {
        ascii_end(haystack, at + 1)
    } else {
        at
    }
}

/// The one of two matches that starts first; where both start at one place, the second.
pub open spec fn earlier(first: Option<(int, int)>, second: Option<(int, int)>) -> Option<
    (int, int),
> {
    match (first, second) {
        (Some(one), Some(other)) => if one.0 < other.0 {
            first
        } else {
            second
        },
        (Some(_), None) => first,
        (None, _) => second,
    }
}

impl MatcherModel {
    /// The first match at or behind a place. Where the case of letters is passed over, the literals say
    /// all of a rest of ASCII characters alone. In any other rest an ASCII letter may also match a
    /// character that is not ASCII: the general engine is asked as well, and the earlier match counts.
    pub open spec fn span(self, haystack: Seq<u8>, at: int) -> Option<(int, int)> {
        if at > haystack.len() {
            None
        } else {
            match self {
                MatcherModel::Literal { literals, folds, word, text, fallback } => if !folds {
                    first_taken(haystack, at, haystack.len() as int, literals, false, word)
                } else {
                    let limit = ascii_end(haystack, at);
                    let fast = first_taken(haystack, at, limit, literals, true, word);
                    match fallback {
                        Some(model) => if limit == haystack.len() {
                            fast
                        } else {
                            earlier(fast, engine::regex_span(model, haystack, at))
                        },
                        None => fast,
                    }
                },
                MatcherModel::Regex { model, text } => engine::regex_span(model, haystack, at),
            }
        }
    }

    /// Whether a NUL byte ends the search.
    pub open spec fn stops_at_nul(self) -> bool {
        match self {
            MatcherModel::Literal { literals, folds, word, text, fallback } => !text,
            MatcherModel::Regex { model, text } => !text,
        }
    }

    /// Whether a line without line feeds matches. One with a NUL byte does not, where such a byte ends
    /// the search.
    pub open spec fn matches_line(self, line: Seq<u8>) -> bool {
        !(self.stops_at_nul() && line.contains(0u8)) && self.span(line, 0) is Some
    }
}

impl FastLiteralMatcher {
    pub open spec fn wf(self) -> bool {
        self.engine.wf() && self.engine.folds() == self.ascii_case_insensitive
    }

    /// What the search looks for.
    pub open spec fn model(self) -> MatcherModel {
        MatcherModel::Literal {
            literals: self.engine.literals(),
            folds: self.ascii_case_insensitive,
            word: optional_model(self.word),
            text: self.text,
            fallback: optional_model(self.fallback),
        }
    }

    /// Builds a search for literals.
    fn new(
        literals: Vec<Vec<u8>>,
        ascii_case_insensitive: bool,
        word_regexp: bool,
        text: bool,
        fallback: Option<Regex>,
    ) -> (result: Result<Self, MatcherError>)
        ensures
            match result {
                Ok(matcher) => {
                    &&& matcher.wf()
                    &&& literal_model(
                        text::byte_strings(literals@),
                        ascii_case_insensitive,
                        word_regexp,
                        text,
                        optional_model(fallback),
                    ) == Ok::<MatcherModel, Seq<char>>(matcher.model())
                },
                Err(error) => literal_model(
                    text::byte_strings(literals@),
                    ascii_case_insensitive,
                    word_regexp,
                    text,
                    optional_model(fallback),
                ) == Err::<MatcherModel, Seq<char>>(error.message@),
            },
    {
        let ghost model = text::byte_strings(literals@);
        let engine: LiteralEngine = if literals.len() == 1 && !ascii_case_insensitive {
            let needle: Vec<u8> = copy_bytes(literals[0].as_slice());
            assert(model =~= seq![needle@]);
            LiteralEngine::Single(needle)
        } else {
            match LiteralSet::new(literals, ascii_case_insensitive) {
                Ok(set) => LiteralEngine::Multiple(set),
                Err(error) => {
                    return Err(error);
                },
            }
        };
        let word: Option<Regex> = if word_regexp {
            match unicode_word_regex() {
                Ok(regex) => Some(regex),
                Err(error) => {
                    return Err(error);
                },
            }
        } else {
            None
        };
        Ok(FastLiteralMatcher { engine, ascii_case_insensitive, word, text, fallback })
    }

    /// The first match at or behind a place.
    pub fn find_at(&self, haystack: &[u8], at: usize) -> (result: Option<MatchRange>)
        requires
            self.wf(),
        ensures
            range_span(result) == self.model().span(haystack@, at as int),
            result matches Some(range) ==> at <= range.start <= range.end <= haystack@.len(),
    {
        let total: usize = haystack.len();
        if at > total {
            return None;
        }
        if !self.ascii_case_insensitive {
            return self.find_fast(haystack, at, total);
        }
        let mut limit: usize = at;
        while limit < total && haystack[limit] < 0x80
            invariant
                at <= limit <= total,
                total == haystack@.len(),
                ascii_end(haystack@, at as int) == ascii_end(haystack@, limit as int),
            decreases total - limit,
        {
            limit += 1;
        }
        let fast: Option<MatchRange> = self.find_fast(haystack, at, limit);
        if limit == total {
            return fast;
        }
        match &self.fallback {
            Some(regex) => match (fast, find_regex(regex, haystack, at)) {
                (Some(found), Some((start, end))) => if found.start < start {
                    Some(found)
                } else {
                    Some(MatchRange { start, end })
                },
                (None, Some((start, end))) => Some(MatchRange { start, end }),
                (found, None) => found,
            },
            None => fast,
        }
    }

    /// The first literal between two places.
    fn find_fast(&self, haystack: &[u8], at: usize, end: usize) -> (result: Option<MatchRange>)
        requires
            self.engine.wf(),
            end <= haystack@.len(),
        ensures
            range_span(result) == first_taken(
                haystack@,
                at as int,
                end as int,
                self.engine.literals(),
                self.engine.folds(),
                optional_model(self.word),
            ),
            result matches Some(range) ==> at <= range.start <= range.end <= end,
    {
        match &self.engine {
            LiteralEngine::Single(needle) => find_single_literal(
                haystack,
                at,
                end,
                needle.as_slice(),
                &self.word,
            ),
            LiteralEngine::Multiple(set) => find_literal_set(haystack, at, end, set, &self.word),
        }
    }
}

impl RegexMatcher {
    /// What the search looks for.
    pub open spec fn model(self) -> MatcherModel {
        MatcherModel::Regex { model: engine::regex_model(self.regex), text: self.text }
    }

    /// The first match at or behind a place.
    pub fn find_at(&self, haystack: &[u8], at: usize) -> (result: Option<MatchRange>)
        ensures
            range_span(result) == self.model().span(haystack@, at as int),
            result matches Some(range) ==> at <= range.start <= range.end <= haystack@.len(),
    {
        if at > haystack.len() {
            return None;
        }
        match find_regex(&self.regex, haystack, at) {
            Some((start, end)) => Some(MatchRange { start, end }),
            None => None,
        }
    }
}

/// The search for literals, or the message of the error where it cannot be built.
pub open spec fn literal_model(
    literals: Seq<Seq<u8>>,
    folds: bool,
    word_regexp: bool,
    text: bool,
    fallback: Option<RegexModel>,
) -> Result<MatcherModel, Seq<char>> {
    if (literals.len() != 1 || folds) && engine::automaton_error(literals, folds) is Some {
        Err(engine::automaton_error(literals, folds)->0)
    } else if word_regexp {
        match word_model() {
            Ok(word) => Ok(
                MatcherModel::Literal { literals, folds, word: Some(word), text, fallback },
            ),
            Err(message) => Err(message),
        }
    } else {
        Ok(MatcherModel::Literal { literals, folds, word: None, text, fallback })
    }
}

/// The message for a pattern that asks for a NUL byte.
pub open spec fn nul_message() -> Seq<char> {
    "NUL バイトを明示的に要求するパターンには --text が必要です"@
}

/// Whether the case of letters is passed over, or the message of the error in the pattern.
pub open spec fn folds_case(pattern: Seq<char>, options: MatcherOptions) -> Result<
    bool,
    Seq<char>,
> {
    if options.ignore_case {
        Ok(true)
    } else if options.smart_case {
        written::lower_case_only(pattern, options.fixed_strings)
    } else {
        Ok(false)
    }
}

/// Whether the pattern has letters, and no upper-case ones, where that makes a search pass over the
/// case of letters.
fn smart_case_enabled(pattern: &str, options: MatcherOptions) -> (result: Result<
    bool,
    MatcherError,
>)
    ensures
        match result {
            Ok(enabled) => folds_case(pattern@, options) == Ok::<bool, Seq<char>>(
                options.ignore_case || enabled,
            ),
            Err(error) => folds_case(pattern@, options) == Err::<bool, Seq<char>>(error.message@),
        },
{
    if !options.smart_case || options.ignore_case {
        return Ok(false);
    }
    is_lower_case_only(pattern, options.fixed_strings)
}

/// Whether a text holds the start of a group with options.
pub open spec fn has_group_options(text: Seq<char>) -> bool {
    exists|i: int| 0 <= i < text.len() - 1 && #[trigger] text[i] == '(' && text[i + 1] == '?'
}

/// Whether a text holds the start of a group with options.
fn contains_group_options(pattern: &str) -> (result: bool)
    ensures
        result == has_group_options(pattern@),
{
    let letters: Vec<char> = to_chars(pattern);
    if letters.len() == 0 {
        return false;
    }
    let mut index: usize = 0;
    while index < letters.len() - 1
        invariant
            letters@ == pattern@,
            0 < letters.len(),
            index < letters.len(),
            forall|i: int|
                0 <= i < index ==> !(#[trigger] letters@[i] == '(' && letters@[i + 1] == '?'),
        decreases letters.len() - index,
    {
        if letters[index] == '(' && letters[index + 1] == '?' {
            return true;
        }
        index += 1;
    }
    false
}

/// Whether all bytes of literals are ASCII characters.
pub open spec fn all_ascii(literals: Seq<Seq<u8>>) -> bool {
    forall|i: int, j: int|
        0 <= i < literals.len() && 0 <= j < literals[i].len() ==> #[trigger] literals[i][j] < 0x80
}

/// Whether all bytes of literals are ASCII characters.
fn are_ascii(literals: &Vec<Vec<u8>>) -> (result: bool)
    ensures
        result == all_ascii(text::byte_strings(literals@)),
{
    let ghost model = text::byte_strings(literals@);
    let mut index: usize = 0;
    while index < literals.len()
        invariant
            index <= literals.len(),
            model == text::byte_strings(literals@),
            forall|i: int, j: int|
                0 <= i < index && 0 <= j < model[i].len() ==> #[trigger] model[i][j] < 0x80,
        decreases literals.len() - index,
    {
        let literal: &Vec<u8> = &literals[index];
        assert(literal@ == model[index as int]);
        let mut inner: usize = 0;
        while inner < literal.len()
            invariant
                index < literals.len(),
                inner <= literal.len(),
                model == text::byte_strings(literals@),
                literal@ == model[index as int],
                forall|j: int| 0 <= j < inner ==> #[trigger] model[index as int][j] < 0x80,
            decreases literal.len() - inner,
        {
            if literal[inner] >= 0x80 {
                assert(model[index as int][inner as int] >= 0x80);
                return false;
            }
            assert(model[index as int][inner as int] < 0x80);
            inner += 1;
        }
        index += 1;
    }
    true
}

/// What a pattern and its options are compiled to, or the message of the error.
///
/// A pattern that stands for a few literals becomes a search for these, unless whole lines are asked
/// for. Where the case of letters is passed over, all of them must be ASCII, no group may carry
/// options, and the general engine stands by for what is not ASCII.
pub open spec fn built(pattern: Seq<char>, options: MatcherOptions) -> Result<
    MatcherModel,
    Seq<char>,
> {
    let nul = if options.text {
        Ok(false)
    } else {
        written::mentions_nul(pattern, options.fixed_strings)
    };
    match (nul, prepared_tree(pattern, options.fixed_strings, false), folds_case(pattern, options)) {
        (Err(message), _, _) => Err(message),
        (Ok(true), _, _) => Err(nul_message()),
        (Ok(false), Err(message), _) => Err(message),
        (Ok(false), Ok(_), Err(message)) => Err(message),
        (Ok(false), Ok(tree), Ok(folds)) => built_from(
            pattern,
            options,
            literals::literals_of(tree),
            folds,
        ),
    }
}

/// What a pattern is compiled to, once it is known which literals it stands for and whether case
/// counts.
pub open spec fn built_from(
    pattern: Seq<char>,
    options: MatcherOptions,
    list: Option<Seq<Seq<u8>>>,
    folds: bool,
) -> Result<MatcherModel, Seq<char>> {
    let fast = !options.line_regexp && list is Some && literals::fast_literals(list->0);
    if fast && !folds {
        literal_model(list->0, false, options.word_regexp, options.text, None)
    } else {
        match regex_for(pattern, folds, options) {
            Err(message) => Err(message),
            Ok(model) => if fast && all_ascii(list->0) && (options.fixed_strings
                || !has_group_options(pattern)) {
                literal_model(list->0, true, options.word_regexp, options.text, Some(model))
            } else {
                Ok(MatcherModel::Regex { model, text: options.text })
            },
        }
    }
}

impl NativeMatcher {
    pub open spec fn wf(self) -> bool {
        match self {
            NativeMatcher::Literal(matcher) => matcher.wf(),
            NativeMatcher::Regex(_) => true,
        }
    }

    /// What the matcher looks for.
    pub open spec fn model(self) -> MatcherModel {
        match self {
            NativeMatcher::Literal(matcher) => matcher.model(),
            NativeMatcher::Regex(matcher) => matcher.model(),
        }
    }

    /// Compiles a pattern.
    pub fn build(pattern: &str, options: MatcherOptions) -> (result: Result<Self, MatcherError>)
        ensures
            match result {
                Ok(matcher) => {
                    &&& built(pattern@, options) == Ok::<MatcherModel, Seq<char>>(matcher.model())
                    &&& matcher.wf()
                },
                Err(error) => built(pattern@, options) == Err::<MatcherModel, Seq<char>>(
                    error.message@,
                ),
            },
    {
        if !options.text {
            match pattern_explicitly_mentions_nul(pattern, options.fixed_strings) {
                Ok(found) => {
                    if found {
                        return Err(
                            MatcherError::new(
                                "NUL バイトを明示的に要求するパターンには --text が必要です".to_owned(),
                            ),
                        );
                    }
                },
                Err(error) => {
                    return Err(error);
                },
            }
        }
        let raw: Hir = match prepare_hir(pattern, options.fixed_strings, false) {
            Ok(hir) => hir,
            Err(error) => {
                return Err(error);
            },
        };
        let case_insensitive: bool = match smart_case_enabled(pattern, options) {
            Ok(enabled) => options.ignore_case || enabled,
            Err(error) => {
                return Err(error);
            },
        };
        let expr: Expr = to_expr(&raw);
        if !options.line_regexp {
            if let Some(list) = literal_alternatives(&expr) {
                if literals_are_fast(list.as_slice()) {
                    if !case_insensitive {
                        return match FastLiteralMatcher::new(
                            list,
                            false,
                            options.word_regexp,
                            options.text,
                            None,
                        ) {
                            Ok(matcher) => Ok(NativeMatcher::Literal(matcher)),
                            Err(error) => Err(error),
                        };
                    }
                    if are_ascii(&list) && (options.fixed_strings || !contains_group_options(
                        pattern,
                    )) {
                        let regex: Regex = match regex_of(pattern, true, options) {
                            Ok(regex) => regex,
                            Err(error) => {
                                return Err(error);
                            },
                        };
                        return match FastLiteralMatcher::new(
                            list,
                            true,
                            options.word_regexp,
                            options.text,
                            Some(regex),
                        ) {
                            Ok(matcher) => Ok(NativeMatcher::Literal(matcher)),
                            Err(error) => Err(error),
                        };
                    }
                }
            }
        }
        match regex_of(pattern, case_insensitive, options) {
            Ok(regex) => Ok(NativeMatcher::Regex(RegexMatcher { regex, text: options.text })),
            Err(error) => Err(error),
        }
    }

    /// Whether whole blocks of lines can be searched: line anchors hold in them.
    pub fn supports_block_search(&self) -> (result: bool)
        ensures
            result,
    {
        true
    }

    /// The first match at or behind a place.
    pub fn find_at(&self, haystack: &[u8], at: usize) -> (result: Option<MatchRange>)
        requires
            self.wf(),
        ensures
            range_span(result) == self.model().span(haystack@, at as int),
            result matches Some(range) ==> at <= range.start <= range.end <= haystack@.len(),
    {
        match self {
            NativeMatcher::Literal(matcher) => matcher.find_at(haystack, at),
            NativeMatcher::Regex(matcher) => matcher.find_at(haystack, at),
        }
    }

    /// Whether a line matches.
    pub fn is_match(&self, line: &[u8]) -> (result: bool)
        requires
            self.wf(),
        ensures
            result == self.model().matches_line(line@),
    {
        if self.binary_detection_enabled() && find_byte(0, line).is_some() {
            return false;
        }
        self.find_at(line, 0).is_some()
    }

    /// Whether a NUL byte ends the search.
    pub fn binary_detection_enabled(&self) -> (result: bool)
        ensures
            result == self.model().stops_at_nul(),
    {
        match self {
            NativeMatcher::Literal(matcher) => !matcher.text,
            NativeMatcher::Regex(matcher) => !matcher.text,
        }
    }
}

/// What a scanner asks of a matcher.
pub trait LineMatcher {
    /// Whether the matcher is well formed.
    spec fn ready(&self) -> bool;

    /// The first match at or behind a place.
    spec fn first_span(&self, haystack: Seq<u8>, at: int) -> Option<(int, int)>;

    /// Whether a line matches.
    spec fn takes_line(&self, line: Seq<u8>) -> bool;

    /// Whether whole blocks of lines can be searched.
    fn supports_block_search(&self) -> (result: bool);

    /// The first match at or behind a place.
    fn find_at(&self, haystack: &[u8], at: usize) -> (result: Option<MatchRange>)
        requires
            self.ready(),
        ensures
            range_span(result) == self.first_span(haystack@, at as int),
            result matches Some(range) ==> at <= range.start <= range.end <= haystack@.len(),
    ;

    /// Whether a line matches.
    fn is_match(&self, line: &[u8]) -> (result: bool)
        requires
            self.ready(),
        ensures
            result == self.takes_line(line@),
    ;
}

impl LineMatcher for NativeMatcher {
    open spec fn ready(&self) -> bool {
        self.wf()
    }

    open spec fn first_span(&self, haystack: Seq<u8>, at: int) -> Option<(int, int)> {
        self.model().span(haystack, at)
    }

    open spec fn takes_line(&self, line: Seq<u8>) -> bool {
        self.model().matches_line(line)
    }

    fn supports_block_search(&self) -> (result: bool)
        ensures
            result,
    {
        NativeMatcher::supports_block_search(self)
    }

    fn find_at(&self, haystack: &[u8], at: usize) -> (result: Option<MatchRange>) {
        NativeMatcher::find_at(self, haystack, at)
    }

    fn is_match(&self, line: &[u8]) -> (result: bool) {
        NativeMatcher::is_match(self, line)
    }
}

/// Whether one of literals is taken at a place.
pub open spec fn some_taken(
    haystack: Seq<u8>,
    at: int,
    end: int,
    literals: Seq<Seq<u8>>,
    folds: bool,
    word: Option<RegexModel>,
) -> bool {
    exists|i: int|
        0 <= i < literals.len() && is_taken(haystack, at, end, #[trigger] literals[i], folds, word)
}

/// A search for literals, as whole words or not, finds the first place at which one of them is taken, and
/// of those the first, or finds that there is no such place.
pub proof fn literal_search_finds_the_first(
    haystack: Seq<u8>,
    at: int,
    end: int,
    literals: Seq<Seq<u8>>,
    folds: bool,
    word: Option<RegexModel>,
)
    ensures
        match first_taken(haystack, at, end, literals, folds, word) {
            Some((start, stop)) => {
                &&& at <= start < end
                &&& exists|i: int|
                    {
                        &&& 0 <= i < literals.len()
                        &&& is_taken(haystack, start, end, #[trigger] literals[i], folds, word)
                        &&& stop == start + literals[i].len()
                        &&& forall|j: int|
                            0 <= j < i ==> !is_taken(
                                haystack,
                                start,
                                end,
                                #[trigger] literals[j],
                                folds,
                                word,
                            )
                    }
                &&& forall|place: int|
                    at <= place < start ==> !#[trigger] some_taken(
                        haystack,
                        place,
                        end,
                        literals,
                        folds,
                        word,
                    )
            },
            None => forall|place: int|
                at <= place < end ==> !#[trigger] some_taken(
                    haystack,
                    place,
                    end,
                    literals,
                    folds,
                    word,
                ),
        },
    decreases end - at,
{
    if at < end {
        lemma_index_tells(haystack, at, end, literals, folds, word, 0);
        if taken_at(haystack, at, end, literals, folds, word) is None {
            literal_search_finds_the_first(haystack, at + 1, end, literals, folds, word);
        }
    }
}

proof fn lemma_index_tells(
    haystack: Seq<u8>,
    at: int,
    end: int,
    literals: Seq<Seq<u8>>,
    folds: bool,
    word: Option<RegexModel>,
    from: int,
)
    requires
        0 <= from <= literals.len(),
    ensures
        match taken_index(haystack, at, end, literals, folds, word, from) {
            Some(i) => {
                &&& from <= i < literals.len()
                &&& is_taken(haystack, at, end, literals[i], folds, word)
                &&& forall|j: int|
                    from <= j < i ==> !is_taken(
                        haystack,
                        at,
                        end,
                        #[trigger] literals[j],
                        folds,
                        word,
                    )
            },
            None => forall|i: int|
                from <= i < literals.len() ==> !is_taken(
                    haystack,
                    at,
                    end,
                    #[trigger] literals[i],
                    folds,
                    word,
                ),
        },
    decreases literals.len() - from,
{
    if from < literals.len() {
        lemma_index_tells(haystack, at, end, literals, folds, word, from + 1);
    }
}

/// Where the case of letters is passed over and not all that follows is ASCII, no match is found behind
/// the first that the general engine finds, nor behind the first literal among the ASCII characters.
pub proof fn folded_search_loses_no_earlier_match(
    literals: Seq<Seq<u8>>,
    word: Option<RegexModel>,
    text: bool,
    general: RegexModel,
    haystack: Seq<u8>,
    at: int,
)
    requires
        0 <= at <= haystack.len(),
        ascii_end(haystack, at) < haystack.len(),
    ensures
        ({
            let model = MatcherModel::Literal {
                literals,
                folds: true,
                word,
                text,
                fallback: Some(general),
            };
            let found = model.span(haystack, at);
            let fast = first_taken(
                haystack,
                at,
                ascii_end(haystack, at),
                literals,
                true,
                word,
            );
            let slow = engine::regex_span(general, haystack, at);
            &&& found is Some == (fast is Some || slow is Some)
            &&& found == fast || found == slow
            &&& found matches Some(span) ==> {
                &&& fast matches Some(one) ==> span.0 <= one.0
                &&& slow matches Some(other) ==> span.0 <= other.0
            }
        }),
{
}

/// Smart case is one of two plain choices: a pattern that is written in lower case is taken as if case
/// were to be passed over, and any other as it is written.
pub proof fn smart_case_is_one_of_two(pattern: Seq<char>, options: MatcherOptions)
    requires
        options.smart_case,
        written::lower_case_only(pattern, options.fixed_strings) is Ok,
    ensures
        ({
            let plain = MatcherOptions { smart_case: false, ..options };
            let folding = MatcherOptions { smart_case: false, ignore_case: true, ..options };
            if options.ignore_case || written::lower_case_only(pattern, options.fixed_strings)->Ok_0 {
                built(pattern, options) == built(pattern, folding)
            } else {
                built(pattern, options) == built(pattern, plain)
            }
        }),
{
    let plain = MatcherOptions { smart_case: false, ..options };
    let folding = MatcherOptions { smart_case: false, ignore_case: true, ..options };
    assert(regex_for(pattern, true, options) == regex_for(pattern, true, folding));
    assert(regex_for(pattern, false, options) == regex_for(pattern, false, plain));
}

/// A line with a NUL byte matches no pattern unless the search takes files as text.
pub proof fn binary_lines_do_not_match(pattern: Seq<char>, options: MatcherOptions, line: Seq<u8>)
    requires
        !options.text,
        line.contains(0u8),
        built(pattern, options) is Ok,
    ensures
        !built(pattern, options)->Ok_0.matches_line(line),
{
}

} // verus!
