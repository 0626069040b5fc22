//! What a search for literals finds in a text, and what it passes over.

use vstd::prelude::*;
use vstd::utf8::*;
use crate::engine;
use crate::engine::RegexModel;
use crate::literals;
use crate::native_matcher;
use crate::native_matcher::{MatcherModel, MatcherOptions};
use crate::platform;
use crate::platform::Platform;
use crate::text;
use crate::tree::Tree;

verus! {

/// Whether a byte is a digit, an ASCII letter or an underscore.
pub open spec fn is_name_byte(byte: u8) -> bool {
    ||| '0' as int <= byte <= '9' as int
    ||| 'A' as int <= byte <= 'Z' as int
    ||| 'a' as int <= byte <= 'z' as int
    ||| byte == '_' as int
}

/// Whether two bytes are the same, or one ASCII letter in upper and in lower case where `folds`.
pub open spec fn same_letter(left: u8, right: u8, folds: bool) -> bool {
    ||| left == right
    ||| folds && 'A' as int <= left <= 'Z' as int && right - left == 'a' as int - 'A' as int
    ||| folds && 'A' as int <= right <= 'Z' as int && left - right == 'a' as int - 'A' as int
}

/// Whether a literal is written in a text from a place on, letter by letter.
pub open spec fn is_written_at(haystack: Seq<u8>, place: int, literal: Seq<u8>, folds: bool) -> bool {
    &&& 0 <= place
    &&& place + literal.len() <= haystack.len()
    &&& forall|k: int|
        0 <= k < literal.len() ==> same_letter(
            #[trigger] haystack[place + k],
            literal[k],
            folds,
        )
}

/// Whether an ASCII byte that is no part of a name, or the end of the text, is on each side of a part of
/// a text.
pub open spec fn is_set_off(haystack: Seq<u8>, start: int, end: int) -> bool {
    &&& start > 0 ==> haystack[start - 1] < 0x80 && !is_name_byte(haystack[start - 1])
    &&& end < haystack.len() ==> haystack[end] < 0x80 && !is_name_byte(haystack[end])
}

/// Whether a digit, an ASCII letter or an underscore is next to a part of a text.
pub open spec fn runs_into_a_name(haystack: Seq<u8>, start: int, end: int) -> bool {
    ||| 0 < start <= haystack.len() && is_name_byte(haystack[start - 1])
    ||| 0 <= end < haystack.len() && is_name_byte(haystack[end])
}

proof fn lemma_same_letters(left: Seq<u8>, right: Seq<u8>, folds: bool)
    requires
        left.len() == right.len(),
    ensures
        (if folds {
            text::same_ignoring_case(left, right)
        } else {
            left == right
        }) == forall|k: int|
            0 <= k < left.len() ==> same_letter(#[trigger] left[k], right[k], folds),
{
    let one = platform::folded_all(Platform::Windows, left);
    let other = platform::folded_all(Platform::Windows, right);
    assert forall|k: int| 0 <= k < left.len() implies (one[k] == other[k]) == same_letter(
        #[trigger] left[k],
        right[k],
        true,
    ) by {}
    if folds {
        if forall|k: int|
            0 <= k < left.len() ==> same_letter(#[trigger] left[k], right[k], folds) {
            assert(one =~= other);
        }
        if one == other {
            assert forall|k: int| 0 <= k < left.len() implies same_letter(
                #[trigger] left[k],
                right[k],
                folds,
            ) by {
                assert(one[k] == other[k]);
            }
        }
    } else {
        if forall|k: int|
            0 <= k < left.len() ==> same_letter(#[trigger] left[k], right[k], folds) {
            assert(left =~= right);
        }
    }
}

proof fn lemma_written(haystack: Seq<u8>, end: int, place: int, literal: Seq<u8>, folds: bool)
    requires
        0 <= end <= haystack.len(),
    ensures
        engine::literal_at(haystack.subrange(0, end), place, literal, folds) == (is_written_at(
            haystack,
            place,
            literal,
            folds,
        ) && place + literal.len() <= end),
{
    if 0 <= place && place + literal.len() <= end {
        let part = haystack.subrange(0, end).subrange(place, place + literal.len());
        lemma_same_letters(part, literal, folds);
        if is_written_at(haystack, place, literal, folds) {
            assert forall|k: int| 0 <= k < part.len() implies same_letter(
                #[trigger] part[k],
                literal[k],
                folds,
            ) by {
                assert(part[k] == haystack[place + k]);
            }
        }
        if engine::literal_at(haystack.subrange(0, end), place, literal, folds) {
            assert forall|k: int| 0 <= k < literal.len() implies same_letter(
                #[trigger] haystack[place + k],
                literal[k],
                folds,
            ) by {
                assert(part[k] == haystack[place + k]);
            }
        }
    }
}

proof fn lemma_ascii_end(haystack: Seq<u8>, at: int)
    requires
        0 <= at <= haystack.len(),
    ensures
        at <= native_matcher::ascii_end(haystack, at) <= haystack.len(),
        forall|i: int| at <= i < native_matcher::ascii_end(haystack, at) ==> haystack[i] < 0x80,
        native_matcher::ascii_end(haystack, at) < haystack.len()
            ==> haystack[native_matcher::ascii_end(haystack, at)] >= 0x80,
    decreases haystack.len() - at,
{
    if at < haystack.len() && haystack[at] < 0x80 {
        lemma_ascii_end(haystack, at + 1);
    }
}

/// A character that starts with an ASCII byte is that byte.
proof fn lemma_neighbours(haystack: Seq<u8>, start: int, end: int, word: RegexModel)
    requires
        0 <= start <= end <= haystack.len(),
    ensures
        is_set_off(haystack, start, end) ==> native_matcher::stands_alone(
            haystack,
            start,
            end,
            word,
        ),
        native_matcher::stands_alone(haystack, start, end, word) ==> !runs_into_a_name(
            haystack,
            start,
            end,
        ),
{
    if start > 0 && haystack[start - 1] < 0x80 {
        let minimum = if start >= 4 {
            start - 4
        } else {
            0
        };
        assert(native_matcher::character_start(haystack, minimum, start - 1) == start - 1);
        let before = haystack.subrange(start - 1, start);
        assert(before[0] == haystack[start - 1]);
        assert(native_matcher::word_before(haystack, start, word) == is_name_byte(
            haystack[start - 1],
        ));
    }
    if end < haystack.len() && haystack[end] < 0x80 {
        let after = haystack.subrange(end, end + 1);
        assert(after[0] == haystack[end]);
        assert(native_matcher::word_after(haystack, end, word) == is_name_byte(haystack[end]));
    }
}

/// A pattern that is taken as whole words finds no literal next to a digit, an ASCII letter or an
/// underscore, and passes over none that ASCII characters of other kinds, or the ends of the text, set
/// off. What it finds is one of the literals, letter by letter. Where the case of letters is passed over
/// this is said of a rest of ASCII characters; of any other the general engine has its say too.
pub proof fn whole_words_are_found(
    pattern: Seq<char>,
    options: MatcherOptions,
    literals: Seq<Seq<u8>>,
    folds: bool,
    word: Option<RegexModel>,
    as_text: bool,
    fallback: Option<RegexModel>,
    haystack: Seq<u8>,
    at: int,
)
    requires
        options.word_regexp,
        native_matcher::built(pattern, options) == Ok::<MatcherModel, Seq<char>>(
            MatcherModel::Literal { literals, folds, word, text: as_text, fallback },
        ),
        0 <= at <= haystack.len(),
        folds ==> forall|i: int| at <= i < haystack.len() ==> haystack[i] < 0x80,
    ensures
        ({
            let found = native_matcher::built(pattern, options)->Ok_0.span(haystack, at);
            &&& found matches Some((start, end)) ==> {
                &&& at <= start <= end <= haystack.len()
                &&& !runs_into_a_name(haystack, start, end)
                &&& exists|i: int|
                    0 <= i < literals.len() && end == start + literals[i].len() && is_written_at(
                        haystack,
                        start,
                        #[trigger] literals[i],
                        folds,
                    )
            }
            &&& forall|place: int, i: int|
                at <= place && 0 <= i < literals.len() && #[trigger] is_written_at(
                    haystack,
                    place,
                    literals[i],
                    folds,
                ) && is_set_off(haystack, place, place + literals[i].len()) ==> (
                found matches Some((start, _)) && start <= place)
        }),
{
    let end = haystack.len() as int;
    lemma_ascii_end(haystack, at);
    if folds {
        assert(native_matcher::ascii_end(haystack, at) == end);
    }
    let found = native_matcher::built(pattern, options)->Ok_0.span(haystack, at);
    assert(found == native_matcher::first_taken(haystack, at, end, literals, folds, word));
    native_matcher::literal_search_finds_the_first(haystack, at, end, literals, folds, word);
    if let Some((start, stop)) = found {
        let i = choose|i: int|
            0 <= i < literals.len() && native_matcher::is_taken(
                haystack,
                start,
                end,
                #[trigger] literals[i],
                folds,
                word,
            ) && stop == start + literals[i].len();
        lemma_written(haystack, end, start, literals[i], folds);
        lemma_neighbours(haystack, start, stop, word->0);
    }
    assert forall|place: int, i: int|
        at <= place && 0 <= i < literals.len() && #[trigger] is_written_at(
            haystack,
            place,
            literals[i],
            folds,
        ) && is_set_off(haystack, place, place + literals[i].len()) implies (found matches Some(
        (start, _),
    ) && start <= place) by {
        lemma_written(haystack, end, place, literals[i], folds);
        lemma_neighbours(haystack, place, place + literals[i].len(), word->0);
        assert(literals[i].len() > 0);
        assert(native_matcher::is_taken(haystack, place, end, literals[i], folds, word));
        assert(native_matcher::some_taken(haystack, place, end, literals, folds, word));
    }
}

/// A pattern that stands for literals and is not taken as whole words finds the first place at which one
/// of them is written, with the one that the pattern names first of those that are written there.
pub proof fn literals_are_found(
    pattern: Seq<char>,
    options: MatcherOptions,
    literals: Seq<Seq<u8>>,
    folds: bool,
    word: Option<RegexModel>,
    as_text: bool,
    fallback: Option<RegexModel>,
    haystack: Seq<u8>,
    at: int,
)
    requires
        !options.word_regexp,
        native_matcher::built(pattern, options) == Ok::<MatcherModel, Seq<char>>(
            MatcherModel::Literal { literals, folds, word, text: as_text, fallback },
        ),
        0 <= at <= haystack.len(),
        folds ==> forall|i: int| at <= i < haystack.len() ==> haystack[i] < 0x80,
    ensures
        ({
            let found = native_matcher::built(pattern, options)->Ok_0.span(haystack, at);
            &&& found matches Some((start, end)) ==> {
                &&& at <= start <= end <= haystack.len()
                &&& exists|i: int|
                    {
                        &&& 0 <= i < literals.len()
                        &&& end == start + literals[i].len()
                        &&& is_written_at(haystack, start, #[trigger] literals[i], folds)
                        &&& forall|j: int|
                            0 <= j < i ==> !is_written_at(
                                haystack,
                                start,
                                #[trigger] literals[j],
                                folds,
                            )
                    }
            }
            &&& forall|place: int, i: int|
                at <= place && 0 <= i < literals.len() && #[trigger] is_written_at(
                    haystack,
                    place,
                    literals[i],
                    folds,
                ) ==> (found matches Some((start, _)) && start <= place)
        }),
{
    let end = haystack.len() as int;
    lemma_ascii_end(haystack, at);
    if folds {
        assert(native_matcher::ascii_end(haystack, at) == end);
    }
    assert(word is None);
    let found = native_matcher::built(pattern, options)->Ok_0.span(haystack, at);
    assert(found == native_matcher::first_taken(haystack, at, end, literals, folds, word));
    native_matcher::literal_search_finds_the_first(haystack, at, end, literals, folds, word);
    if let Some((start, stop)) = found {
        let i = choose|i: int|
            {
                &&& 0 <= i < literals.len()
                &&& native_matcher::is_taken(
                    haystack,
                    start,
                    end,
                    #[trigger] literals[i],
                    folds,
                    word,
                )
                &&& stop == start + literals[i].len()
                &&& forall|j: int|
                    0 <= j < i ==> !native_matcher::is_taken(
                        haystack,
                        start,
                        end,
                        #[trigger] literals[j],
                        folds,
                        word,
                    )
            };
        lemma_written(haystack, end, start, literals[i], folds);
        assert forall|j: int| 0 <= j < i implies !is_written_at(
            haystack,
            start,
            #[trigger] literals[j],
            folds,
        ) by {
            lemma_written(haystack, end, start, literals[j], folds);
        }
    }
    assert forall|place: int, i: int|
        at <= place && 0 <= i < literals.len() && #[trigger] is_written_at(
            haystack,
            place,
            literals[i],
            folds,
        ) implies (found matches Some((start, _)) && start <= place) by {
        lemma_written(haystack, end, place, literals[i], folds);
        assert(literals[i].len() > 0);
        assert(native_matcher::is_taken(haystack, place, end, literals[i], folds, word));
        assert(native_matcher::some_taken(haystack, place, end, literals, folds, word));
    }
}

/// A fixed text of at most 256 bytes without line feeds and NUL bytes becomes a search for its own bytes,
/// whatever signs are in it, where case counts and neither whole words nor whole lines are asked for.
pub proof fn fixed_text_stands_for_itself(
    pattern: Seq<char>,
    options: MatcherOptions,
    haystack: Seq<u8>,
    at: int,
)
    requires
        options.fixed_strings,
        !options.ignore_case,
        !options.smart_case,
        !options.word_regexp,
        !options.line_regexp,
        0 < encode_utf8(pattern).len() <= 256,
        !encode_utf8(pattern).contains(0u8),
        !encode_utf8(pattern).contains('\n' as u8),
        0 <= at <= haystack.len(),
    ensures
        native_matcher::built(pattern, options) is Ok,
        ({
            let bytes = encode_utf8(pattern);
            match native_matcher::built(pattern, options)->Ok_0.span(haystack, at) {
                Some((start, end)) => {
                    &&& at <= start
                    &&& end == start + bytes.len()
                    &&& is_written_at(haystack, start, bytes, false)
                    &&& forall|place: int|
                        at <= place < start ==> !#[trigger] is_written_at(
                            haystack,
                            place,
                            bytes,
                            false,
                        )
                },
                None => forall|place: int|
                    at <= place ==> !#[trigger] is_written_at(haystack, place, bytes, false),
            }
        }),
{
    let bytes = encode_utf8(pattern);
    let literals = seq![bytes];
    let model = MatcherModel::Literal {
        literals,
        folds: false,
        word: None,
        text: options.text,
        fallback: None,
    };
    assert(native_matcher::built(pattern, options) == Ok::<MatcherModel, Seq<char>>(model));
    literals_are_found(
        pattern,
        options,
        literals,
        false,
        None,
        options.text,
        None,
        haystack,
        at,
    );
    assert(literals[0] == bytes);
    let found = model.span(haystack, at);
    assert forall|place: int| at <= place && #[trigger] is_written_at(
        haystack,
        place,
        bytes,
        false,
    ) implies (found matches Some((start, _)) && start <= place) by {
        assert(is_written_at(haystack, place, literals[0], false));
    }
}

/// The literals that a pattern is searched by are the words that it says once its line feeds are out.
pub proof fn literals_are_those_of_the_pattern(
    pattern: Seq<char>,
    options: MatcherOptions,
    literals: Seq<Seq<u8>>,
    folds: bool,
    word: Option<RegexModel>,
    as_text: bool,
    fallback: Option<RegexModel>,
    bytes: Seq<u8>,
)
    requires
        native_matcher::built(pattern, options) == Ok::<MatcherModel, Seq<char>>(
            MatcherModel::Literal { literals, folds, word, text: as_text, fallback },
        ),
    ensures
        native_matcher::prepared_tree(pattern, options.fixed_strings, false) matches Ok(tree)
            && literals.contains(bytes) == literals::says(tree, bytes),
        forall|i: int| 0 <= i < literals.len() ==> (#[trigger] literals[i]).len() > 0,
        as_text == options.text,
        word is Some == options.word_regexp,
        !options.line_regexp,
{
    let tree = native_matcher::prepared_tree(pattern, options.fixed_strings, false)->Ok_0;
    literals::literals_are_the_words(tree, bytes);
}

/// The case of letters is passed over where that is asked for, and where smart case is asked for and the
/// pattern is in lower case; a fixed text is in lower case where it is not empty and none of its letters
/// is in upper case. Otherwise case counts.
pub proof fn case_counts_unless_asked_otherwise(
    pattern: Seq<char>,
    options: MatcherOptions,
    literals: Seq<Seq<u8>>,
    folds: bool,
    word: Option<RegexModel>,
    as_text: bool,
    fallback: Option<RegexModel>,
)
    requires
        native_matcher::built(pattern, options) == Ok::<MatcherModel, Seq<char>>(
            MatcherModel::Literal { literals, folds, word, text: as_text, fallback },
        ),
    ensures
        options.ignore_case ==> folds,
        !options.ignore_case && !options.smart_case ==> !folds,
        !options.ignore_case && options.smart_case && options.fixed_strings ==> folds == (
        pattern.len() > 0 && forall|i: int|
            0 <= i < pattern.len() ==> !engine::is_upper(#[trigger] pattern[i])),
        folds ==> fallback is Some,
        folds ==> forall|i: int, j: int|
            0 <= i < literals.len() && 0 <= j < literals[i].len() ==> #[trigger] literals[i][j]
                < 0x80,
        folds && !options.fixed_strings ==> forall|i: int|
            0 <= i < pattern.len() - 1 && #[trigger] pattern[i] == '(' ==> pattern[i + 1] != '?',
{
}

/// What is not searched by literals is searched by the general engine, with the pattern in the middle:
/// between the start of a line and its end, a carriage return before it aside, where whole lines are asked
/// for, and between the places next to which no word character is where whole words are.
pub proof fn pattern_is_bounded_as_asked(
    pattern: Seq<char>,
    options: MatcherOptions,
    model: RegexModel,
    as_text: bool,
)
    requires
        native_matcher::built(pattern, options) == Ok::<MatcherModel, Seq<char>>(
            MatcherModel::Regex { model, text: as_text },
        ),
    ensures
        as_text == options.text,
        model.line_terminator == '\n' as int,
        !model.utf8_empty,
        exists|folds: bool|
            {
                &&& options.ignore_case ==> folds
                &&& !options.ignore_case && !options.smart_case ==> !folds
                &&& #[trigger] native_matcher::prepared_tree(
                    pattern,
                    options.fixed_strings,
                    folds,
                ) matches Ok(tree) && model.tree == if options.line_regexp {
                    engine::concat_tree(
                        seq![
                            Tree::Look(0x4),
                            tree,
                            engine::repeated_tree(
                                0,
                                Some(1),
                                true,
                                Tree::Literal(seq!['\r' as u8]),
                            ),
                            Tree::Look(0x8),
                        ],
                    )
                } else if options.word_regexp {
                    engine::concat_tree(seq![Tree::Look(0x1_0000), tree, Tree::Look(0x2_0000)])
                } else {
                    tree
                }
            },
{
    let folds = native_matcher::folds_case(pattern, options)->Ok_0;
    assert(native_matcher::prepared_tree(pattern, options.fixed_strings, folds) is Ok);
}

/// A fixed text with a NUL byte is refused unless files are taken as text.
pub proof fn nul_needs_text(pattern: Seq<char>, options: MatcherOptions)
    requires
        options.fixed_strings,
        encode_utf8(pattern).contains(0u8),
    ensures
        !options.text ==> native_matcher::built(pattern, options) is Err,
{
}

/// A line matches where something is found in it, unless it holds a NUL byte that ends the search.
pub proof fn line_matches_where_something_is_found(
    pattern: Seq<char>,
    options: MatcherOptions,
    line: Seq<u8>,
)
    requires
        native_matcher::built(pattern, options) is Ok,
        options.text || !line.contains(0u8),
    ensures
        ({
            let model = native_matcher::built(pattern, options)->Ok_0;
            model.matches_line(line) == model.span(line, 0) is Some
        }),
{
}

/// Whether bytes are one character of more than one byte.
pub open spec fn is_long_character(bytes: Seq<u8>) -> bool {
    &&& bytes.len() == 2 && 0xc2 <= bytes[0] <= 0xdf || bytes.len() == 3 && 0xe0 <= bytes[0]
        <= 0xef || bytes.len() == 4 && 0xf0 <= bytes[0] <= 0xf4
    &&& forall|i: int| 0 < i < bytes.len() ==> 0x80 <= #[trigger] bytes[i] < 0xc0
}

/// Of a character that is not ASCII the engine says whether it is a word character, on both sides of a
/// match, and it is asked of the bytes of that character and of no others.
pub proof fn other_characters_are_left_to_the_engine(
    before: Seq<u8>,
    character: Seq<u8>,
    after: Seq<u8>,
    word: RegexModel,
)
    requires
        is_long_character(character),
    ensures
        ({
            let haystack = before + character + after;
            let start = before.len() as int;
            let end = (before.len() + character.len()) as int;
            &&& native_matcher::word_after(haystack, start, word) == engine::regex_span(
                word,
                character,
                0,
            ) is Some
            &&& native_matcher::word_before(haystack, end, word) == engine::regex_span(
                word,
                character,
                0,
            ) is Some
        }),
{
    let haystack = before + character + after;
    let start = before.len() as int;
    let end = (before.len() + character.len()) as int;
    assert(haystack.subrange(start, end) =~= character);
    assert(haystack[start] == character[0]);
    let minimum = if end >= 4 {
        end - 4
    } else {
        0
    };
    assert forall|i: int| start < i <= end - 1 implies 0x80 <= #[trigger] haystack[i] < 0xc0 by {
        assert(haystack[i] == character[i - start]);
    }
    lemma_character_start(haystack, minimum, start, end - 1);
}

proof fn lemma_character_start(haystack: Seq<u8>, minimum: int, start: int, from: int)
    requires
        minimum <= start <= from < haystack.len(),
        !(0x80 <= haystack[start] < 0xc0),
        forall|i: int| start < i <= from ==> 0x80 <= #[trigger] haystack[i] < 0xc0,
    ensures
        native_matcher::character_start(haystack, minimum, from) == start,
    decreases from - start,
{
    if start < from {
        lemma_character_start(haystack, minimum, start, from - 1);
    }
}

/// Texts as alternatives.
pub open spec fn choices(words: Seq<Seq<u8>>) -> Seq<Tree> {
    Seq::new(words.len(), |i: int| Tree::Literal(words[i]))
}

/// Up to 128 alternatives are searched by as literals, in their order; more are left to the engine.
pub proof fn some_alternatives_are_literals(words: Seq<Seq<u8>>)
    ensures
        words.len() <= 128 ==> literals::literals_of(Tree::Alternation(choices(words))) == Some(words),
        words.len() > 128 ==> literals::literals_of(Tree::Alternation(choices(words))) is None,
{
    lemma_choices(words, words.len());
    assert(words.subrange(0, words.len() as int) =~= words);
}

proof fn lemma_choices(words: Seq<Seq<u8>>, count: nat)
    requires
        count <= words.len(),
    ensures
        count <= 128 ==> literals::listed_literals(choices(words), count) == Some(
            words.subrange(0, count as int),
        ),
        count > 128 ==> literals::listed_literals(choices(words), count) is None,
    decreases count,
{
    let trees = choices(words);
    if count == 0 {
        assert(words.subrange(0, 0) =~= Seq::<Seq<u8>>::empty());
    } else {
        lemma_choices(words, (count - 1) as nat);
        assert(trees[count - 1] == Tree::Literal(words[count - 1]));
        let one = literals::literals_of(trees[count - 1]);
        assert(one == Some(seq![words[count - 1]]));
        assert(words.subrange(0, count as int) =~= words.subrange(0, count - 1) + seq![words[count - 1]]);
    }
}

/// Two texts behind each other are one literal, of up to 8192 bytes.
pub proof fn texts_behind_each_other_are_one(first: Seq<u8>, second: Seq<u8>)
    ensures
        ({
            let tree = Tree::Concat(seq![Tree::Literal(first), Tree::Literal(second)]);
            &&& first.len() <= 8192 && first.len() + second.len() <= 8192 ==> literals::literals_of(
                tree,
            ) == Some(seq![first + second])
            &&& first.len() + second.len() > 8192 ==> literals::literals_of(tree) is None
        }),
{
    let subs = seq![Tree::Literal(first), Tree::Literal(second)];
    let tree = Tree::Concat(subs);
    let none = literals::joined_literals(subs, 0);
    let one = literals::joined_literals(subs, 1);
    let both = literals::joined_literals(subs, 2);
    assert(literals::literals_of(tree) == both);
    assert(subs[0] == Tree::Literal(first));
    assert(subs[1] == Tree::Literal(second));
    let first_list = literals::literals_of(subs[0]);
    let second_list = literals::literals_of(subs[1]);
    assert(first_list == Some(seq![first]));
    assert(second_list == Some(seq![second]));
    assert(none == Some(seq![Seq::<u8>::empty()]));
    lemma_combined(Seq::empty(), first);
    lemma_combined(first, second);
    assert(Seq::<u8>::empty() + first =~= first);
    let start = seq![Seq::<u8>::empty()];
    assert(start[0].len() + seq![first][0].len() == first.len());
    assert(literals::too_long(start, seq![first]) == (first.len() > 8192)) by {
        if first.len() > 8192 {
            assert(start[0].len() + seq![first][0].len() > 8192);
        }
    }
    assert(literals::too_long(seq![first], seq![second]) == (first.len() + second.len() > 8192)) by {
        if first.len() + second.len() > 8192 {
            assert(seq![first][0].len() + seq![second][0].len() > 8192);
        }
    }
    assert(start.len() * seq![first].len() == 1) by (nonlinear_arith)
        requires
            start.len() == 1,
            seq![first].len() == 1,
    ;
    assert(seq![first].len() * seq![second].len() == 1) by (nonlinear_arith)
        requires
            seq![first].len() == 1,
            seq![second].len() == 1,
    ;
    if first.len() <= 8192 {
        assert(one == Some(seq![first]));
    }
}

proof fn lemma_combined(first: Seq<u8>, second: Seq<u8>)
    ensures
        literals::combined(seq![first], seq![second]) == seq![first + second],
{
    let before = seq![first];
    let next = seq![second];
    assert(before.drop_last() =~= Seq::<Seq<u8>>::empty());
    assert(literals::combined(before.drop_last(), next) == Seq::<Seq<u8>>::empty());
    assert(literals::combined(before, next) =~= seq![first + second]);
}

} // verus!
