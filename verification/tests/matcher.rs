//! Patterns and what they match.

use fastfs::literals::{literal_alternatives, literals_are_fast};
use fastfs::native_matcher::{
    parse_pattern, utf8_width, LineMatcher, MatchRange, MatcherOptions, NativeMatcher,
};
use fastfs::pattern::{
    strip_line_feed, strip_line_feed_from_bytes, strip_line_feed_from_chars, MatcherError,
};
use fastfs::tree::{AstExpr, Expr, ItemExpr, SetExpr};
use fastfs::written::{
    analyse_ast_literals, analyse_literal_char, analyse_literal_text, ast_mentions_nul,
    is_lower_case_only, pattern_explicitly_mentions_nul, LiteralCaseAnalysis,
};

fn build(pattern: &str, options: MatcherOptions) -> NativeMatcher {
    match NativeMatcher::build(pattern, options) {
        Ok(matcher) => matcher,
        Err(error) => panic!("{}: {}", pattern, error.message),
    }
}

#[test]
fn fixed_string_treats_regular_expression_syntax_as_text() {
    let matcher = build(
        "a.b|c",
        MatcherOptions { fixed_strings: true, ..MatcherOptions::default() },
    );
    assert!(matcher.is_match(b"prefix a.b|c suffix"));
    assert!(!matcher.is_match(b"aXb"));
}

#[test]
fn literal_alternation_uses_the_fast_path_and_reports_block_offsets() {
    let matcher = build("alpha|beta|gamma", MatcherOptions::default());
    assert!(matches!(&matcher, &NativeMatcher::Literal(_)));
    assert_eq!(
        matcher.find_at(b"zero\nbeta\ngamma", 0),
        Some(MatchRange { start: 5, end: 9 })
    );
    assert_eq!(
        matcher.find_at(b"zero\nbeta\ngamma", 9),
        Some(MatchRange { start: 10, end: 15 })
    );
}

#[test]
fn word_literal_alternation_keeps_the_first_valid_leftmost_match() {
    let matcher = build(
        "abc|b",
        MatcherOptions { word_regexp: true, ..MatcherOptions::default() },
    );
    assert!(matcher.is_match(b"abc"));
}

#[test]
fn parenthesized_literal_or_is_recognized_without_regex_execution() {
    let hir = parse_pattern("prefix(?:one|two)", false, false).unwrap();
    assert_eq!(
        literal_alternatives(&hir),
        Some(vec![b"prefixone".to_vec(), b"prefixtwo".to_vec()])
    );
}

#[test]
fn smart_case_only_ignores_case_when_the_literals_have_no_uppercase() {
    let smart = MatcherOptions { smart_case: true, ..MatcherOptions::default() };
    let insensitive = build("needle", smart);
    let sensitive = build("Needle", smart);
    assert!(insensitive.is_match(b"NEEDLE"));
    assert!(!sensitive.is_match(b"needle"));

    let lower_range = build("[a-z]", smart);
    let upper_range = build("[A-Z]", smart);
    assert!(lower_range.is_match(b"A"));
    assert!(!upper_range.is_match(b"a"));
}

#[test]
fn byte_mode_regular_expressions_match_invalid_utf8() {
    let literal = build(r"(?-u:\xFF)", MatcherOptions::default());
    let dot = build(r"(?-u:.)", MatcherOptions::default());
    assert!(literal.is_match(&[0xFF]));
    assert!(dot.is_match(&[0xFF]));
}

#[test]
fn ignore_case_keeps_unicode_case_folding_correct() {
    let matcher = build("k", MatcherOptions { ignore_case: true, ..MatcherOptions::default() });
    assert!(matcher.is_match("\u{212A}".as_bytes()));
}

#[test]
fn word_regexp_uses_half_boundaries_not_plain_word_boundaries() {
    let words = MatcherOptions { word_regexp: true, ..MatcherOptions::default() };
    let matcher = build("-2", words);
    assert!(matcher.is_match(b"(-2)"));

    let identifier = build("fastfs", words);
    assert!(identifier.is_match(b"fastfs."));
    assert!(!identifier.is_match(b"fastfs_core"));
    assert!(!identifier.is_match("猫fastfs".as_bytes()));
}

#[test]
fn line_regexp_applies_to_each_line_in_a_block() {
    let matcher = build(
        "needle",
        MatcherOptions { line_regexp: true, word_regexp: true, ..MatcherOptions::default() },
    );
    assert!(matcher.supports_block_search());
    assert_eq!(
        matcher.find_at(b"needlework\nneedle\nneedle!", 0),
        Some(MatchRange { start: 11, end: 17 })
    );
    assert!(matcher.is_match(b"needle"));
    assert!(!matcher.is_match(b"needlework"));
}

#[test]
fn line_anchors_search_the_whole_block_without_crossing_lines() {
    let matcher = build("^needle$", MatcherOptions::default());
    assert!(matcher.supports_block_search());
    assert_eq!(
        matcher.find_at(b"prefix\nneedle\nsuffix", 0),
        Some(MatchRange { start: 7, end: 13 })
    );
}

#[test]
fn text_anchors_preserve_file_boundaries_in_block_search() {
    let matcher = build("\\Aneedle", MatcherOptions::default());
    assert!(LineMatcher::supports_block_search(&matcher));
    assert_eq!(matcher.find_at(b"prefix\nneedle", 0), None);
    assert_eq!(
        matcher.find_at(b"needle\nneedle", 0),
        Some(MatchRange { start: 0, end: 6 })
    );
    assert_eq!(matcher.find_at(b"needle\nneedle", 7), None);
}

#[test]
fn explicit_line_feeds_are_rejected_but_classes_keep_other_whitespace() {
    assert!(NativeMatcher::build("needle\\nnext", MatcherOptions::default()).is_err());
    let whitespace = build("[\\n ]", MatcherOptions::default());
    assert!(whitespace.is_match(b" "));
    assert!(!whitespace.is_match(b"\n"));
    let any_space = build("\\s", MatcherOptions::default());
    assert!(any_space.is_match(b"\t"));
    assert!(!any_space.is_match(b"\n"));
}

#[test]
fn explicit_binary_literals_and_ranges_require_text_mode() {
    assert!(NativeMatcher::build("\\x00", MatcherOptions::default()).is_err());
    assert!(NativeMatcher::build("[\\x00-\\x03]", MatcherOptions::default()).is_err());
    assert!(NativeMatcher::build(".", MatcherOptions::default()).is_ok());
    assert!(NativeMatcher::build("[^\\x00]", MatcherOptions::default()).is_ok());
    let matcher = build("\\x00", MatcherOptions { text: true, ..MatcherOptions::default() });
    assert_eq!(matcher.find_at(b"a\0b", 0), Some(MatchRange { start: 1, end: 2 }));
}

#[test]
fn line_regexp_accepts_crlf_without_normalizing_the_input_buffer() {
    let matcher = build("needle", MatcherOptions { line_regexp: true, ..MatcherOptions::default() });
    assert_eq!(
        matcher.find_at(b"needle\r\nother", 0),
        Some(MatchRange { start: 0, end: 7 })
    );
}

#[test]
fn invalid_regular_expression_returns_a_build_error() {
    assert!(NativeMatcher::build("(", MatcherOptions::default()).is_err());
}

fn message(result: Result<NativeMatcher, MatcherError>) -> String {
    match result {
        Ok(_) => panic!("a pattern was accepted"),
        Err(error) => error.message,
    }
}

#[test]
fn refused_patterns_say_why() {
    assert_eq!(
        message(NativeMatcher::build("a\\nb", MatcherOptions::default())),
        "FastFs rg の行検索では改行を明示したパターンは使用できません"
    );
    assert_eq!(
        message(NativeMatcher::build("\\x00", MatcherOptions::default())),
        "NUL バイトを明示的に要求するパターンには --text が必要です"
    );
    let unclosed = message(NativeMatcher::build("(", MatcherOptions::default()));
    assert!(unclosed.contains("unclosed group"), "{}", unclosed);
    let fixed = MatcherOptions { fixed_strings: true, ..MatcherOptions::default() };
    assert!(NativeMatcher::build("a\0b", fixed).is_err());
    assert!(NativeMatcher::build("(", fixed).is_ok());
}

#[test]
fn single_literal_is_found_from_a_place_on() {
    let matcher = build("ab", MatcherOptions::default());
    assert!(matches!(&matcher, NativeMatcher::Literal(_)));
    assert_eq!(matcher.find_at(b"abab", 0), Some(MatchRange { start: 0, end: 2 }));
    assert_eq!(matcher.find_at(b"abab", 1), Some(MatchRange { start: 2, end: 4 }));
    assert_eq!(matcher.find_at(b"abab", 3), None);
    assert_eq!(matcher.find_at(b"abab", 4), None);
    assert_eq!(matcher.find_at(b"abab", 5), None);
}

#[test]
fn earlier_literal_wins_at_one_place() {
    let matcher = build("abc|ab|b", MatcherOptions::default());
    assert_eq!(matcher.find_at(b"xabcd", 0), Some(MatchRange { start: 1, end: 4 }));
    let shorter = build("ab|abc", MatcherOptions::default());
    assert_eq!(shorter.find_at(b"xabcd", 0), Some(MatchRange { start: 1, end: 3 }));
}

#[test]
fn longer_word_is_taken_where_the_shorter_one_goes_on() {
    let words = MatcherOptions { word_regexp: true, ..MatcherOptions::default() };
    let matcher = build("ab|abc", words);
    assert!(matches!(&matcher, NativeMatcher::Literal(_)));
    assert_eq!(matcher.find_at(b"abc", 0), Some(MatchRange { start: 0, end: 3 }));
    assert_eq!(matcher.find_at(b"abcd abc", 0), Some(MatchRange { start: 5, end: 8 }));
    assert_eq!(matcher.find_at(b"ab abc", 0), Some(MatchRange { start: 0, end: 2 }));
    assert_eq!(matcher.find_at(b"ab abc", 1), Some(MatchRange { start: 3, end: 6 }));
    assert_eq!(matcher.find_at(b"abcd", 0), None);
}

#[test]
fn word_search_goes_on_behind_a_rejected_place() {
    let matcher = build("an", MatcherOptions { word_regexp: true, ..MatcherOptions::default() });
    assert_eq!(matcher.find_at(b"banana an.", 0), Some(MatchRange { start: 7, end: 9 }));
    assert_eq!(matcher.find_at(b"banana", 0), None);
    assert_eq!(
        matcher.find_at("éan an".as_bytes(), 0),
        Some(MatchRange { start: 5, end: 7 })
    );
    assert_eq!(matcher.find_at("ané".as_bytes(), 0), None);
    let words = build(
        "an|ban",
        MatcherOptions { word_regexp: true, ..MatcherOptions::default() },
    );
    assert_eq!(words.find_at(b"banana ban", 0), Some(MatchRange { start: 7, end: 10 }));
}

#[test]
fn folded_literals_use_ascii_first_and_the_engine_behind_it() {
    let folding = MatcherOptions { ignore_case: true, ..MatcherOptions::default() };
    let matcher = build("mask", folding);
    assert!(matches!(&matcher, NativeMatcher::Literal(_)));
    assert_eq!(matcher.find_at(b"a MASK", 0), Some(MatchRange { start: 2, end: 6 }));
    assert_eq!(
        matcher.find_at("é mas\u{212A}".as_bytes(), 0),
        Some(MatchRange { start: 3, end: 9 })
    );
    assert_eq!(matcher.find_at("é none".as_bytes(), 0), None);
    let unicode = build("é", folding);
    assert!(matches!(&unicode, NativeMatcher::Regex(_)));
    assert!(unicode.is_match("É".as_bytes()));
    let flagged = build("(?-i)mask", folding);
    assert!(matches!(&flagged, NativeMatcher::Regex(_)));
    assert!(!flagged.is_match(b"MASK"));
    let fixed = build("a.c", MatcherOptions { fixed_strings: true, ..folding });
    assert!(fixed.is_match(b"xA.Cx"));
    assert!(!fixed.is_match(b"abc"));
}

#[test]
fn folded_search_takes_the_earlier_match_of_the_two_engines() {
    let folding = MatcherOptions { ignore_case: true, ..MatcherOptions::default() };
    let matcher = build("abk|b", folding);
    assert!(matches!(&matcher, NativeMatcher::Literal(_)));
    assert_eq!(
        matcher.find_at("ab\u{212A}".as_bytes(), 0),
        Some(MatchRange { start: 0, end: 5 })
    );
    assert_eq!(
        matcher.find_at("B ab\u{212A}".as_bytes(), 0),
        Some(MatchRange { start: 0, end: 1 })
    );
    assert_eq!(
        matcher.find_at("B ab\u{212A}".as_bytes(), 1),
        Some(MatchRange { start: 2, end: 7 })
    );
    assert_eq!(matcher.find_at(b"aABK", 0), Some(MatchRange { start: 1, end: 4 }));
}

#[test]
fn lines_with_nul_match_only_as_text() {
    let matcher = build("a", MatcherOptions::default());
    assert!(matcher.binary_detection_enabled());
    assert!(matcher.is_match(b"a"));
    assert!(!matcher.is_match(b"a\0"));
    let text = build("a", MatcherOptions { text: true, ..MatcherOptions::default() });
    assert!(!text.binary_detection_enabled());
    assert!(text.is_match(b"a\0"));
    assert!(LineMatcher::is_match(&text, b"a\0"));
    assert_eq!(LineMatcher::find_at(&text, b"xa", 0), Some(MatchRange { start: 1, end: 2 }));
}

#[test]
fn smart_case_is_one_of_the_two_plain_choices() {
    let smart = MatcherOptions { smart_case: true, ..MatcherOptions::default() };
    let folding = MatcherOptions { ignore_case: true, ..MatcherOptions::default() };
    for line in [&b"foo"[..], b"FOO", b"Foo", b"bar"] {
        assert_eq!(build("foo", smart).is_match(line), build("foo", folding).is_match(line));
        assert_eq!(
            build("Foo", smart).is_match(line),
            build("Foo", MatcherOptions::default()).is_match(line)
        );
    }
    let digits = build("12", smart);
    assert!(digits.is_match(b"312"));
}

#[test]
fn case_of_a_pattern_is_read_from_its_literals() {
    assert_eq!(is_lower_case_only("abc", false).ok(), Some(true));
    assert_eq!(is_lower_case_only("aBc", false).ok(), Some(false));
    assert_eq!(is_lower_case_only("\\S+", false).ok(), Some(false));
    assert_eq!(is_lower_case_only("\\Sx", false).ok(), Some(true));
    assert_eq!(is_lower_case_only("[a-Z]", true).ok(), Some(false));
    assert_eq!(is_lower_case_only("", true).ok(), Some(false));
    assert_eq!(is_lower_case_only("é", true).ok(), Some(true));
    assert_eq!(is_lower_case_only("É", true).ok(), Some(false));
    assert!(is_lower_case_only("(", false).is_err());
    assert!(is_lower_case_only("(", true).is_ok());

    let mut analysis = LiteralCaseAnalysis { has_literal: false, has_uppercase: false };
    analyse_literal_text("", &mut analysis);
    assert!(!analysis.has_literal);
    analyse_literal_char('a', &mut analysis);
    assert!(analysis.has_literal && !analysis.has_uppercase);
    let brackets = AstExpr::Many(vec![
        AstExpr::Other,
        AstExpr::Inner(Box::new(AstExpr::Bracketed {
            negated: true,
            set: Box::new(SetExpr::Operation(
                Box::new(SetExpr::Item(Box::new(ItemExpr::Literal('b')))),
                Box::new(SetExpr::Item(Box::new(ItemExpr::Range('c', 'Z')))),
            )),
        })),
    ]);
    analyse_ast_literals(&brackets, &mut analysis);
    assert!(analysis.has_uppercase);
}

#[test]
fn nul_counts_only_where_it_is_written_out() {
    for pattern in ["\\x00", "a|\\x00", "(\\x00)+", "[a\\x00]", "[\\x00-a]", "[[\\x00]&&a]"] {
        assert_eq!(pattern_explicitly_mentions_nul(pattern, false).ok(), Some(true), "{}", pattern);
    }
    for pattern in [".", "[^\\x00]", "\\s", "a", "[\\x01-a]"] {
        assert_eq!(pattern_explicitly_mentions_nul(pattern, false).ok(), Some(false), "{}", pattern);
    }
    assert!(pattern_explicitly_mentions_nul("(", false).is_err());
    assert_eq!(pattern_explicitly_mentions_nul("(", true).ok(), Some(false));
    assert_eq!(pattern_explicitly_mentions_nul("\0", true).ok(), Some(true));
    assert!(!ast_mentions_nul(&AstExpr::Bracketed {
        negated: true,
        set: Box::new(SetExpr::Item(Box::new(ItemExpr::Literal('\0')))),
    }));
    assert!(ast_mentions_nul(&AstExpr::Bracketed {
        negated: false,
        set: Box::new(SetExpr::Item(Box::new(ItemExpr::Union(vec![
            ItemExpr::Other,
            ItemExpr::Literal('\0'),
        ])))),
    }));
}

#[test]
fn line_feeds_leave_classes_and_are_refused_in_literals() {
    assert_eq!(
        strip_line_feed_from_chars(&[('\0', '\u{10FFFF}')]),
        vec![('\0', '\t'), ('\u{b}', '\u{10FFFF}')]
    );
    assert_eq!(strip_line_feed_from_chars(&[('\n', '\n')]), vec![]);
    assert_eq!(strip_line_feed_from_chars(&[('a', 'z')]), vec![('a', 'z')]);
    assert_eq!(strip_line_feed_from_bytes(&[(0, 255)]), vec![(0, 9), (11, 255)]);
    assert_eq!(strip_line_feed_from_bytes(&[(10, 12)]), vec![(11, 12)]);
    assert!(strip_line_feed(&Expr::Literal(b"a\n".to_vec())).is_err());
    assert!(matches!(
        strip_line_feed(&Expr::Concat(vec![Expr::Look(4), Expr::Literal(b"a".to_vec())])),
        Ok(Expr::Concat(_))
    ));
    assert!(strip_line_feed(&Expr::Repetition {
        min: 0,
        max: None,
        greedy: true,
        sub: Box::new(Expr::Capture {
            index: 1,
            name: None,
            sub: Box::new(Expr::Literal(b"\n".to_vec())),
        }),
    })
    .is_err());
}

#[test]
fn literals_are_the_words_of_a_pattern() {
    let list = |pattern: &str| {
        parse_pattern(pattern, false, false).ok().and_then(|expr| literal_alternatives(&expr))
    };
    assert_eq!(list("a"), Some(vec![b"a".to_vec()]));
    assert_eq!(list(""), Some(vec![b"".to_vec()]));
    assert_eq!(
        list("(ab|xyz)(c|de)"),
        Some(vec![
            b"abc".to_vec(),
            b"abde".to_vec(),
            b"xyzc".to_vec(),
            b"xyzde".to_vec(),
        ])
    );
    assert_eq!(list("a+"), None);
    assert_eq!(list("^a"), None);
    assert_eq!(list("[ab]"), None);
    assert_eq!(list("é"), Some(vec!["é".as_bytes().to_vec()]));
    assert_eq!(
        literal_alternatives(&Expr::Unicode(vec![('é', 'é')])),
        Some(vec!["é".as_bytes().to_vec()])
    );
    assert_eq!(literal_alternatives(&Expr::Bytes(vec![(7, 7)])), Some(vec![vec![7]]));
    assert_eq!(literal_alternatives(&Expr::Bytes(vec![(7, 8)])), None);
    let many: Vec<Expr> = (0..129).map(|_| Expr::Literal(b"a".to_vec())).collect();
    assert_eq!(literal_alternatives(&Expr::Alternation(many)), None);
    let pair = || Expr::Alternation(vec![Expr::Literal(b"a".to_vec()), Expr::Empty]);
    let seven: Vec<Expr> = (0..7).map(|_| pair()).collect();
    assert_eq!(literal_alternatives(&Expr::Concat(seven)).map(|all| all.len()), Some(128));
    let eight: Vec<Expr> = (0..8).map(|_| pair()).collect();
    assert_eq!(literal_alternatives(&Expr::Concat(eight)), None);
    let long = Expr::Concat(vec![
        Expr::Literal(vec![b'a'; 8192]),
        Expr::Literal(b"b".to_vec()),
    ]);
    assert_eq!(literal_alternatives(&long), None);
}

#[test]
fn fast_literals_are_few_short_and_not_empty() {
    assert!(!literals_are_fast(&[]));
    assert!(!literals_are_fast(&[vec![]]));
    assert!(literals_are_fast(&[vec![1]]));
    assert!(literals_are_fast(&[vec![1; 8192]]));
    assert!(!literals_are_fast(&[vec![1; 8193]]));
    assert!(literals_are_fast(&vec![vec![1]; 128]));
    assert!(!literals_are_fast(&vec![vec![1]; 129]));
}

#[test]
fn widths_come_from_the_first_byte() {
    let widths: Vec<usize> = [0x00, 0x7f, 0x80, 0xc1, 0xc2, 0xdf, 0xe0, 0xef, 0xf0, 0xf4, 0xf5]
        .map(utf8_width)
        .to_vec();
    assert_eq!(widths, [1, 1, 1, 1, 2, 2, 3, 3, 4, 4, 1]);
}
