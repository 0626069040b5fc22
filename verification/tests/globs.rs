//! Patterns for paths, rules of ignore files, and what both rest on.

use std::collections::HashMap;

use fastfs::braces::{
    contains_unescaped_comma, expand_braces, find_expandable_brace, parse_user_glob,
    split_brace_parts, validate_user_glob,
};
use fastfs::chars::{
    chars_equal, decimal_text, ends_with, find_char, is_white_space, lines_of, parse_number,
    same_text, starts_with, text_of, to_chars, trim,
};
use fastfs::git::{
    config_candidates, default_ignore_place, expand_git_path, first_global_exclude, git_common_dir,
    gitdir_target, global_exclude_files, load_global_rule_templates, parse_global_exclude_file,
    ConfigPlace, GitPath, GlobalExclude, IgnorePlace,
};
use fastfs::glob::{
    glob_requires_general_engine, is_escaped_at, CompiledGlob, GlobError, GlobFault,
    MAX_BRACE_EXPANSIONS,
};
use fastfs::glob_engine::{glob_bytes_match, glob_matches, glob_matches_from};
use fastfs::ignore::{
    ignore_layer_from_bytes, parse_ignore_line, parse_ignore_templates, strip_unescaped_suffix,
    trim_unescaped_trailing_spaces, IgnoreDecision, RuleChain,
};
use fastfs::path::{
    absolute_path_from, file_name_text, is_hidden_path, lexical_normalize, os_strings_equal,
    path_starts_with, paths_equal, relative_slash_path, PathComponent, PathName,
};
use fastfs::platform::{fold_ascii, Platform};
use fastfs::text::{
    byte_strings_equal, contains_byte, copy_bytes, equal_ignoring_case, path_text, split_lines,
    strip_carriage_return,
};
use fastfs::user_globs::{GlobDecision, UserGlobSet};

fn matches_glob(pattern: &str, text: &str) -> bool {
    glob_matches(pattern, text, Platform::Other)
}

#[test]
fn glob_engine_handles_recursive_and_class_patterns() {
    assert!(matches_glob("src/**/lib?.[rs]", "src/a/b/libx.r"));
    assert!(matches_glob("**/*.txt", "note.txt"));
    assert!(matches_glob("**/*.txt", "nested/note.txt"));
    assert!(!matches_glob("*.txt", "nested/note.txt"));
    assert!(matches_glob("*資料.txt", "日本語資料.txt"));
    assert!(matches_glob(&"*a".repeat(32), &"a".repeat(96)));
    assert!(parse_user_glob("*.rs").is_ok());
    assert!(parse_user_glob("[unterminated").is_err());
    assert!(parse_user_glob(&format!("{}*", "a".repeat(2048))).is_ok());
    assert!(parse_user_glob(&"**".repeat(513)).is_err());
}

#[test]
fn brace_expansion_is_bounded() {
    let too_many = format!(
        "{{{}}}",
        (0..=MAX_BRACE_EXPANSIONS).map(|index| index.to_string()).collect::<Vec<_>>().join(",")
    );
    assert!(parse_user_glob(&too_many).is_err());
    assert_eq!(
        expand_braces(b"a{b,c{d,e}}f", "").ok().unwrap(),
        [b"abf".to_vec(), b"acdf".to_vec(), b"abf".to_vec(), b"acef".to_vec()]
    );
    assert_eq!(expand_braces(b"plain", "").ok().unwrap(), [b"plain".to_vec()]);
    assert_eq!(split_brace_parts(b"a,b,\\,d"), [b"a".to_vec(), b"b".to_vec(), b"\\,d".to_vec()]);
    assert!(contains_unescaped_comma(b"a,b"));
    assert!(!contains_unescaped_comma(b"a\\,b"));
    assert_eq!(find_expandable_brace(b"x{a,b}", "").ok().unwrap(), Some((1, 5)));
    assert_eq!(find_expandable_brace(b"x{a}", "").ok().unwrap(), None);
}

#[test]
fn each_fault_of_a_glob_has_a_message() {
    let faults = [
        GlobFault::Empty,
        GlobFault::TooLong,
        GlobFault::EmptyPattern,
        GlobFault::Nul,
        GlobFault::TooComplex,
        GlobFault::UnclosedClass,
        GlobFault::UnmatchedBrace,
        GlobFault::UnclosedBrace,
        GlobFault::TooManyExpansions,
    ];
    let mut messages: Vec<String> =
        faults.iter().map(|fault| GlobError::fault(*fault, "p").message).collect();
    messages.sort();
    messages.dedup();
    assert_eq!(messages.len(), faults.len());
    let message = |glob: &str| match parse_user_glob(glob) {
        Ok(_) => panic!("{} was accepted", glob),
        Err(error) => error.message,
    };
    let expect = |glob: &str, fault: GlobFault| {
        assert_eq!(message(glob), GlobError::fault(fault, glob).message, "{}", glob);
    };
    expect("", GlobFault::Empty);
    expect(&"a".repeat(16_385), GlobFault::TooLong);
    expect("!", GlobFault::EmptyPattern);
    expect("a\0", GlobFault::Nul);
    expect(&"**".repeat(513), GlobFault::TooComplex);
    expect("[a", GlobFault::UnclosedClass);
    expect("a}", GlobFault::UnmatchedBrace);
    expect("{a", GlobFault::UnclosedBrace);
    assert!(validate_user_glob(b"*.rs", "*.rs").is_ok());
}

#[test]
fn fast_paths_agree_with_the_engine() {
    for (pattern, text, expected) in [
        ("abc", "abc", true),
        ("abc", "abcd", false),
        ("*.rs", "lib.rs", true),
        ("*.rs", "a/lib.rs", false),
        ("lib*", "library", true),
        ("l*b", "lb", true),
        ("a?c", "abc", true),
    ] {
        let glob = CompiledGlob::new(pattern.as_bytes(), true);
        assert_eq!(glob.matches(text, Platform::Other), expected, "{} {}", pattern, text);
        assert_eq!(matches_glob(pattern, text), expected, "{} {}", pattern, text);
    }
    assert!(glob_matches("*.RS", "lib.rs", Platform::Windows));
    assert!(!glob_matches("*.RS", "lib.rs", Platform::Other));
    assert_eq!(fold_ascii(b'A', Platform::Windows), b'a');
    assert_eq!(fold_ascii(b'A', Platform::Other), b'A');
    assert!(glob_requires_general_engine(b"a?b"));
    assert!(!glob_requires_general_engine(b"ab"));
    assert!(is_escaped_at(b"\\a", 1) && !is_escaped_at(b"\\\\a", 2));
}

fn components(path: &str) -> Vec<PathComponent> {
    let mut result = Vec::new();
    if path.starts_with('/') {
        result.push(PathComponent::RootDir);
    }
    for name in path.split('/').filter(|name| !name.is_empty()) {
        result.push(match name {
            "." => PathComponent::CurDir,
            ".." => PathComponent::ParentDir,
            _ => PathComponent::Normal(name_of(name)),
        });
    }
    result
}

fn name_of(name: &str) -> PathName {
    PathName { raw: name.as_bytes().to_vec(), text: name.to_string(), utf8: true }
}

#[test]
fn last_rule_decides_for_user_globs() {
    let set = UserGlobSet::parse(&["*.rs".to_string(), "!lib.rs".to_string()]).ok().unwrap();
    let decide = |path: &str| {
        set.decision(&components(path), &components("/r"), &components("/r"), Platform::Other)
    };
    assert_eq!(decide("/r/main.rs"), GlobDecision::Include);
    assert_eq!(decide("/r/lib.rs"), GlobDecision::Exclude);
    assert_eq!(decide("/r/x.txt"), GlobDecision::Unmatched);
    assert!(set.has_include);
}

#[test]
fn lines_of_ignore_files_are_rules() {
    assert!(parse_ignore_line(b"# comment").is_none());
    assert!(parse_ignore_line(b"").is_none());
    let negated = parse_ignore_line(b"!keep/").unwrap();
    assert!(negated.includes && negated.directory_only);
    assert_eq!(trim_unescaped_trailing_spaces(b"a  "), b"a");
    assert_eq!(trim_unescaped_trailing_spaces(b"a\\ "), b"a\\ ");
    assert_eq!(strip_unescaped_suffix(b"a/", b'/'), (true, &b"a"[..]));
    assert_eq!(strip_unescaped_suffix(b"a\\/", b'/'), (false, &b"a\\/"[..]));
    assert_eq!(parse_ignore_templates("a\n#b\n\nc\n").len(), 2);
    assert_eq!(load_global_rule_templates(&[None, Some(b"x\ny\n".to_vec())]).len(), 2);
}

#[test]
fn rules_of_a_chain_decide_in_order() {
    let outer = ignore_layer_from_bytes(b"*.log\nbuild/\n", components("/r")).unwrap();
    let inner = ignore_layer_from_bytes(b"!keep.log\n", components("/r/a")).unwrap();
    let chain = RuleChain::empty().extend(outer).extend(inner);
    let decide = |path: &str, directory: bool| {
        chain.decision(&components(path), directory, Platform::Other)
    };
    assert_eq!(decide("/r/a/drop.log", false), IgnoreDecision::Ignore);
    assert_eq!(decide("/r/a/keep.log", false), IgnoreDecision::Include);
    assert_eq!(decide("/r/keep.log", false), IgnoreDecision::Ignore);
    assert_eq!(decide("/r/x.txt", false), IgnoreDecision::NoMatch);
    assert!(chain.is_ignored(&components("/r/build"), true, Platform::Other));
    assert!(!chain.is_ignored(&components("/r/build"), false, Platform::Other));
    assert!(chain.may_include_descendant());
    assert!(ignore_layer_from_bytes(b"# nothing\n", components("/r")).is_none());
}

#[test]
fn git_files_are_read_for_what_they_name() {
    assert_eq!(
        parse_global_exclude_file("[core]\n\texcludesFile = \"~/x\"\n"),
        Some("~/x".to_string())
    );
    assert_eq!(parse_global_exclude_file("[user]\nexcludesfile = y\n"), None);
    assert!(matches!(expand_git_path("~/x", true, false), GitPath::Home(rest) if rest == "x"));
    assert!(matches!(expand_git_path("/x", true, true), GitPath::Absolute));
    assert!(matches!(expand_git_path("x", true, false), GitPath::BesideConfig));
    assert_eq!(gitdir_target("gitdir: ../g\n"), Some("../g".to_string()));
    assert_eq!(gitdir_target("other"), None);
    assert_eq!(git_common_dir(" ../c \n"), Some("../c".to_string()));
    assert_eq!(git_common_dir("\n"), None);
    assert_eq!(config_candidates(true, false, false), [ConfigPlace::Named]);
    assert_eq!(default_ignore_place(true, true), Some(IgnorePlace::ConfigHome));
    assert_eq!(default_ignore_place(true, false), Some(IgnorePlace::HomeConfig));
    assert_eq!(default_ignore_place(false, false), None);
}

#[test]
fn paths_are_compared_by_components() {
    assert!(path_starts_with(&components("/a/b"), &components("/a")));
    assert!(!path_starts_with(&components("/ab"), &components("/a")));
    assert!(paths_equal(&components("/a/b"), &components("/a//b")));
    assert!(is_hidden_path(&components("/a/.b")) && !is_hidden_path(&components("/.a/b")));
    assert_eq!(file_name_text(&components("/a/b")), Some("b"));
    assert_eq!(
        relative_slash_path(&components("/a"), &components("/a/b/c"), Platform::Other),
        Some("b/c".to_string())
    );
    assert_eq!(
        relative_slash_path(&components("/a/x"), &components("/a/b"), Platform::Other),
        Some("../b".to_string())
    );
    let normal = lexical_normalize(&components("/a/./b/../c"));
    assert!(paths_equal(&normal, &components("/a/c")));
    assert!(paths_equal(&lexical_normalize(&normal), &normal));
    assert!(paths_equal(
        &absolute_path_from(&components("/a"), &components("../b")),
        &components("/b")
    ));
    assert!(os_strings_equal(&name_of("A"), &name_of("a"), Platform::Windows));
    assert!(!os_strings_equal(&name_of("A"), &name_of("a"), Platform::Other));
}

#[test]
fn texts_are_taken_apart() {
    assert_eq!(text_of(&to_chars("héé")), "héé");
    assert!(chars_equal(&['a'], &['a']) && !chars_equal(&['a'], &['b']));
    assert!(same_text("a", "a") && !same_text("a", "ab"));
    assert!(is_white_space('\u{3000}') && is_white_space('\t') && !is_white_space('x'));
    assert_eq!(trim(&to_chars(" a ")), ['a']);
    assert_eq!(find_char(&to_chars("abc"), 'c', 0), 2);
    assert_eq!(parse_number(&to_chars("12"), 20), Some(12));
    assert_eq!(parse_number(&to_chars("21"), 20), None);
    assert_eq!(parse_number(&to_chars("1x"), 20), None);
    assert_eq!(parse_number(&to_chars(""), 20), None);
    assert_eq!(decimal_text(0), "0");
    assert_eq!(decimal_text(1234567890), "1234567890");
    assert_eq!(parse_number(&to_chars(&decimal_text(u64::MAX)), u64::MAX), Some(u64::MAX));
    assert!(starts_with(&to_chars("abc"), &to_chars("ab")));
    assert!(ends_with(&to_chars("abc"), &to_chars("bc")));
    assert_eq!(lines_of(&to_chars("a\r\nb")), [vec!['a'], vec!['b']]);
    assert_eq!(split_lines(b"a\r\nb\n"), [b"a".to_vec(), b"b".to_vec()]);
    assert_eq!(strip_carriage_return(b"a\r"), b"a");
    assert!(contains_byte(b"abc", b'c') && !contains_byte(b"abc", b'd'));
    assert!(equal_ignoring_case("AbC", "aBc") && !equal_ignoring_case("é", "É"));
    assert!(byte_strings_equal(b"a", b"a") && !byte_strings_equal(b"a", b"b"));
    assert_eq!(copy_bytes(b"ab"), b"ab");
}

#[test]
fn all_exclude_files_of_configurations_are_read() {
    let default = Some(IgnorePlace::HomeConfig);
    assert_eq!(
        global_exclude_files(&[true, false, true], default),
        [GlobalExclude::Named(0), GlobalExclude::Named(2)]
    );
    assert_eq!(
        global_exclude_files(&[false, false], default),
        [GlobalExclude::Default(IgnorePlace::HomeConfig)]
    );
    assert!(global_exclude_files(&[false], None).is_empty());
    assert_eq!(first_global_exclude(&[false, true], default), Some(GlobalExclude::Named(1)));
    assert_eq!(first_global_exclude(&[], None), None);
}

#[test]
fn only_the_rest_counts_and_records_are_right() {
    let pattern = b"x*/[a-c]?**/d*e\\f";
    let text = b"xyz/ab/q/dd/e/de f/deef";
    for p in 0..=pattern.len() {
        for t in 0..=text.len() {
            let mut memo: HashMap<u128, bool> = HashMap::new();
            let from = glob_matches_from(pattern, text, p, t, &mut memo, Platform::Other);
            assert_eq!(from, glob_bytes_match(&pattern[p..], &text[t..], Platform::Other));
            let width = text.len() as u128 + 1;
            for (key, matched) in &memo {
                let (q, s) = ((key / width) as usize, (key % width) as usize);
                let mut fresh: HashMap<u128, bool> = HashMap::new();
                assert_eq!(
                    *matched,
                    glob_matches_from(pattern, text, q, s, &mut fresh, Platform::Other)
                );
            }
        }
    }
}

#[test]
fn parts_of_braces_joined_by_commas_are_what_was_split() {
    for value in [&b"a,b,c"[..], b"", b",", b"a\\,b,,\\\\,c"] {
        assert_eq!(split_brace_parts(value).join(&b","[..]), value);
    }
}

#[test]
fn innermost_braces_are_expanded_first() {
    assert_eq!(find_expandable_brace(b"a{b,c{d,e}}f", "").ok().unwrap(), Some((5, 9)));
    assert_eq!(find_expandable_brace(b"{a{b},c}", "").ok().unwrap(), Some((0, 7)));
    assert_eq!(find_expandable_brace(b"\\{a,b\\}", "").ok().unwrap(), None);
}

#[test]
fn values_of_user_globs_follow_one_another() {
    let strings = |values: &[&str]| values.iter().map(|value| value.to_string()).collect::<Vec<_>>();
    let set = |values: &[&str]| UserGlobSet::parse(&strings(values)).ok().unwrap();
    let decide = |set: &UserGlobSet, path: &str| {
        set.decision(&components(path), &components("/r"), &components("/r"), Platform::Other)
    };
    let first = set(&["!*.rs", "!lib.rs"]);
    let second = set(&["lib.rs"]);
    let both = set(&["!*.rs", "!lib.rs", "lib.rs"]);
    assert!(!first.has_include);
    assert!(second.has_include);
    assert!(both.has_include);
    assert_eq!(both.rules.len(), first.rules.len() + second.rules.len());
    assert_eq!(decide(&both, "/r/lib.rs"), decide(&second, "/r/lib.rs"));
    assert_eq!(decide(&both, "/r/main.rs"), decide(&first, "/r/main.rs"));
    assert_eq!(decide(&both, "/r/lib.rs"), GlobDecision::Include);
    assert_eq!(decide(&both, "/r/main.rs"), GlobDecision::Exclude);
}

#[test]
fn half_of_a_surrogate_pair_is_one_replacement_character_on_windows() {
    assert_eq!(path_text(b"a\xed\xa0\x80b", Platform::Windows), "a\u{FFFD}b");
    assert_eq!(
        path_text(b"a\xed\xa0\x80b", Platform::Other),
        "a\u{FFFD}\u{FFFD}\u{FFFD}b"
    );
    assert_eq!(path_text("\u{D7FF}é".as_bytes(), Platform::Windows), "\u{D7FF}é");
    assert_eq!(path_text(b"a\xff", Platform::Other), "a\u{FFFD}");
}
