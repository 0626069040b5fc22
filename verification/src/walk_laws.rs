//! Which files a walk finds: what patterns, ignore rules and hidden names have to say.

use vstd::prelude::*;
use vstd::utf8::*;
use crate::glob;
use crate::glob::GlobModel;
use crate::glob_meaning;
use crate::ignore;
use crate::ignore::{ChainModel, IgnoreDecision, LayerModel, RuleModel};
use crate::path;
use crate::path::PathPart;
use crate::platform;
use crate::platform::Platform;
use crate::user_globs;
use crate::user_globs::{GlobDecision, UserRuleModel};
use crate::walk;
use crate::walk::WalkRules;

verus! {

/// Whether the last name of a path is text that starts with a dot.
pub open spec fn has_dot_name(path: Seq<PathPart>) -> bool {
    path.len() > 0 && (path.last() matches PathPart::Normal(name) && name.utf8 && name.text.len()
        > 0 && name.text[0] == '.')
}

proof fn lemma_dot_byte(letter: char)
    ensures
        encode_scalar(letter as u32).len() > 0,
        (encode_scalar(letter as u32)[0] == '.' as int) == (letter == '.'),
{
    let scalar = letter as u32;
    char_is_scalar(letter);
    assert(scalar <= 0x7f ==> (scalar & 0x7f) as u8 == scalar) by (bit_vector);
    assert((0xc0u8 | ((scalar >> 6) & 0x1f) as u8) != 0x2eu8) by (bit_vector);
    assert((0xe0u8 | ((scalar >> 12) & 0x0f) as u8) != 0x2eu8) by (bit_vector);
    assert((0xf0u8 | ((scalar >> 18) & 0x7) as u8) != 0x2eu8) by (bit_vector);
}

proof fn lemma_dot_text(text: Seq<char>)
    ensures
        path::starts_with_dot(encode_utf8(text)) == (text.len() > 0 && text[0] == '.'),
{
    if text.len() > 0 {
        let letter: char = text[0];
        lemma_dot_byte(letter);
        let first = encode_scalar(letter as u32);
        assert(encode_utf8(text) == first + encode_utf8(text.drop_first()));
        assert(encode_utf8(text)[0] == first[0]);
    }
}

/// A path is hidden where its last name is text that starts with a dot; the names above it do not count.
pub proof fn hidden_is_a_dot_in_the_last_name(path: Seq<PathPart>)
    ensures
        path::hidden(path) == has_dot_name(path),
{
    if path.len() > 0 {
        if let PathPart::Normal(name) = path.last() {
            lemma_dot_text(name.text);
        }
    }
}

/// What a pattern of the command line says of a file decides. A file that none matches is left out where
/// some pattern includes files, where the ignore rules say to ignore it, whether hidden names are asked for
/// or not, and where its name is hidden and hidden names are not asked for; it is found otherwise.
pub proof fn file_is_found_unless_kept_out(
    rules: WalkRules,
    chain: ChainModel,
    root_base: Seq<PathPart>,
    path: Seq<PathPart>,
)
    ensures
        ({
            let asked = user_globs::user_decision(
                rules.platform,
                rules.globs.rules,
                path,
                rules.current_dir,
                root_base,
            );
            let ignored = ignore::chain_decision(rules.platform, chain, path, false)
                == IgnoreDecision::Ignore;
            let found = walk::emits_file(rules, chain, root_base, path);
            &&& asked == GlobDecision::Include ==> found
            &&& asked == GlobDecision::Exclude ==> !found
            &&& asked == GlobDecision::Unmatched && ignored ==> !found
            &&& asked == GlobDecision::Unmatched && rules.globs.has_include ==> !found
            &&& asked == GlobDecision::Unmatched && has_dot_name(path) && !rules.hidden ==> !found
            &&& asked == GlobDecision::Unmatched && !ignored && !rules.globs.has_include && (
            rules.hidden || !has_dot_name(path)) ==> found
        }),
{
    hidden_is_a_dot_in_the_last_name(path);
}

/// Asking for hidden names only adds files, and only hidden ones.
pub proof fn hidden_option_adds_hidden_files(
    rules: WalkRules,
    chain: ChainModel,
    root_base: Seq<PathPart>,
    path: Seq<PathPart>,
)
    ensures
        ({
            let without = WalkRules { hidden: false, ..rules };
            let with = WalkRules { hidden: true, ..rules };
            let before = walk::emits_file(without, chain, root_base, path);
            let after = walk::emits_file(with, chain, root_base, path);
            &&& before ==> after
            &&& after && !before ==> has_dot_name(path)
            &&& walk::descends(without, chain, root_base, path) ==> walk::descends(
                with,
                chain,
                root_base,
                path,
            )
            &&& walk::descends(with, chain, root_base, path) && !walk::descends(
                without,
                chain,
                root_base,
                path,
            ) ==> has_dot_name(path)
        }),
{
    hidden_is_a_dot_in_the_last_name(path);
}

/// A directory that a pattern of the command line matches is gone into as that pattern says. One that none
/// matches is gone into where some pattern includes files. Otherwise it is not where its name is hidden
/// and hidden names are not asked for, nor where it is ignored and no rule takes anything back in; and it
/// is in all other cases.
pub proof fn directory_is_gone_into_unless_kept_out(
    rules: WalkRules,
    chain: ChainModel,
    root_base: Seq<PathPart>,
    path: Seq<PathPart>,
)
    ensures
        ({
            let asked = user_globs::user_decision(
                rules.platform,
                rules.globs.rules,
                path,
                rules.current_dir,
                root_base,
            );
            let ignored = ignore::chain_decision(rules.platform, chain, path, true)
                == IgnoreDecision::Ignore;
            let taken_back = exists|i: int, j: int|
                0 <= i < chain.layers.len() && 0 <= j < chain.layers[i].rules.len() && (
                #[trigger] chain.layers[i].rules[j]).includes;
            let hidden = has_dot_name(path) && !rules.hidden;
            let gone = walk::descends(rules, chain, root_base, path);
            &&& asked == GlobDecision::Include ==> gone
            &&& asked == GlobDecision::Exclude ==> !gone
            &&& asked == GlobDecision::Unmatched && rules.globs.has_include ==> gone
            &&& asked == GlobDecision::Unmatched && !rules.globs.has_include && hidden ==> !gone
            &&& asked == GlobDecision::Unmatched && !rules.globs.has_include && ignored
                && !taken_back ==> !gone
            &&& asked == GlobDecision::Unmatched && !hidden && (!ignored || taken_back) ==> gone
        }),
{
    hidden_is_a_dot_in_the_last_name(path);
    let taken_back = exists|i: int, j: int|
        0 <= i < chain.layers.len() && 0 <= j < chain.layers[i].rules.len() && (
        #[trigger] chain.layers[i].rules[j]).includes;
    if ignore::some_layer_includes(chain.layers) {
        let i = choose|i: int|
            0 <= i < chain.layers.len() && ignore::some_rule_includes(
                (#[trigger] chain.layers[i]).rules,
            );
        let j = choose|j: int|
            0 <= j < chain.layers[i].rules.len() && (#[trigger] chain.layers[i].rules[j]).includes;
        assert(chain.layers[i].rules[j].includes);
        assert(taken_back);
    }
    if taken_back {
        let (i, j) = choose|i: int, j: int|
            0 <= i < chain.layers.len() && 0 <= j < chain.layers[i].rules.len() && (
            #[trigger] chain.layers[i].rules[j]).includes;
        assert(ignore::some_rule_includes(chain.layers[i].rules));
    }
}

/// Of the patterns of the command line that match a path, the last decides: it includes the path or
/// excludes it. Where none matches, none decides.
pub proof fn last_pattern_that_matches_decides(
    platform: Platform,
    rules: Seq<UserRuleModel>,
    path: Seq<PathPart>,
    current_dir: Seq<PathPart>,
    root_base: Seq<PathPart>,
)
    ensures
        ({
            let decision = user_globs::user_decision(
                platform,
                rules,
                path,
                current_dir,
                root_base,
            );
            &&& decision == GlobDecision::Unmatched <==> forall|i: int|
                0 <= i < rules.len() ==> !user_globs::user_rule_matches(
                    platform,
                    #[trigger] rules[i],
                    path,
                    current_dir,
                    root_base,
                )
            &&& decision != GlobDecision::Unmatched ==> exists|i: int|
                {
                    &&& 0 <= i < rules.len()
                    &&& user_globs::user_rule_matches(
                        platform,
                        #[trigger] rules[i],
                        path,
                        current_dir,
                        root_base,
                    )
                    &&& rules[i].includes == (decision == GlobDecision::Include)
                    &&& forall|j: int|
                        i < j < rules.len() ==> !user_globs::user_rule_matches(
                            platform,
                            #[trigger] rules[j],
                            path,
                            current_dir,
                            root_base,
                        )
                }
        }),
    decreases rules.len(),
{
    if rules.len() > 0 {
        let shorter = rules.drop_last();
        let last = rules.len() - 1;
        last_pattern_that_matches_decides(platform, shorter, path, current_dir, root_base);
        assert(rules[last] == rules.last());
        assert(forall|i: int| 0 <= i < last ==> #[trigger] shorter[i] == rules[i]);
        if !user_globs::user_rule_matches(platform, rules[last], path, current_dir, root_base) {
            let decision = user_globs::user_decision(
                platform,
                rules,
                path,
                current_dir,
                root_base,
            );
            if decision != GlobDecision::Unmatched {
                let i = choose|i: int|
                    {
                        &&& 0 <= i < shorter.len()
                        &&& user_globs::user_rule_matches(
                            platform,
                            #[trigger] shorter[i],
                            path,
                            current_dir,
                            root_base,
                        )
                        &&& shorter[i].includes == (decision == GlobDecision::Include)
                        &&& forall|j: int|
                            i < j < shorter.len() ==> !user_globs::user_rule_matches(
                                platform,
                                #[trigger] shorter[j],
                                path,
                                current_dir,
                                root_base,
                            )
                    };
                assert(rules[i] == shorter[i]);
                assert forall|j: int| i < j < rules.len() implies !user_globs::user_rule_matches(
                    platform,
                    #[trigger] rules[j],
                    path,
                    current_dir,
                    root_base,
                ) by {
                    if j < last {
                        assert(shorter[j] == rules[j]);
                    }
                }
            } else {
                assert forall|i: int| 0 <= i < rules.len() implies !user_globs::user_rule_matches(
                    platform,
                    #[trigger] rules[i],
                    path,
                    current_dir,
                    root_base,
                ) by {
                    if i < last {
                        assert(shorter[i] == rules[i]);
                    }
                }
            }
        }
    }
}

/// Of the rules of an ignore file that apply to a path, the last decides: it takes the path back in or
/// ignores it. Where none applies, the file says nothing.
pub proof fn last_rule_that_applies_decides(
    platform: Platform,
    rules: Seq<RuleModel>,
    base: Seq<PathPart>,
    path: Seq<PathPart>,
    is_directory: bool,
    explicit_root: Option<Seq<PathPart>>,
)
    ensures
        match ignore::rules_decision(platform, rules, base, path, is_directory, explicit_root) {
            None => forall|i: int|
                0 <= i < rules.len() ==> !ignore::rule_applies(
                    platform,
                    #[trigger] rules[i],
                    base,
                    path,
                    is_directory,
                    explicit_root,
                ),
            Some(decision) => {
                &&& decision != IgnoreDecision::NoMatch
                &&& exists|i: int|
                    {
                        &&& 0 <= i < rules.len()
                        &&& ignore::rule_applies(
                            platform,
                            #[trigger] rules[i],
                            base,
                            path,
                            is_directory,
                            explicit_root,
                        )
                        &&& rules[i].includes == (decision == IgnoreDecision::Include)
                        &&& forall|j: int|
                            i < j < rules.len() ==> !ignore::rule_applies(
                                platform,
                                #[trigger] rules[j],
                                base,
                                path,
                                is_directory,
                                explicit_root,
                            )
                    }
            },
        },
    decreases rules.len(),
{
    if rules.len() > 0 {
        let shorter = rules.drop_last();
        let last = rules.len() - 1;
        last_rule_that_applies_decides(
            platform,
            shorter,
            base,
            path,
            is_directory,
            explicit_root,
        );
        assert(rules[last] == rules.last());
        if !ignore::rule_applies(platform, rules[last], base, path, is_directory, explicit_root) {
            match ignore::rules_decision(
                platform,
                shorter,
                base,
                path,
                is_directory,
                explicit_root,
            ) {
                None => {
                    assert forall|i: int| 0 <= i < rules.len() implies !ignore::rule_applies(
                        platform,
                        #[trigger] rules[i],
                        base,
                        path,
                        is_directory,
                        explicit_root,
                    ) by {
                        if i < last {
                            assert(shorter[i] == rules[i]);
                        }
                    }
                },
                Some(decision) => {
                    let i = choose|i: int|
                        {
                            &&& 0 <= i < shorter.len()
                            &&& ignore::rule_applies(
                                platform,
                                #[trigger] shorter[i],
                                base,
                                path,
                                is_directory,
                                explicit_root,
                            )
                            &&& shorter[i].includes == (decision == IgnoreDecision::Include)
                            &&& forall|j: int|
                                i < j < shorter.len() ==> !ignore::rule_applies(
                                    platform,
                                    #[trigger] shorter[j],
                                    base,
                                    path,
                                    is_directory,
                                    explicit_root,
                                )
                        };
                    assert(rules[i] == shorter[i]);
                    assert forall|j: int| i < j < rules.len() implies !ignore::rule_applies(
                        platform,
                        #[trigger] rules[j],
                        base,
                        path,
                        is_directory,
                        explicit_root,
                    ) by {
                        if j < last {
                            assert(shorter[j] == rules[j]);
                        }
                    }
                },
            }
        }
    }
}

/// An inner ignore file decides before the outer ones, where it speaks of the path at all: it speaks only
/// of what lies in its directory. Where no file says anything, nothing is ignored.
pub proof fn inner_file_decides_first(
    platform: Platform,
    outer: Seq<LayerModel>,
    inner: LayerModel,
    path: Seq<PathPart>,
    is_directory: bool,
    explicit_root: Option<Seq<PathPart>>,
)
    ensures
        ({
            let said = ignore::rules_decision(
                platform,
                inner.rules,
                inner.base,
                path,
                is_directory,
                explicit_root,
            );
            let chain = ChainModel { layers: outer.push(inner), explicit_root };
            ignore::chain_decision(platform, chain, path, is_directory) == if path::path_below(
                path,
                inner.base,
            ) && said is Some {
                said->0
            } else {
                ignore::chain_decision(
                    platform,
                    ChainModel { layers: outer, explicit_root },
                    path,
                    is_directory,
                )
            }
        }),
        ignore::chain_decision(
            platform,
            ChainModel { layers: Seq::empty(), explicit_root },
            path,
            is_directory,
        ) == IgnoreDecision::NoMatch,
{
    assert(outer.push(inner).drop_last() =~= outer);
}

proof fn lemma_above(
    platform: Platform,
    glob: GlobModel,
    base: Seq<PathPart>,
    path: Seq<PathPart>,
    length: int,
    explicit_root: Option<Seq<PathPart>>,
)
    requires
        0 <= length <= path.len(),
        ignore::glob_matches_above(
            platform,
            glob,
            base,
            Some(path.subrange(0, length)),
            explicit_root,
        ),
    ensures
        exists|n: int|
            base.len() <= n <= length && ignore::glob_matches_path(
                platform,
                glob,
                base,
                #[trigger] path.subrange(0, n),
            ),
    decreases length,
{
    let here = path.subrange(0, length);
    if !ignore::glob_matches_path(platform, glob, base, here) {
        assert(!ignore::glob_matches_above(platform, glob, base, None, explicit_root));
        assert(path::parent(here) is Some);
        assert(here.drop_last() =~= path.subrange(0, length - 1));
        lemma_above(platform, glob, base, path, length - 1, explicit_root);
    }
}

/// A rule applies to a path only where its pattern matches the path itself or a directory above it, inside
/// the directory of the ignore file. A rule for directories alone does not apply to a file by its own name.
pub proof fn rule_applies_by_a_match(
    platform: Platform,
    rule: RuleModel,
    base: Seq<PathPart>,
    path: Seq<PathPart>,
    is_directory: bool,
    explicit_root: Option<Seq<PathPart>>,
)
    ensures
        (!rule.directory_only || is_directory) && ignore::glob_matches_path(
            platform,
            rule.glob,
            base,
            path,
        ) ==> ignore::rule_applies(platform, rule, base, path, is_directory, explicit_root),
        ignore::rule_applies(platform, rule, base, path, is_directory, explicit_root) ==> {
            ||| (!rule.directory_only || is_directory) && ignore::glob_matches_path(
                platform,
                rule.glob,
                base,
                path,
            )
            ||| exists|n: int|
                base.len() <= n < path.len() && ignore::glob_matches_path(
                    platform,
                    rule.glob,
                    base,
                    #[trigger] path.subrange(0, n),
                )
        },
{
    if ignore::glob_matches_above(
        platform,
        rule.glob,
        base,
        path::parent(path),
        explicit_root,
    ) {
        assert(path.drop_last() =~= path.subrange(0, path.len() - 1));
        lemma_above(platform, rule.glob, base, path, path.len() - 1, explicit_root);
    }
}

/// The last name of a path.
pub open spec fn last_name(path: Seq<PathPart>) -> Seq<char> {
    match path.last() {
        PathPart::Normal(name) => name.text,
        _ => Seq::empty(),
    }
}

/// Whether all parts of a path are names.
pub open spec fn are_names(parts: Seq<PathPart>) -> bool {
    forall|i: int| 0 <= i < parts.len() ==> (#[trigger] parts[i]) is Normal
}

/// Names with slashes between them.
pub open spec fn joined_names(parts: Seq<PathPart>) -> Seq<char>
    decreases parts.len(),
{
    if parts.len() == 0 {
        Seq::empty()
    } else if parts.len() == 1 {
        last_name(parts)
    } else {
        joined_names(parts.drop_last()) + seq!['/'] + last_name(parts)
    }
}

/// Whether no name is empty.
pub open spec fn are_not_empty(parts: Seq<PathPart>) -> bool {
    forall|i: int|
        0 <= i < parts.len() ==> ((#[trigger] parts[i]) matches PathPart::Normal(name) && name.text.len()
            > 0)
}

proof fn lemma_slashed(text: Seq<char>, parts: Seq<PathPart>)
    requires
        are_names(parts),
        are_not_empty(parts),
    ensures
        path::slashed(text, parts) == Some(
            if text.len() == 0 {
                joined_names(parts)
            } else if parts.len() == 0 {
                text
            } else {
                text + seq!['/'] + joined_names(parts)
            },
        ),
    decreases parts.len(),
{
    reveal_strlit("/");
    assert("/"@ =~= seq!['/']);
    if parts.len() == 0 {
        if text.len() == 0 {
            assert(text =~= joined_names(parts));
        }
    } else {
        let rest = parts.drop_first();
        assert(parts[0] is Normal);
        let first = parts[0]->Normal_0.text;
        assert(first.len() > 0);
        assert forall|i: int| 0 <= i < rest.len() implies (#[trigger] rest[i]) is Normal && (
        rest[i] matches PathPart::Normal(name) && name.text.len() > 0) by {
            assert(rest[i] == parts[i + 1]);
        }
        let next = path::with_slash(text, first);
        assert(next.len() > 0);
        lemma_slashed(next, rest);
        lemma_joined_front(parts);
        if text.len() > 0 {
            if rest.len() > 0 {
                assert(text + seq!['/'] + first + seq!['/'] + joined_names(rest) =~= text + seq![
                    '/',
                ] + (first + seq!['/'] + joined_names(rest)));
            }
        }
    }
}

proof fn lemma_joined_front(parts: Seq<PathPart>)
    requires
        parts.len() > 0,
        are_names(parts),
    ensures
        joined_names(parts) == if parts.len() == 1 {
            parts[0]->Normal_0.text
        } else {
            parts[0]->Normal_0.text + seq!['/'] + joined_names(parts.drop_first())
        },
    decreases parts.len(),
{
    assert(parts[0] is Normal);
    if parts.len() > 1 {
        let front = parts.drop_last();
        let rest = parts.drop_first();
        assert forall|i: int| 0 <= i < front.len() implies (#[trigger] front[i]) is Normal by {
            assert(front[i] == parts[i]);
        }
        lemma_joined_front(front);
        assert(rest.last() == parts.last());
        assert(front[0] == parts[0]);
        let first = parts[0]->Normal_0.text;
        if parts.len() == 2 {
            assert(rest.len() == 1);
        } else {
            assert(rest.drop_last() =~= front.drop_first());
            assert(first + seq!['/'] + joined_names(front.drop_first()) + seq!['/'] + last_name(
                parts,
            ) =~= first + seq!['/'] + (joined_names(rest.drop_last()) + seq!['/'] + last_name(
                rest,
            )));
        }
    }
}

/// The way from a directory to what lies below it is the names on that way with slashes between them.
pub proof fn way_down_is_the_names_between(
    platform: Platform,
    base: Seq<PathPart>,
    names: Seq<PathPart>,
)
    requires
        are_names(names),
        are_not_empty(names),
    ensures
        path::relative_path(platform, base, base + names) == Some(joined_names(names)),
{
    let path = base + names;
    assert forall|i: int| 0 <= i < base.len() implies path::same_part(
        #[trigger] path[i],
        base[i],
    ) by {
        assert(path[i] == base[i]);
    }
    assert(path.subrange(base.len() as int, path.len() as int) =~= names);
    lemma_slashed(Seq::empty(), names);
}

/// A pattern without a slash is held against the last name alone, whatever the directories are. One with a
/// slash is held against the way to the path from the directory of the ignore file.
pub proof fn slash_makes_a_pattern_for_ways(
    platform: Platform,
    glob: GlobModel,
    base: Seq<PathPart>,
    names: Seq<PathPart>,
)
    requires
        names.len() > 0,
        are_names(names),
        are_not_empty(names),
    ensures
        ignore::glob_matches_path(platform, glob, base, base + names) == glob::compiled_matches(
            platform,
            glob.pattern,
            encode_utf8(
                if glob.path_pattern {
                    joined_names(names)
                } else {
                    last_name(names)
                },
            ),
        ),
        user_globs::user_rule_matches(
            platform,
            UserRuleModel { glob, includes: true },
            base + names,
            base,
            base,
        ) == ignore::glob_matches_path(platform, glob, base, base + names),
{
    way_down_is_the_names_between(platform, base, names);
    let path = base + names;
    assert(path.last() == names.last());
    assert(names[names.len() - 1] is Normal);
}

/// Whether names are written with the same bytes, the way names are compared.
pub open spec fn are_alike(platform: Platform, left: Seq<u8>, right: Seq<u8>) -> bool {
    &&& left.len() == right.len()
    &&& forall|i: int|
        0 <= i < left.len() ==> glob_meaning::as_compared(platform, #[trigger] left[i])
            == glob_meaning::as_compared(platform, right[i])
}

proof fn lemma_alike(platform: Platform, left: Seq<u8>, right: Seq<u8>)
    ensures
        (platform::folded_all(platform, left) == platform::folded_all(platform, right))
            == are_alike(platform, left, right),
{
    let one = platform::folded_all(platform, left);
    let other = platform::folded_all(platform, right);
    assert forall|i: int| 0 <= i < left.len() implies #[trigger] one[i] == glob_meaning::as_compared(
        platform,
        left[i],
    ) by {}
    assert forall|i: int| 0 <= i < right.len() implies #[trigger] other[i]
        == glob_meaning::as_compared(platform, right[i]) by {}
    if one == other {
        assert(one.len() == other.len());
        assert forall|i: int| 0 <= i < left.len() implies glob_meaning::as_compared(
            platform,
            #[trigger] left[i],
        ) == glob_meaning::as_compared(platform, right[i]) by {
            assert(one[i] == other[i]);
        }
    }
    if are_alike(platform, left, right) {
        assert forall|i: int| 0 <= i < one.len() implies one[i] == other[i] by {
            assert(glob_meaning::as_compared(platform, left[i]) == glob_meaning::as_compared(
                platform,
                right[i],
            ));
        }
        assert(one =~= other);
    }
}

/// Two byte strings are the same but for the case of ASCII letters where they are alike on a host that does
/// not tell upper from lower case in names.
pub proof fn alike_is_the_same_but_for_case(left: Seq<u8>, right: Seq<u8>)
    ensures
        crate::text::same_ignoring_case(left, right) == are_alike(Platform::Windows, left, right),
{
    lemma_alike(Platform::Windows, left, right);
}

/// Whether bytes hold no sign of a glob.
pub open spec fn is_plain(bytes: Seq<u8>) -> bool {
    forall|i: int|
        0 <= i < bytes.len() ==> #[trigger] bytes[i] != '*' as int && bytes[i] != '?' as int
            && bytes[i] != '[' as int && bytes[i] != '\\' as int
}

/// A glob without signs matches itself alone.
pub proof fn plain_glob_matches_itself(platform: Platform, pattern: Seq<u8>, text: Seq<u8>)
    requires
        is_plain(pattern),
    ensures
        glob::compiled_matches(platform, pattern, text) == are_alike(platform, pattern, text),
{
    lemma_alike(platform, pattern, text);
    assert(!pattern.contains('*' as u8)) by {
        if pattern.contains('*' as u8) {
            let i = choose|i: int| 0 <= i < pattern.len() && pattern[i] == '*' as u8;
            assert(pattern[i] == '*' as int);
        }
    }
}

/// A glob with one star between plain texts matches what starts with the first and ends with the second,
/// without a slash between them.
pub proof fn star_between_texts(
    platform: Platform,
    first: Seq<u8>,
    second: Seq<u8>,
    text: Seq<u8>,
)
    requires
        is_plain(first),
        is_plain(second),
    ensures
        ({
            let rest = text.len() - second.len();
            glob::compiled_matches(platform, first + seq!['*' as u8] + second, text) == {
                &&& first.len() + second.len() <= text.len()
                &&& are_alike(platform, first, text.subrange(0, first.len() as int))
                &&& are_alike(platform, second, text.subrange(rest, text.len() as int))
                &&& forall|i: int| first.len() <= i < rest ==> #[trigger] text[i] != '/' as int
            }
        }),
{
    let pattern = first + seq!['*' as u8] + second;
    let at = first.len() as int;
    assert(pattern[at] == '*' as int);
    assert forall|i: int| 0 <= i < pattern.len() && i != at implies #[trigger] pattern[i]
        != '*' as int && pattern[i] != '?' as int && pattern[i] != '[' as int && pattern[i]
        != '\\' as int by {
        if i < at {
            assert(pattern[i] == first[i]);
        } else {
            assert(pattern[i] == second[i - at - 1]);
        }
    }
    assert(!glob::needs_general_engine(pattern));
    assert(pattern.contains('*' as u8));
    let index = pattern.index_of('*' as u8);
    assert(pattern[index] == '*' as u8);
    assert(index == at);
    assert(pattern.subrange(0, at) =~= first);
    assert(pattern.subrange(at + 1, pattern.len() as int) =~= second);
    let rest = text.len() - second.len();
    if first.len() + second.len() <= text.len() {
        lemma_alike(platform, first, text.subrange(0, at));
        lemma_alike(platform, second, text.subrange(rest, text.len() as int));
        let middle = text.subrange(at, rest);
        if middle.contains('/' as u8) {
            let i = choose|i: int| 0 <= i < middle.len() && middle[i] == '/' as u8;
            assert(text[at + i] == '/' as int);
        }
        if !middle.contains('/' as u8) {
            assert forall|i: int| first.len() <= i < rest implies #[trigger] text[i] != '/' as int by {
                assert(middle[i - at] == text[i]);
                assert(middle.contains(middle[i - at]));
            }
        }
    }
}

/// Which patterns are for ways and not for names: in an ignore file those with a slash in them or before
/// them, and on the command line those with a slash anywhere. A slash in first place is not part of what
/// is matched.
pub proof fn slashes_in_patterns(pattern: Seq<u8>, anchored: bool)
    ensures
        glob::ignore_glob(pattern, anchored).pattern == pattern,
        glob::ignore_glob(pattern, anchored).path_pattern == (anchored || exists|i: int|
            0 <= i < pattern.len() && #[trigger] pattern[i] == '/' as int),
        glob::user_glob(pattern).path_pattern == exists|i: int|
            0 <= i < pattern.len() && #[trigger] pattern[i] == '/' as int,
        pattern.len() > 0 && pattern[0] == '/' as int ==> glob::user_glob(pattern).pattern
            == pattern.subrange(1, pattern.len() as int),
        pattern.len() == 0 || pattern[0] != '/' as int ==> glob::user_glob(pattern).pattern
            == pattern,
{
    if pattern.contains('/' as u8) {
        let i = choose|i: int| 0 <= i < pattern.len() && pattern[i] == '/' as u8;
        assert(pattern[i] == '/' as int);
    }
    if exists|i: int| 0 <= i < pattern.len() && #[trigger] pattern[i] == '/' as int {
        let i = choose|i: int| 0 <= i < pattern.len() && #[trigger] pattern[i] == '/' as int;
        assert(pattern[i] == '/' as u8);
    }
}

} // verus!
