//! The `-g` patterns of a search, and what they say about a path.

use vstd::prelude::*;
use vstd::utf8::*;
use crate::braces;
use crate::braces::parse_user_glob;
use crate::glob;
use crate::glob::{CompiledGlob, GlobError, GlobFault, GlobModel};
use crate::path;
use crate::path::{file_name_text, relative_slash_path, PathComponent, PathPart};
use crate::platform::Platform;
use crate::text;

verus! {

/// One pattern of the command line.
#[derive(Debug)]
pub struct UserGlobRule {
    pub pattern: CompiledGlob,
    pub includes: bool,
}

/// What a pattern of the command line says.
pub struct UserRuleModel {
    pub glob: GlobModel,
    pub includes: bool,
}

impl View for UserGlobRule {
    type V = UserRuleModel;

    open spec fn view(&self) -> UserRuleModel {
        UserRuleModel { glob: self.pattern@, includes: self.includes }
    }
}

/// The patterns of the command line in order.
#[derive(Debug)]
pub struct UserGlobSet {
    pub rules: Vec<UserGlobRule>,
    /// Whether one of the patterns includes.
    pub has_include: bool,
}

/// What the patterns of the command line say.
pub struct UserSetModel {
    pub rules: Seq<UserRuleModel>,
    pub has_include: bool,
}

/// What the command line says about a path.
#[derive(Clone, Copy, Debug, PartialEq, Eq, Structural)]
pub enum GlobDecision {
    Unmatched,
    Include,
    Exclude,
}

/// The rules that the globs of one value make.
pub open spec fn value_rules(globs: Seq<GlobModel>, includes: bool) -> Seq<UserRuleModel> {
    Seq::new(globs.len(), |i: int| UserRuleModel { glob: globs[i], includes })
}

/// What `-g` values stand for, or the first value that is refused and why.
pub open spec fn parsed_values(values: Seq<Seq<char>>) -> Result<
    UserSetModel,
    (Seq<char>, GlobFault),
>
    decreases values.len(),
{
    if values.len() == 0 {
        Ok(UserSetModel { rules: Seq::empty(), has_include: false })
    } else {
        match parsed_values(values.drop_last()) {
            Err(error) => Err(error),
            Ok(before) => match braces::parsed_user_glob(encode_utf8(values.last())) {
                Err(fault) => Err((values.last(), fault)),
                Ok((includes, globs)) => Ok(
                    UserSetModel {
                        rules: before.rules + value_rules(globs, includes),
                        has_include: before.has_include || includes,
                    },
                ),
            },
        }
    }
}

/// The text that a rule is matched against: the way to the path from the current directory, or
/// failing that from the root's directory, for a pattern for paths, and the last name otherwise.
pub open spec fn candidate(
    platform: Platform,
    path_pattern: bool,
    path: Seq<PathPart>,
    current_dir: Seq<PathPart>,
    root_base: Seq<PathPart>,
) -> Seq<char> {
    if path_pattern {
        match path::relative_path(platform, current_dir, path) {
            Some(text) => text,
            None => match path::relative_path(platform, root_base, path) {
                Some(text) => text,
                None => Seq::empty(),
            },
        }
    } else {
        match path::file_name(path) {
            Some(name) => name.text,
            None => Seq::empty(),
        }
    }
}

/// Whether a rule matches a path.
pub open spec fn user_rule_matches(
    platform: Platform,
    rule: UserRuleModel,
    path: Seq<PathPart>,
    current_dir: Seq<PathPart>,
    root_base: Seq<PathPart>,
) -> bool {
    glob::compiled_matches(
        platform,
        rule.glob.pattern,
        encode_utf8(candidate(platform, rule.glob.path_pattern, path, current_dir, root_base)),
    )
}

/// What the last rule that matches says.
pub open spec fn user_decision(
    platform: Platform,
    rules: Seq<UserRuleModel>,
    path: Seq<PathPart>,
    current_dir: Seq<PathPart>,
    root_base: Seq<PathPart>,
) -> GlobDecision
    decreases rules.len(),
{
    if rules.len() == 0 {
        GlobDecision::Unmatched
    } else if user_rule_matches(platform, rules.last(), path, current_dir, root_base) {
        if rules.last().includes {
            GlobDecision::Include
        } else {
            GlobDecision::Exclude
        }
    } else {
        user_decision(platform, rules.drop_last(), path, current_dir, root_base)
    }
}

/// What the rules of a set say.
pub open spec fn user_rule_models(rules: Seq<UserGlobRule>) -> Seq<UserRuleModel> {
    Seq::new(rules.len(), |i: int| rules[i]@)
}

impl View for UserGlobSet {
    type V = UserSetModel;

    open spec fn view(&self) -> UserSetModel {
        UserSetModel { rules: user_rule_models(self.rules@), has_include: self.has_include }
    }
}

impl UserGlobSet {
    pub open spec fn wf(self) -> bool {
        forall|i: int| 0 <= i < self.rules.len() ==> (#[trigger] self.rules[i]).pattern.wf()
    }

    /// Parses the values of `-g` in order.
    pub fn parse(values: &[String]) -> (result: Result<Self, GlobError>)
        ensures
            match result {
                Ok(set) => set.wf() && parsed_values(text::texts(values@)) == Ok::<
                    UserSetModel,
                    (Seq<char>, GlobFault),
                >(set@),
                Err(error) => parsed_values(text::texts(values@)) matches Err((raw, fault))
                    && error.reports(fault, raw),
            },
    {
        let mut rules: Vec<UserGlobRule> = Vec::new();
        let mut has_include: bool = false;
        let mut index: usize = 0;
        let ghost all = text::texts(values@);
        assert(user_rule_models(rules@) =~= Seq::<UserRuleModel>::empty());
        while index < values.len()
            invariant
                index <= values.len(),
                all == text::texts(values@),
                forall|i: int| 0 <= i < rules.len() ==> (#[trigger] rules[i]).pattern.wf(),
                parsed_values(all.subrange(0, index as int)) == Ok::<
                    UserSetModel,
                    (Seq<char>, GlobFault),
                >(UserSetModel { rules: user_rule_models(rules@), has_include }),
            decreases values.len() - index,
        {
            proof {
                let here = all.subrange(0, index + 1);
                assert(here.last() == values[index as int]@);
                assert(here.drop_last() =~= all.subrange(0, index as int));
            }
            match parse_user_glob(values[index].as_str()) {
                Err(error) => {
                    proof {
                        lemma_first_error(all, index + 1);
                    }
                    return Err(error);
                },
                Ok((includes, globs)) => {
                    has_include = has_include || includes;
                    add_rules(&mut rules, globs.as_slice(), includes);
                },
            }
            index += 1;
        }
        assert(all.subrange(0, values.len() as int) =~= all);
        Ok(UserGlobSet { rules, has_include })
    }

    /// What the last pattern that matches a path says.
    pub fn decision(
        &self,
        path: &[PathComponent],
        current_dir: &[PathComponent],
        root_base: &[PathComponent],
        platform: Platform,
    ) -> (result: GlobDecision)
        requires
            self.wf(),
        ensures
            result == user_decision(
                platform,
                self@.rules,
                path::parts(path@),
                path::parts(current_dir@),
                path::parts(root_base@),
            ),
    {
        if self.rules.len() == 0 {
            return GlobDecision::Unmatched;
        }
        let for_paths: String = match relative_slash_path(current_dir, path, platform) {
            Some(text) => text,
            None => match relative_slash_path(root_base, path, platform) {
                Some(text) => text,
                None => String::new(),
            },
        };
        let empty: String = String::new();
        let for_names: &str = match file_name_text(path) {
            Some(name) => name,
            None => empty.as_str(),
        };
        let ghost rules = self@.rules;
        let ghost path_parts = path::parts(path@);
        let ghost current = path::parts(current_dir@);
        let ghost root = path::parts(root_base@);
        assert(for_paths@ =~= candidate(platform, true, path_parts, current, root));
        assert(for_names@ =~= candidate(platform, false, path_parts, current, root));
        assert(rules.subrange(0, rules.len() as int) =~= rules);
        let mut index: usize = self.rules.len();
        while index > 0
            invariant
                index <= self.rules.len(),
                self.wf(),
                rules == self@.rules,
                path_parts == path::parts(path@),
                current == path::parts(current_dir@),
                root == path::parts(root_base@),
                for_paths@ == candidate(platform, true, path_parts, current, root),
                for_names@ == candidate(platform, false, path_parts, current, root),
                user_decision(platform, rules, path_parts, current, root) == user_decision(
                    platform,
                    rules.subrange(0, index as int),
                    path_parts,
                    current,
                    root,
                ),
            decreases index,
        {
            index -= 1;
            let rule: &UserGlobRule = &self.rules[index];
            proof {
                let here = rules.subrange(0, index + 1);
                assert(here.last() == rule@);
                assert(here.drop_last() =~= rules.subrange(0, index as int));
            }
            let text: &str = if rule.pattern.path_pattern {
                for_paths.as_str()
            } else {
                for_names
            };
            if rule.pattern.matches(text, platform) {
                return if rule.includes {
                    GlobDecision::Include
                } else {
                    GlobDecision::Exclude
                };
            }
        }
        GlobDecision::Unmatched
    }
}

/// Puts one rule for each glob behind `rules`.
fn add_rules(rules: &mut Vec<UserGlobRule>, globs: &[CompiledGlob], includes: bool)
    requires
        forall|i: int| 0 <= i < old(rules).len() ==> (#[trigger] old(rules)[i]).pattern.wf(),
        forall|i: int| 0 <= i < globs.len() ==> (#[trigger] globs[i]).wf(),
    ensures
        forall|i: int| 0 <= i < final(rules).len() ==> (#[trigger] final(rules)[i]).pattern.wf(),
        user_rule_models(final(rules)@) == user_rule_models(old(rules)@) + value_rules(
            braces::glob_models(globs@),
            includes,
        ),
{
    let ghost before = user_rule_models(rules@);
    let ghost added = value_rules(braces::glob_models(globs@), includes);
    let mut index: usize = 0;
    assert(before + added.subrange(0, 0) =~= before);
    while index < globs.len()
        invariant
            index <= globs.len(),
            added == value_rules(braces::glob_models(globs@), includes),
            forall|i: int| 0 <= i < globs.len() ==> (#[trigger] globs[i]).wf(),
            forall|i: int| 0 <= i < rules.len() ==> (#[trigger] rules[i]).pattern.wf(),
            user_rule_models(rules@) == before + added.subrange(0, index as int),
        decreases globs.len() - index,
    {
        let ghost here = user_rule_models(rules@);
        rules.push(UserGlobRule { pattern: globs[index].clone(), includes });
        proof {
            assert(user_rule_models(rules@) =~= here.push(added[index as int]));
            assert(here.push(added[index as int]) =~= before + added.subrange(0, index + 1));
        }
        index += 1;
    }
    assert(added.subrange(0, globs.len() as int) =~= added);
}

/// The first value that is refused is the one that is reported.
proof fn lemma_first_error(values: Seq<Seq<char>>, length: int)
    requires
        0 <= length <= values.len(),
        parsed_values(values.subrange(0, length)) is Err,
    ensures
        parsed_values(values) == parsed_values(values.subrange(0, length)),
    decreases values.len() - length,
{
    if length < values.len() {
        let next = values.subrange(0, length + 1);
        assert(next.drop_last() =~= values.subrange(0, length));
        lemma_first_error(values, length + 1);
    } else {
        assert(values.subrange(0, length) =~= values);
    }
}

/// A set that includes holds a rule that includes, and one that does not holds none.
pub proof fn has_include_tells_of_rules(values: Seq<Seq<char>>)
    ensures
        parsed_values(values) matches Ok(set) ==> set.has_include == exists|i: int|
            0 <= i < set.rules.len() && (#[trigger] set.rules[i]).includes,
    decreases values.len(),
{
    if values.len() > 0 && parsed_values(values) is Ok {
        let set = parsed_values(values)->Ok_0;
        has_include_tells_of_rules(values.drop_last());
        let before = parsed_values(values.drop_last())->Ok_0;
        let raw = encode_utf8(values.last());
        let (includes, globs) = braces::parsed_user_glob(raw)->Ok_0;
        let pattern = if raw[0] != crate::ascii::EXCLAMATION {
            raw
        } else {
            raw.subrange(1, raw.len() as int)
        };
        braces::brace_expansion_is_complete_and_bounded(pattern);
        let added = value_rules(globs, includes);
        assert(added.len() >= 1);
        if before.has_include {
            let i = choose|i: int| 0 <= i < before.rules.len() && (#[trigger] before.rules[i]).includes;
            assert(set.rules[i] == before.rules[i]);
        }
        if includes {
            assert(set.rules[before.rules.len() as int] == added[0]);
        }
        if exists|i: int| 0 <= i < set.rules.len() && (#[trigger] set.rules[i]).includes {
            let i = choose|i: int| 0 <= i < set.rules.len() && (#[trigger] set.rules[i]).includes;
            if i < before.rules.len() {
                assert(set.rules[i] == before.rules[i]);
            } else {
                assert(set.rules[i] == added[i - before.rules.len()]);
            }
        }
    }
}

/// Whether a value includes what it matches: it does not start with `!`.
pub open spec fn value_includes(value: Seq<char>) -> bool {
    value.len() > 0 && value[0] != '!'
}

proof fn lemma_first_byte(letter: char)
    ensures
        encode_scalar(letter as u32).len() > 0,
        (encode_scalar(letter as u32)[0] == crate::ascii::EXCLAMATION) == (letter == '!'),
{
    let scalar = letter as u32;
    char_is_scalar(letter);
    assert(scalar <= 0x7f ==> (scalar & 0x7f) as u8 == scalar) by (bit_vector);
    assert((0xc0u8 | ((scalar >> 6) & 0x1f) as u8) != 0x21u8) by (bit_vector);
    assert((0xe0u8 | ((scalar >> 12) & 0x0f) as u8) != 0x21u8) by (bit_vector);
    assert((0xf0u8 | ((scalar >> 18) & 0x7) as u8) != 0x21u8) by (bit_vector);
}

proof fn lemma_first_letter(value: Seq<char>)
    requires
        value.len() > 0,
    ensures
        encode_utf8(value).len() > 0,
        (encode_utf8(value)[0] == crate::ascii::EXCLAMATION) == (value[0] == '!'),
{
    let letter: char = value[0];
    lemma_first_byte(letter);
    let first = encode_scalar(letter as u32);
    assert(encode_utf8(value) == first + encode_utf8(value.drop_first()));
    assert(encode_utf8(value)[0] == first[0]);
}

/// A set includes exactly where one of its values does not start with `!`.
pub proof fn has_include_tells_of_values(values: Seq<Seq<char>>)
    ensures
        parsed_values(values) matches Ok(set) ==> set.has_include == exists|i: int|
            0 <= i < values.len() && value_includes(#[trigger] values[i]),
    decreases values.len(),
{
    if values.len() > 0 && parsed_values(values) is Ok {
        let before = values.drop_last();
        has_include_tells_of_values(before);
        if values.last().len() > 0 {
            lemma_first_letter(values.last());
        }
        assert(values.last() == values[values.len() - 1]);
        if exists|i: int| 0 <= i < before.len() && value_includes(#[trigger] before[i]) {
            let i = choose|i: int| 0 <= i < before.len() && value_includes(#[trigger] before[i]);
            assert(values[i] == before[i]);
        }
        if exists|i: int| 0 <= i < values.len() && value_includes(#[trigger] values[i]) {
            let i = choose|i: int| 0 <= i < values.len() && value_includes(#[trigger] values[i]);
            if i < before.len() {
                assert(before[i] == values[i]);
            }
        }
    }
}

/// What two lists of values say when one is put behind the other: the first fault is reported, and
/// otherwise the rules of the second follow those of the first.
pub proof fn values_follow_one_another(first: Seq<Seq<char>>, second: Seq<Seq<char>>)
    ensures
        parsed_values(first + second) == match (parsed_values(first), parsed_values(second)) {
            (Err(fault), _) => Err(fault),
            (Ok(_), Err(fault)) => Err(fault),
            (Ok(one), Ok(other)) => Ok(
                UserSetModel {
                    rules: one.rules + other.rules,
                    has_include: one.has_include || other.has_include,
                },
            ),
        },
    decreases second.len(),
{
    let both = first + second;
    if second.len() == 0 {
        assert(both =~= first);
        if let Ok(one) = parsed_values(first) {
            assert(one.rules + Seq::<UserRuleModel>::empty() =~= one.rules);
        }
    } else {
        let before = second.drop_last();
        values_follow_one_another(first, before);
        assert(both.drop_last() =~= first + before);
        assert(both.last() == second.last());
        if let (Ok(one), Ok(other), Ok((includes, globs))) = (
            parsed_values(first),
            parsed_values(before),
            braces::parsed_user_glob(encode_utf8(second.last())),
        ) {
            let added = value_rules(globs, includes);
            assert(one.rules + other.rules + added =~= one.rules + (other.rules + added));
        }
    }
}

/// Later values decide first: of two lists put together, the second decides on every path that one of its
/// values matches, and the first on all others.
pub proof fn later_values_decide_first(
    platform: Platform,
    first: Seq<Seq<char>>,
    second: Seq<Seq<char>>,
    path: Seq<PathPart>,
    current_dir: Seq<PathPart>,
    root_base: Seq<PathPart>,
)
    requires
        parsed_values(first) is Ok,
        parsed_values(second) is Ok,
    ensures
        parsed_values(first + second) is Ok,
        ({
            let one = parsed_values(first)->Ok_0.rules;
            let other = parsed_values(second)->Ok_0.rules;
            let both = parsed_values(first + second)->Ok_0.rules;
            let later = user_decision(platform, other, path, current_dir, root_base);
            user_decision(platform, both, path, current_dir, root_base) == if later is Unmatched {
                user_decision(platform, one, path, current_dir, root_base)
            } else {
                later
            }
        }),
{
    values_follow_one_another(first, second);
    lemma_later_rules(
        platform,
        parsed_values(first)->Ok_0.rules,
        parsed_values(second)->Ok_0.rules,
        path,
        current_dir,
        root_base,
    );
}

proof fn lemma_later_rules(
    platform: Platform,
    one: Seq<UserRuleModel>,
    other: Seq<UserRuleModel>,
    path: Seq<PathPart>,
    current_dir: Seq<PathPart>,
    root_base: Seq<PathPart>,
)
    ensures
        user_decision(platform, one + other, path, current_dir, root_base) == if user_decision(
            platform,
            other,
            path,
            current_dir,
            root_base,
        ) is Unmatched {
            user_decision(platform, one, path, current_dir, root_base)
        } else {
            user_decision(platform, other, path, current_dir, root_base)
        },
    decreases other.len(),
{
    let both = one + other;
    if other.len() == 0 {
        assert(both =~= one);
    } else {
        assert(both.last() == other.last());
        assert(both.drop_last() =~= one + other.drop_last());
        lemma_later_rules(platform, one, other.drop_last(), path, current_dir, root_base);
    }
}

} // verus!
