//! Ignore files: how their lines are read, and what they say about a path.

use std::sync::Arc;
use vstd::prelude::*;
use vstd::utf8::*;
use crate::ascii::{EXCLAMATION, HASH, SLASH, SPACE};
use crate::glob;
use crate::glob::{
    glob_requires_general_engine, is_escaped_at, CompiledGlob, GlobModel, MAX_GENERAL_GLOB_BYTES,
    MAX_USER_GLOB_BYTES,
};
use crate::path;
use crate::path::{
    file_name_text, parent_len, path_starts_with, paths_equal, relative_slash_path, PathComponent,
    PathPart,
};
use crate::platform::Platform;
use crate::text;
use crate::text::{lossy_text, split_lines, strip_carriage_return};

verus! {

/// The most bytes that an ignore file may have.
pub const MAX_IGNORE_FILE_BYTES: usize = 8_388_608;

/// One rule of an ignore file, before it is tied to a directory.
#[derive(Debug)]
pub struct RuleTemplate {
    pub pattern: CompiledGlob,
    /// Whether the rule takes a path back in.
    pub includes: bool,
    /// Whether the rule speaks of directories alone.
    pub directory_only: bool,
}

/// What a rule of an ignore file says.
pub struct RuleModel {
    pub glob: GlobModel,
    pub includes: bool,
    pub directory_only: bool,
}

impl View for RuleTemplate {
    type V = RuleModel;

    open spec fn view(&self) -> RuleModel {
        RuleModel {
            glob: self.pattern@,
            includes: self.includes,
            directory_only: self.directory_only,
        }
    }
}

impl RuleTemplate {
    pub open spec fn wf(self) -> bool {
        self.pattern.wf()
    }
}

/// What rules say.
pub open spec fn template_models(templates: Seq<RuleTemplate>) -> Seq<RuleModel> {
    Seq::new(templates.len(), |i: int| templates[i]@)
}

pub open spec fn templates_wf(templates: Seq<RuleTemplate>) -> bool {
    forall|i: int| 0 <= i < templates.len() ==> (#[trigger] templates[i]).wf()
}

/// A line without the spaces at its end, up to one that a backslash escapes.
pub open spec fn without_trailing_spaces(value: Seq<u8>) -> Seq<u8>
    decreases value.len(),
{
    if value.len() > 0 && value.last() == SPACE && !glob::escaped(value, value.len() - 1) {
        without_trailing_spaces(value.drop_last())
    } else {
        value
    }
}

/// Takes the spaces that no backslash escapes off the end of a line.
pub fn trim_unescaped_trailing_spaces(value: &[u8]) -> (result: &[u8])
    ensures
        result@ == without_trailing_spaces(value@),
{
    let mut value_left: &[u8] = value;
    while value_left.len() > 0 && value_left[value_left.len() - 1] == SPACE && !is_escaped_at(
        value_left,
        value_left.len() - 1,
    )
        invariant
            without_trailing_spaces(value@) == without_trailing_spaces(value_left@),
        decreases value_left.len(),
    {
        assert(value_left@.subrange(0, value_left.len() - 1) =~= value_left@.drop_last());
        value_left = &value_left[0..value_left.len() - 1];
    }
    value_left
}

/// Whether `value` ends in a `suffix` that no backslash escapes.
pub open spec fn ends_unescaped(value: Seq<u8>, suffix: u8) -> bool {
    value.len() > 0 && value.last() == suffix && !glob::escaped(value, value.len() - 1)
}

/// Takes an ASCII character that no backslash escapes off the end, and says whether it was there.
pub fn strip_unescaped_suffix(value: &[u8], suffix: u8) -> (result: (bool, &[u8]))
    ensures
        result.0 == ends_unescaped(value@, suffix),
        result.1@ == (if result.0 {
            value@.drop_last()
        } else {
            value@
        }),
{
    if value.len() == 0 || value[value.len() - 1] != suffix || is_escaped_at(
        value,
        value.len() - 1,
    ) {
        return (false, value);
    }
    assert(value@.subrange(0, value.len() - 1) =~= value@.drop_last());
    (true, &value[0..value.len() - 1])
}

/// Whether a line starts with a byte order mark.
pub open spec fn starts_with_mark(line: Seq<u8>) -> bool {
    line.len() >= 3 && line[0] == 0xef && line[1] == 0xbb && line[2] == 0xbf
}

/// A line without a byte order mark at its start.
pub open spec fn without_mark(line: Seq<u8>) -> Seq<u8> {
    if starts_with_mark(line) {
        line.subrange(3, line.len() as int)
    } else {
        line
    }
}

/// The rule in a line from which a `!` was taken off.
pub open spec fn rule_of_pattern(line: Seq<u8>, includes: bool) -> Option<RuleModel> {
    let directory_only = ends_unescaped(line, SLASH);
    let inner = if directory_only {
        line.drop_last()
    } else {
        line
    };
    let anchored = inner.len() > 0 && inner[0] == SLASH;
    let pattern = glob::without_leading_slash(inner);
    if line.len() == 0 || inner.len() == 0 || pattern.len() == 0 {
        None
    } else if pattern.len() > MAX_USER_GLOB_BYTES || (pattern.len() > MAX_GENERAL_GLOB_BYTES
        && glob::needs_general_engine(pattern)) {
        None
    } else {
        Some(RuleModel { glob: glob::ignore_glob(pattern, anchored), includes, directory_only })
    }
}

/// The rule in one line of an ignore file: none in an empty line, a comment, or a pattern that is
/// too long. A leading `!` takes back in, a final `/` restricts to directories, and a leading `/`
/// anchors.
pub open spec fn rule_of_line(line: Seq<u8>) -> Option<RuleModel> {
    let trimmed = without_trailing_spaces(without_mark(text::without_carriage_return(line)));
    if trimmed.len() == 0 || trimmed[0] == HASH {
        None
    } else if trimmed[0] == EXCLAMATION {
        rule_of_pattern(trimmed.subrange(1, trimmed.len() as int), true)
    } else {
        rule_of_pattern(trimmed, false)
    }
}

fn parse_ignore_pattern(line: &[u8], includes: bool) -> (result: Option<RuleTemplate>)
    ensures
        match result {
            Some(template) => template.wf() && rule_of_pattern(line@, includes) == Some(
                template@,
            ),
            None => rule_of_pattern(line@, includes) is None,
        },
{
    if line.len() == 0 {
        return None;
    }
    let (directory_only, inner) = strip_unescaped_suffix(line, SLASH);
    if inner.len() == 0 {
        return None;
    }
    let anchored: bool = inner[0] == SLASH;
    let pattern: &[u8] = if anchored {
        &inner[1..inner.len()]
    } else {
        inner
    };
    if pattern.len() == 0 {
        return None;
    }
    if pattern.len() > MAX_USER_GLOB_BYTES || (pattern.len() > MAX_GENERAL_GLOB_BYTES
        && glob_requires_general_engine(pattern)) {
        return None;
    }
    Some(RuleTemplate {
        pattern: CompiledGlob::for_ignore(pattern, anchored),
        includes,
        directory_only,
    })
}

/// Reads one line of an ignore file.
pub fn parse_ignore_line(line: &[u8]) -> (result: Option<RuleTemplate>)
    ensures
        match result {
            Some(template) => template.wf() && rule_of_line(line@) == Some(template@),
            None => rule_of_line(line@) is None,
        },
{
    let mut rest: &[u8] = strip_carriage_return(line);
    if rest.len() >= 3 && rest[0] == 0xef && rest[1] == 0xbb && rest[2] == 0xbf {
        rest = &rest[3..rest.len()];
    }
    rest = trim_unescaped_trailing_spaces(rest);
    if rest.len() == 0 || rest[0] == HASH {
        return None;
    }
    if rest[0] == EXCLAMATION {
        parse_ignore_pattern(&rest[1..rest.len()], true)
    } else {
        parse_ignore_pattern(rest, false)
    }
}

/// The rules in `lines`, in order.
pub open spec fn rules_of_lines(lines: Seq<Seq<u8>>) -> Seq<RuleModel>
    decreases lines.len(),
{
    if lines.len() == 0 {
        Seq::empty()
    } else {
        let before = rules_of_lines(lines.drop_last());
        match rule_of_line(lines.last()) {
            Some(rule) => before.push(rule),
            None => before,
        }
    }
}

/// Reads the text of an ignore file. A line that holds no rule is passed over.
pub fn parse_ignore_templates(text: &str) -> (result: Vec<RuleTemplate>)
    ensures
        templates_wf(result@),
        template_models(result@) == rules_of_lines(text::lines_from(encode_utf8(text@), 0)),
{
    let lines: Vec<Vec<u8>> = split_lines(text.as_bytes());
    let mut templates: Vec<RuleTemplate> = Vec::new();
    let mut index: usize = 0;
    let ghost all = text::byte_strings(lines@);
    assert(template_models(templates@) =~= rules_of_lines(all.subrange(0, 0)));
    while index < lines.len()
        invariant
            index <= lines.len(),
            all == text::byte_strings(lines@),
            templates_wf(templates@),
            template_models(templates@) == rules_of_lines(all.subrange(0, index as int)),
        decreases lines.len() - index,
    {
        let ghost before = template_models(templates@);
        proof {
            let here = all.subrange(0, index + 1);
            assert(here.last() == lines[index as int]@);
            assert(here.drop_last() =~= all.subrange(0, index as int));
        }
        if let Some(template) = parse_ignore_line(lines[index].as_slice()) {
            let ghost model = template@;
            templates.push(template);
            assert(template_models(templates@) =~= before.push(model));
        }
        index += 1;
    }
    assert(all.subrange(0, lines.len() as int) =~= all);
    templates
}

/// One rule of an ignore layer.
#[derive(Debug)]
pub struct IgnoreRule {
    pub pattern: CompiledGlob,
    pub includes: bool,
    pub directory_only: bool,
}

impl View for IgnoreRule {
    type V = RuleModel;

    open spec fn view(&self) -> RuleModel {
        RuleModel {
            glob: self.pattern@,
            includes: self.includes,
            directory_only: self.directory_only,
        }
    }
}

impl IgnoreRule {
    pub open spec fn wf(self) -> bool {
        self.pattern.wf()
    }

    pub fn from_template(template: &RuleTemplate) -> (result: Self)
        requires
            template.wf(),
        ensures
            result.wf(),
            result@ == template@,
    {
        IgnoreRule {
            pattern: template.pattern.clone(),
            includes: template.includes,
            directory_only: template.directory_only,
        }
    }
}

/// Whether a glob matches a path: the way to it from `base` where the glob is one for paths, and
/// its last name otherwise.
pub open spec fn glob_matches_path(
    platform: Platform,
    glob: GlobModel,
    base: Seq<PathPart>,
    path: Seq<PathPart>,
) -> bool {
    if glob.path_pattern {
        path::relative_path(platform, base, path) matches Some(text) && glob::compiled_matches(
            platform,
            glob.pattern,
            encode_utf8(text),
        )
    } else {
        path::file_name(path) matches Some(name) && glob::compiled_matches(
            platform,
            glob.pattern,
            encode_utf8(name.text),
        )
    }
}

/// Whether a glob matches a path as seen from `base`.
pub fn rule_matches_path(
    pattern: &CompiledGlob,
    base: &[PathComponent],
    path: &[PathComponent],
    platform: Platform,
) -> (result: bool)
    requires
        pattern.wf(),
    ensures
        result == glob_matches_path(platform, pattern@, path::parts(base@), path::parts(path@)),
{
    if pattern.path_pattern {
        match relative_slash_path(base, path, platform) {
            Some(text) => pattern.matches(text.as_str(), platform),
            None => false,
        }
    } else {
        match file_name_text(path) {
            Some(name) => pattern.matches(name, platform),
            None => false,
        }
    }
}

/// The path of an explicit root, where there is one.
pub open spec fn optional_parts(path: Option<&[PathComponent]>) -> Option<Seq<PathPart>> {
    match path {
        Some(components) => Some(path::parts(components@)),
        None => None,
    }
}

/// Whether a glob matches `directory` or one of the directories above it, up to `base` and short of
/// the explicit root.
pub open spec fn glob_matches_above(
    platform: Platform,
    glob: GlobModel,
    base: Seq<PathPart>,
    directory: Option<Seq<PathPart>>,
    explicit_root: Option<Seq<PathPart>>,
) -> bool
    decreases
            (match directory {
                Some(path) => path.len() + 1,
                None => 0,
            }),
{
    match directory {
        None => false,
        Some(path) => {
            &&& path::path_below(path, base)
            &&& !(explicit_root matches Some(root) && path::same_path(path, root))
            &&& {
                ||| glob_matches_path(platform, glob, base, path)
                ||| !path::same_path(path, base) && glob_matches_above(
                    platform,
                    glob,
                    base,
                    path::parent(path),
                    explicit_root,
                )
            }
        },
    }
}

/// Whether a rule applies to a path: it matches the path itself, or a directory above it. A rule
/// that selects a directory thus covers all that lies below.
pub open spec fn rule_applies(
    platform: Platform,
    rule: RuleModel,
    base: Seq<PathPart>,
    path: Seq<PathPart>,
    is_directory: bool,
    explicit_root: Option<Seq<PathPart>>,
) -> bool {
    ||| (!rule.directory_only || is_directory) && glob_matches_path(platform, rule.glob, base, path)
    ||| glob_matches_above(platform, rule.glob, base, path::parent(path), explicit_root)
}

/// What ignore rules say about a path.
#[derive(Clone, Copy, Debug, PartialEq, Eq, Structural)]
pub enum IgnoreDecision {
    NoMatch,
    Ignore,
    Include,
}

/// What the last rule that applies says, if any applies.
pub open spec fn rules_decision(
    platform: Platform,
    rules: Seq<RuleModel>,
    base: Seq<PathPart>,
    path: Seq<PathPart>,
    is_directory: bool,
    explicit_root: Option<Seq<PathPart>>,
) -> Option<IgnoreDecision>
    decreases rules.len(),
{
    if rules.len() == 0 {
        None
    } else if rule_applies(platform, rules.last(), base, path, is_directory, explicit_root) {
        Some(
            if rules.last().includes {
                IgnoreDecision::Include
            } else {
                IgnoreDecision::Ignore
            },
        )
    } else {
        rules_decision(platform, rules.drop_last(), base, path, is_directory, explicit_root)
    }
}

/// The rules of one ignore file, tied to the directory that they speak of.
#[derive(Debug)]
pub struct IgnoreLayer {
    pub base: Vec<PathComponent>,
    pub rules: Vec<IgnoreRule>,
    pub has_include_descendant: bool,
}

/// What the rules of one ignore file are.
pub struct LayerModel {
    pub base: Seq<PathPart>,
    pub rules: Seq<RuleModel>,
}

/// What rules of a layer say.
pub open spec fn rule_models(rules: Seq<IgnoreRule>) -> Seq<RuleModel> {
    Seq::new(rules.len(), |i: int| rules[i]@)
}

/// Whether a rule takes a path back in.
pub open spec fn some_rule_includes(rules: Seq<RuleModel>) -> bool {
    exists|i: int| 0 <= i < rules.len() && (#[trigger] rules[i]).includes
}

/// What a layer says about a path; nothing about one outside its directory.
pub open spec fn layer_decision(
    platform: Platform,
    layer: LayerModel,
    path: Seq<PathPart>,
    is_directory: bool,
    explicit_root: Option<Seq<PathPart>>,
) -> Option<IgnoreDecision> {
    if path::path_below(path, layer.base) {
        rules_decision(platform, layer.rules, layer.base, path, is_directory, explicit_root)
    } else {
        None
    }
}

impl View for IgnoreLayer {
    type V = LayerModel;

    open spec fn view(&self) -> LayerModel {
        LayerModel { base: path::parts(self.base@), rules: rule_models(self.rules@) }
    }
}

impl IgnoreLayer {
    pub open spec fn wf(self) -> bool {
        &&& forall|i: int| 0 <= i < self.rules.len() ==> (#[trigger] self.rules[i]).wf()
        &&& self.has_include_descendant == some_rule_includes(self@.rules)
    }

    /// Ties rules to a directory.
    pub fn from_templates(base: Vec<PathComponent>, templates: &[RuleTemplate]) -> (result: Self)
        requires
            templates_wf(templates@),
        ensures
            result.wf(),
            result@ == (LayerModel {
                base: path::parts(base@),
                rules: template_models(templates@),
            }),
    {
        let mut rules: Vec<IgnoreRule> = Vec::new();
        let mut has_include_descendant: bool = false;
        let mut index: usize = 0;
        while index < templates.len()
            invariant
                index <= templates.len(),
                rules.len() == index,
                templates_wf(templates@),
                forall|i: int|
                    0 <= i < index ==> (#[trigger] rules[i]).wf() && rules[i]@ == templates[i]@,
                has_include_descendant == exists|i: int|
                    0 <= i < index && (#[trigger] templates[i]).includes,
            decreases templates.len() - index,
        {
            if templates[index].includes {
                assert(templates[index as int].includes);
                has_include_descendant = true;
            }
            rules.push(IgnoreRule::from_template(&templates[index]));
            index += 1;
        }
        assert(rule_models(rules@) =~= template_models(templates@));
        proof {
            let models = rule_models(rules@);
            if has_include_descendant {
                let i = choose|i: int| 0 <= i < templates.len() && (#[trigger] templates[i]).includes;
                assert(models[i].includes);
            }
            if some_rule_includes(models) {
                let i = choose|i: int| 0 <= i < models.len() && (#[trigger] models[i]).includes;
                assert(templates[i].includes);
            }
        }
        IgnoreLayer { base, rules, has_include_descendant }
    }

    /// What the layer says about a path: what the last of its rules that applies says.
    pub fn decision(
        &self,
        path: &[PathComponent],
        is_directory: bool,
        explicit_root: Option<&[PathComponent]>,
        platform: Platform,
    ) -> (result: Option<IgnoreDecision>)
        requires
            self.wf(),
        ensures
            result == layer_decision(
                platform,
                self@,
                path::parts(path@),
                is_directory,
                optional_parts(explicit_root),
            ),
    {
        if self.rules.len() == 0 || !path_starts_with(path, self.base.as_slice()) {
            return None;
        }
        let mut index: usize = self.rules.len();
        let ghost rules = self@.rules;
        assert(rules.subrange(0, rules.len() as int) =~= rules);
        while index > 0
            invariant
                index <= self.rules.len(),
                self.wf(),
                rules == self@.rules,
                rules_decision(
                    platform,
                    rules,
                    self@.base,
                    path::parts(path@),
                    is_directory,
                    optional_parts(explicit_root),
                ) == rules_decision(
                    platform,
                    rules.subrange(0, index as int),
                    self@.base,
                    path::parts(path@),
                    is_directory,
                    optional_parts(explicit_root),
                ),
                path::path_below(path::parts(path@), self@.base),
            decreases index,
        {
            index -= 1;
            let rule: &IgnoreRule = &self.rules[index];
            proof {
                let here = rules.subrange(0, index + 1);
                assert(here.last() == rule@);
                assert(here.drop_last() =~= rules.subrange(0, index as int));
            }
            if self.rule_matches(rule, path, is_directory, explicit_root, platform) {
                return Some(
                    if rule.includes {
                        IgnoreDecision::Include
                    } else {
                        IgnoreDecision::Ignore
                    },
                );
            }
        }
        None
    }

    /// Whether a rule applies to a path or to a directory above it.
    pub fn rule_matches(
        &self,
        rule: &IgnoreRule,
        path: &[PathComponent],
        is_directory: bool,
        explicit_root: Option<&[PathComponent]>,
        platform: Platform,
    ) -> (result: bool)
        requires
            rule.wf(),
        ensures
            result == rule_applies(
                platform,
                rule@,
                self@.base,
                path::parts(path@),
                is_directory,
                optional_parts(explicit_root),
            ),
    {
        if (!rule.directory_only || is_directory) && rule_matches_path(
            &rule.pattern,
            self.base.as_slice(),
            path,
            platform,
        ) {
            return true;
        }
        let ghost root = optional_parts(explicit_root);
        let ghost above = glob_matches_above(
            platform,
            rule@.glob,
            self@.base,
            path::parent(path::parts(path@)),
            root,
        );
        let mut directory: &[PathComponent] = path;
        loop
            invariant
                rule.wf(),
                root == optional_parts(explicit_root),
                above == glob_matches_above(
                    platform,
                    rule@.glob,
                    self@.base,
                    path::parent(path::parts(path@)),
                    root,
                ),
                above == glob_matches_above(
                    platform,
                    rule@.glob,
                    self@.base,
                    path::parent(path::parts(directory@)),
                    root,
                ),
            ensures
                !above,
            decreases directory.len(),
        {
            let length: usize = match parent_len(directory) {
                Some(length) => length,
                None => {
                    break;
                },
            };
            let candidate: &[PathComponent] = &directory[0..length];
            if !path_starts_with(candidate, self.base.as_slice()) {
                break;
            }
            let at_root: bool = match explicit_root {
                Some(root) => paths_equal(candidate, root),
                None => false,
            };
            if at_root {
                break;
            }
            if rule_matches_path(&rule.pattern, self.base.as_slice(), candidate, platform) {
                assert(above);
                return true;
            }
            if paths_equal(candidate, self.base.as_slice()) {
                break;
            }
            directory = candidate;
        }
        false
    }
}

/// The ignore files that bear on a directory, outermost first.
#[derive(Debug)]
pub struct RuleChain {
    pub node: Option<Arc<RuleNode>>,
    /// The root that was asked for by name: rules that select it or a directory above it as a whole
    /// do not apply below it.
    pub explicit_root: Option<Arc<Vec<PathComponent>>>,
}

/// One ignore file and those outside of it.
#[derive(Debug)]
pub struct RuleNode {
    pub parent: RuleChain,
    pub layer: IgnoreLayer,
}

/// What a chain of ignore files says, outermost first.
pub struct ChainModel {
    pub layers: Seq<LayerModel>,
    pub explicit_root: Option<Seq<PathPart>>,
}

/// What the innermost layer that says anything says.
pub open spec fn layers_decision(
    platform: Platform,
    layers: Seq<LayerModel>,
    path: Seq<PathPart>,
    is_directory: bool,
    explicit_root: Option<Seq<PathPart>>,
) -> IgnoreDecision
    decreases layers.len(),
{
    if layers.len() == 0 {
        IgnoreDecision::NoMatch
    } else {
        match layer_decision(platform, layers.last(), path, is_directory, explicit_root) {
            Some(decision) => decision,
            None => layers_decision(
                platform,
                layers.drop_last(),
                path,
                is_directory,
                explicit_root,
            ),
        }
    }
}

/// What a chain says about a path.
pub open spec fn chain_decision(
    platform: Platform,
    chain: ChainModel,
    path: Seq<PathPart>,
    is_directory: bool,
) -> IgnoreDecision {
    layers_decision(platform, chain.layers, path, is_directory, chain.explicit_root)
}

/// Whether some layer takes a path back in, so that an ignored directory may hold files to find.
pub open spec fn some_layer_includes(layers: Seq<LayerModel>) -> bool {
    exists|i: int| 0 <= i < layers.len() && some_rule_includes((#[trigger] layers[i]).rules)
}

impl RuleChain {
    pub open spec fn layers(self) -> Seq<LayerModel>
        decreases self,
    {
        match self.node {
            Some(node) => node.parent.layers().push(node.layer@),
            None => Seq::empty(),
        }
    }

    pub open spec fn wf(self) -> bool
        decreases self,
    {
        match self.node {
            Some(node) => node.parent.wf() && node.layer.wf(),
            None => true,
        }
    }

    pub open spec fn root(self) -> Option<Seq<PathPart>> {
        match self.explicit_root {
            Some(root) => Some(path::parts(root@)),
            None => None,
        }
    }

    pub fn empty() -> (result: Self)
        ensures
            result.wf(),
            result@ == (ChainModel { layers: Seq::empty(), explicit_root: None }),
    {
        RuleChain { node: None, explicit_root: None }
    }

    /// Names the root that was asked for.
    pub fn with_explicit_root(self, root: Vec<PathComponent>) -> (result: Self)
        requires
            self.wf(),
        ensures
            result.wf(),
            result@ == (ChainModel {
                layers: self@.layers,
                explicit_root: Some(path::parts(root@)),
            }),
    {
        RuleChain { node: self.node, explicit_root: Some(Arc::new(root)) }
    }

    /// The chain with one more layer inside.
    pub fn extend(&self, layer: IgnoreLayer) -> (result: Self)
        requires
            self.wf(),
            layer.wf(),
        ensures
            result.wf(),
            result@ == (ChainModel {
                layers: self@.layers.push(layer@),
                explicit_root: self@.explicit_root,
            }),
    {
        let explicit_root: Option<Arc<Vec<PathComponent>>> = match &self.explicit_root {
            Some(root) => Some(Arc::clone(root)),
            None => None,
        };
        RuleChain {
            node: Some(Arc::new(RuleNode { parent: self.clone(), layer })),
            explicit_root,
        }
    }

    /// Whether a path is ignored.
    pub fn is_ignored(&self, path: &[PathComponent], is_directory: bool, platform: Platform) -> (result:
        bool)
        requires
            self.wf(),
        ensures
            result == (chain_decision(platform, self@, path::parts(path@), is_directory)
                == IgnoreDecision::Ignore),
    {
        self.decision(path, is_directory, platform) == IgnoreDecision::Ignore
    }

    /// What the chain says about a path.
    pub fn decision(&self, path: &[PathComponent], is_directory: bool, platform: Platform) -> (result:
        IgnoreDecision)
        requires
            self.wf(),
        ensures
            result == chain_decision(platform, self@, path::parts(path@), is_directory),
    {
        let explicit_root: Option<&[PathComponent]> = match &self.explicit_root {
            Some(root) => Some(root.as_slice()),
            None => None,
        };
        self.decision_with_root(path, is_directory, explicit_root, platform)
    }

    /// What the chain says about a path below the given explicit root.
    pub fn decision_with_root(
        &self,
        path: &[PathComponent],
        is_directory: bool,
        explicit_root: Option<&[PathComponent]>,
        platform: Platform,
    ) -> (result: IgnoreDecision)
        requires
            self.wf(),
        ensures
            result == layers_decision(
                platform,
                self@.layers,
                path::parts(path@),
                is_directory,
                optional_parts(explicit_root),
            ),
        decreases self,
    {
        match &self.node {
            None => IgnoreDecision::NoMatch,
            Some(node) => {
                let outer: IgnoreDecision = node.parent.decision_with_root(
                    path,
                    is_directory,
                    explicit_root,
                    platform,
                );
                assert(self@.layers.drop_last() =~= node.parent@.layers);
                match node.layer.decision(path, is_directory, explicit_root, platform) {
                    Some(decision) => decision,
                    None => outer,
                }
            },
        }
    }

    /// Whether some layer takes a path back in.
    pub fn may_include_descendant(&self) -> (result: bool)
        requires
            self.wf(),
        ensures
            result == some_layer_includes(self@.layers),
        decreases self,
    {
        match &self.node {
            None => false,
            Some(node) => {
                let ghost layers = self@.layers;
                proof {
                    let outer = node.parent@.layers;
                    assert(layers == outer.push(node.layer@));
                    assert(layers[outer.len() as int] == node.layer@);
                    if some_layer_includes(outer) {
                        let i = choose|i: int|
                            0 <= i < outer.len() && some_rule_includes((#[trigger] outer[i]).rules);
                        assert(layers[i] == outer[i]);
                    }
                    if some_layer_includes(layers) {
                        let i = choose|i: int|
                            0 <= i < layers.len() && some_rule_includes(
                                (#[trigger] layers[i]).rules,
                            );
                        if i < outer.len() {
                            assert(layers[i] == outer[i]);
                        }
                    }
                }
                node.layer.has_include_descendant || node.parent.may_include_descendant()
            },
        }
    }
}

impl View for RuleChain {
    type V = ChainModel;

    open spec fn view(&self) -> ChainModel {
        ChainModel { layers: self.layers(), explicit_root: self.root() }
    }
}

impl Clone for RuleChain {
    fn clone(&self) -> (result: Self)
        ensures
            result == *self,
    {
        let node: Option<Arc<RuleNode>> = match &self.node {
            Some(node) => Some(Arc::clone(node)),
            None => None,
        };
        let explicit_root: Option<Arc<Vec<PathComponent>>> = match &self.explicit_root {
            Some(root) => Some(Arc::clone(root)),
            None => None,
        };
        RuleChain { node, explicit_root }
    }
}

/// A rule that selects a directory covers all that lies below it, unless a root that was asked for
/// by name lies in between.
pub proof fn selected_directory_covers_its_subtree(
    platform: Platform,
    rule: RuleModel,
    base: Seq<PathPart>,
    path: Seq<PathPart>,
    length: int,
    is_directory: bool,
    explicit_root: Option<Seq<PathPart>>,
)
    requires
        base.len() <= length < path.len(),
        path::path_below(path, base),
        forall|i: int|
            length <= i < path.len() ==> !(#[trigger] path[i] is RootDir) && !(path[i] is Prefix),
        glob_matches_path(platform, rule.glob, base, path.subrange(0, length)),
        explicit_root matches Some(root) ==> forall|n: int|
            length <= n < path.len() ==> !path::same_path(#[trigger] path.subrange(0, n), root),
    ensures
        rule_applies(platform, rule, base, path, is_directory, explicit_root),
{
    lemma_match_above(platform, rule.glob, base, path, length, path.len() - 1, explicit_root);
    assert(path.drop_last() =~= path.subrange(0, path.len() - 1));
    assert(path.last() == path[path.len() - 1]);
}

proof fn lemma_match_above(
    platform: Platform,
    glob: GlobModel,
    base: Seq<PathPart>,
    path: Seq<PathPart>,
    length: int,
    from: int,
    explicit_root: Option<Seq<PathPart>>,
)
    requires
        base.len() <= length <= from < path.len(),
        path::path_below(path, base),
        forall|i: int|
            length <= i < path.len() ==> !(#[trigger] path[i] is RootDir) && !(path[i] is Prefix),
        glob_matches_path(platform, glob, base, path.subrange(0, length)),
        explicit_root matches Some(root) ==> forall|n: int|
            length <= n < path.len() ==> !path::same_path(#[trigger] path.subrange(0, n), root),
    ensures
        glob_matches_above(platform, glob, base, Some(path.subrange(0, from)), explicit_root),
    decreases from - length,
{
    let here = path.subrange(0, from);
    assert(path::path_below(here, base)) by {
        assert forall|i: int| 0 <= i < base.len() implies path::same_part(
            #[trigger] here[i],
            base[i],
        ) by {
            assert(here[i] == path[i]);
        }
    }
    if from > length {
        lemma_match_above(platform, glob, base, path, length, from - 1, explicit_root);
        assert(here.drop_last() =~= path.subrange(0, from - 1));
        assert(here.last() == path[from - 1]);
    }
}

/// What lies directly in a root that was asked for by name is touched only by rules that match it
/// itself: none applies on account of the root or of a directory above it.
pub proof fn explicit_root_shields_its_entries(
    platform: Platform,
    rule: RuleModel,
    base: Seq<PathPart>,
    path: Seq<PathPart>,
    is_directory: bool,
    root: Seq<PathPart>,
)
    requires
        path.len() == root.len() + 1,
        path::path_below(path, root),
    ensures
        rule_applies(platform, rule, base, path, is_directory, Some(root)) == ((
        !rule.directory_only || is_directory) && glob_matches_path(
            platform,
            rule.glob,
            base,
            path,
        )),
{
    let above = path.drop_last();
    assert(path::same_path(above, root)) by {
        assert forall|i: int| 0 <= i < root.len() implies path::same_part(
            #[trigger] above[i],
            root[i],
        ) by {
            assert(above[i] == path[i]);
        }
    }
}

/// The innermost layer that says anything about a path decides, and in it the last rule that
/// applies: a rule at the end of the last layer overrides all that comes before it.
pub proof fn last_rule_decides(
    platform: Platform,
    outer: Seq<LayerModel>,
    inner: LayerModel,
    rule: RuleModel,
    path: Seq<PathPart>,
    is_directory: bool,
    explicit_root: Option<Seq<PathPart>>,
)
    requires
        path::path_below(path, inner.base),
        rule_applies(platform, rule, inner.base, path, is_directory, explicit_root),
    ensures
        layers_decision(
            platform,
            outer.push(LayerModel { base: inner.base, rules: inner.rules.push(rule) }),
            path,
            is_directory,
            explicit_root,
        ) == (if rule.includes {
            IgnoreDecision::Include
        } else {
            IgnoreDecision::Ignore
        }),
{
    assert(inner.rules.push(rule).last() == rule);
}

/// The rules in the bytes of an ignore file.
pub open spec fn rules_of_file(bytes: Seq<u8>) -> Seq<RuleModel> {
    rules_of_lines(text::lines_from(encode_utf8(text::lossy(bytes)), 0))
}

/// The layer that the bytes of an ignore file make; none where they hold no rule.
pub fn ignore_layer_from_bytes(bytes: &[u8], base: Vec<PathComponent>) -> (result: Option<
    IgnoreLayer,
>)
    ensures
        match result {
            Some(layer) => {
                &&& layer.wf()
                &&& layer@ == (LayerModel {
                    base: path::parts(base@),
                    rules: rules_of_file(bytes@),
                })
                &&& rules_of_file(bytes@).len() > 0
            },
            None => rules_of_file(bytes@).len() == 0,
        },
{
    let text: String = lossy_text(bytes);
    let templates: Vec<RuleTemplate> = parse_ignore_templates(text.as_str());
    assert(template_models(templates@).len() == templates.len());
    if templates.len() == 0 {
        return None;
    }
    Some(IgnoreLayer::from_templates(base, templates.as_slice()))
}

} // verus!
