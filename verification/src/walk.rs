//! Which files a walk over directories finds.

use vstd::prelude::*;
use vstd::utf8::*;
use crate::glob::{GlobError, GlobFault};
use crate::ignore;
use crate::ignore::{ChainModel, IgnoreDecision, RuleChain, RuleModel, RuleTemplate};
use crate::path;
use crate::path::{absolute_path_from, copy_path, is_hidden_path, PathComponent, PathPart};
use crate::platform::Platform;
use crate::text;
use crate::text::copy_bytes;
use crate::user_globs;
use crate::user_globs::{GlobDecision, UserGlobSet, UserSetModel};

verus! {

/// The most files that are handed on together.
pub const FILE_BATCH_SIZE: usize = 64;

/// The most entries of a directory that are looked through for ignore files before its rules are
/// loaded.
pub const MAX_BUFFERED_DIRECTORY_ENTRIES: usize = 4_096;

/// A path as it was written, and its components.
#[derive(Debug)]
pub struct WrittenPath {
    pub spelling: Vec<u8>,
    pub components: Vec<PathComponent>,
}

/// What a written path is.
pub struct WrittenModel {
    pub spelling: Seq<u8>,
    pub parts: Seq<PathPart>,
}

impl View for WrittenPath {
    type V = WrittenModel;

    open spec fn view(&self) -> WrittenModel {
        WrittenModel { spelling: self.spelling@, parts: path::parts(self.components@) }
    }
}

impl Clone for WrittenPath {
    fn clone(&self) -> (result: Self)
        ensures
            result@ == self@,
    {
        WrittenPath {
            spelling: copy_bytes(self.spelling.as_slice()),
            components: copy_path(self.components.as_slice()),
        }
    }
}

/// What affects which files are found.
#[derive(Debug)]
pub struct NativeWalkOptions {
    /// Whether names with a leading dot are found. A pattern of the command line that includes a
    /// path finds it in any case.
    pub hidden: bool,
    /// Whether ignore files are left unread. This does not bear on hidden names.
    pub no_ignore: bool,
    /// Whether symbolic links are followed.
    pub follow_links: bool,
    /// The `-g` patterns in order. One with a leading `!` excludes; any other includes, and then
    /// overrides hidden names and ignore files.
    pub globs: Vec<String>,
    /// Where patterns with a slash start from; the process's directory where there is none.
    pub current_dir: Option<WrittenPath>,
}

impl Default for NativeWalkOptions {
    fn default() -> (result: Self)
        ensures
            !result.hidden,
            !result.no_ignore,
            !result.follow_links,
            result.globs@.len() == 0,
            result.current_dir is None,
    {
        NativeWalkOptions {
            hidden: false,
            no_ignore: false,
            follow_links: false,
            globs: Vec::new(),
            current_dir: None,
        }
    }
}

/// One root of a walk.
#[derive(Debug)]
pub struct RootSpec {
    /// The absolute path without `.` and `..`, for access and for ignore rules.
    pub traversal_path: Vec<PathComponent>,
    /// The root as it was written.
    pub display_path: Vec<u8>,
}

/// What a root of a walk is.
pub struct RootModel {
    pub traversal: Seq<PathPart>,
    pub display: Seq<u8>,
}

impl View for RootSpec {
    type V = RootModel;

    open spec fn view(&self) -> RootModel {
        RootModel { traversal: path::parts(self.traversal_path@), display: self.display_path@ }
    }
}

/// A walk with its patterns parsed.
#[derive(Debug)]
pub struct NativeWalker {
    pub roots: Vec<RootSpec>,
    pub options: NativeWalkOptions,
    pub current_dir: Vec<PathComponent>,
    pub user_globs: UserGlobSet,
    pub global_rules: Vec<RuleTemplate>,
    pub platform: Platform,
}

/// What decides whether a walk finds a path.
pub struct WalkRules {
    pub platform: Platform,
    pub hidden: bool,
    pub globs: UserSetModel,
    pub current_dir: Seq<PathPart>,
}

/// The roots as seen from `current_dir`; the current directory itself where none is given.
pub open spec fn resolved_roots(current_dir: Seq<PathPart>, roots: Seq<WrittenModel>) -> Seq<
    RootModel,
> {
    if roots.len() == 0 {
        seq![
            RootModel {
                traversal: path::normalized(path::joined(current_dir, seq![PathPart::CurDir])),
                display: seq![crate::ascii::DOT],
            },
        ]
    } else {
        Seq::new(
            roots.len(),
            |i: int|
                RootModel {
                    traversal: path::normalized(path::joined(current_dir, roots[i].parts)),
                    display: roots[i].spelling,
                },
        )
    }
}

/// What written paths are.
pub open spec fn written_models(paths: Seq<WrittenPath>) -> Seq<WrittenModel> {
    Seq::new(paths.len(), |i: int| paths[i]@)
}

/// What roots are.
pub open spec fn root_models(roots: Seq<RootSpec>) -> Seq<RootModel> {
    Seq::new(roots.len(), |i: int| roots[i]@)
}

/// The directory that patterns start from.
pub open spec fn starting_directory(
    options: NativeWalkOptions,
    process_dir: Seq<PathPart>,
) -> Seq<PathPart> {
    match options.current_dir {
        Some(path) => path::normalized(path::joined(process_dir, path@.parts)),
        None => process_dir,
    }
}

/// The message for a process whose directory cannot be told.
pub open spec fn directory_error_text(has_base: bool, reason: Seq<char>) -> Seq<char> {
    if has_base {
        "glob の基準ディレクトリを解決できませんでした: "@ + reason
    } else {
        "現在のディレクトリを取得できませんでした: "@ + reason
    }
}

/// Whether a walk finds a file: a pattern of the command line decides where one matches; where none
/// does, a pattern that includes something keeps it out, and so do a hidden name and the ignore
/// rules.
pub open spec fn emits_file(
    rules: WalkRules,
    chain: ChainModel,
    root_base: Seq<PathPart>,
    path: Seq<PathPart>,
) -> bool {
    match user_globs::user_decision(
        rules.platform,
        rules.globs.rules,
        path,
        rules.current_dir,
        root_base,
    ) {
        GlobDecision::Exclude => false,
        GlobDecision::Include => true,
        GlobDecision::Unmatched => {
            &&& !rules.globs.has_include
            &&& rules.hidden || !path::hidden(path)
            &&& ignore::chain_decision(rules.platform, chain, path, false)
                != IgnoreDecision::Ignore
        },
    }
}

/// Whether a walk goes into a directory. One that no pattern matches is gone into where a pattern
/// includes something, for a match may lie below; an ignored one is gone into where a rule takes
/// something back in.
pub open spec fn descends(
    rules: WalkRules,
    chain: ChainModel,
    root_base: Seq<PathPart>,
    path: Seq<PathPart>,
) -> bool {
    match user_globs::user_decision(
        rules.platform,
        rules.globs.rules,
        path,
        rules.current_dir,
        root_base,
    ) {
        GlobDecision::Exclude => false,
        GlobDecision::Include => true,
        GlobDecision::Unmatched => {
            ||| rules.globs.has_include
            ||| (rules.hidden || !path::hidden(path)) && (ignore::chain_decision(
                rules.platform,
                chain,
                path,
                true,
            ) != IgnoreDecision::Ignore || ignore::some_layer_includes(chain.layers))
        },
    }
}

impl NativeWalker {
    pub open spec fn wf(self) -> bool {
        &&& self.user_globs.wf()
        &&& ignore::templates_wf(self.global_rules@)
    }

    pub open spec fn rules(self) -> WalkRules {
        WalkRules {
            platform: self.platform,
            hidden: self.options.hidden,
            globs: self.user_globs@,
            current_dir: path::parts(self.current_dir@),
        }
    }

    /// Sets up a walk. `process_dir` is the process's directory or the reason why it cannot be
    /// told; `global_rules` are the rules of the user's own exclude file, which are dropped where
    /// ignore files are left unread.
    pub fn new(
        roots: Vec<WrittenPath>,
        options: NativeWalkOptions,
        process_dir: Result<Vec<PathComponent>, String>,
        global_rules: Vec<RuleTemplate>,
        platform: Platform,
    ) -> (result: Result<Self, GlobError>)
        requires
            ignore::templates_wf(global_rules@),
        ensures
            match result {
                Ok(walker) => {
                    &&& process_dir matches Ok(directory) && {
                        &&& path::parts(walker.current_dir@) == starting_directory(
                            options,
                            path::parts(directory@),
                        )
                    }
                    &&& walker.wf()
                    &&& walker.options == options
                    &&& walker.platform == platform
                    &&& root_models(walker.roots@) == resolved_roots(
                        path::parts(walker.current_dir@),
                        written_models(roots@),
                    )
                    &&& user_globs::parsed_values(text::texts(options.globs@)) == Ok::<
                        UserSetModel,
                        (Seq<char>, GlobFault),
                    >(walker.user_globs@)
                    &&& ignore::template_models(walker.global_rules@) == if options.no_ignore {
                        Seq::empty()
                    } else {
                        ignore::template_models(global_rules@)
                    }
                },
                Err(error) => match process_dir {
                    Err(reason) => {
                        &&& error.pattern is None
                        &&& error.message@ == directory_error_text(
                            options.current_dir is Some,
                            reason@,
                        )
                    },
                    Ok(_) => user_globs::parsed_values(text::texts(options.globs@)) matches Err(
                        (raw, fault),
                    ) && error.reports(fault, raw),
                },
            },
            process_dir is Err ==> result is Err,
    {
        let process: Vec<PathComponent> = match process_dir {
            Ok(directory) => directory,
            Err(reason) => {
                let prefix: &str = if options.current_dir.is_some() {
                    "glob の基準ディレクトリを解決できませんでした: "
                } else {
                    "現在のディレクトリを取得できませんでした: "
                };
                let message: String = prefix.to_owned().concat(reason.as_str());
                return Err(GlobError::new(None, message));
            },
        };
        let current_dir: Vec<PathComponent> = match &options.current_dir {
            Some(path) => absolute_path_from(process.as_slice(), path.components.as_slice()),
            None => process,
        };
        let root_specs: Vec<RootSpec> = resolve_roots(current_dir.as_slice(), roots.as_slice());
        let user_globs: UserGlobSet = match UserGlobSet::parse(options.globs.as_slice()) {
            Ok(set) => set,
            Err(error) => {
                return Err(error);
            },
        };
        let global_rules: Vec<RuleTemplate> = if options.no_ignore {
            Vec::new()
        } else {
            global_rules
        };
        assert(options.no_ignore ==> ignore::template_models(global_rules@)
            =~= Seq::<RuleModel>::empty());
        Ok(
            NativeWalker {
                roots: root_specs,
                options,
                current_dir,
                user_globs,
                global_rules,
                platform,
            },
        )
    }

    /// Whether a file is found.
    pub fn should_emit_file(
        &self,
        context: &RuleChain,
        root_base: &[PathComponent],
        path: &[PathComponent],
    ) -> (result: bool)
        requires
            self.wf(),
            context.wf(),
        ensures
            result == emits_file(
                self.rules(),
                context@,
                path::parts(root_base@),
                path::parts(path@),
            ),
    {
        match self.user_globs.decision(
            path,
            self.current_dir.as_slice(),
            root_base,
            self.platform,
        ) {
            GlobDecision::Exclude => false,
            GlobDecision::Include => true,
            GlobDecision::Unmatched => {
                if self.user_globs.has_include {
                    return false;
                }
                if !self.options.hidden && is_hidden_path(path) {
                    return false;
                }
                !context.is_ignored(path, false, self.platform)
            },
        }
    }

    /// Whether a directory is gone into.
    pub fn should_descend(
        &self,
        context: &RuleChain,
        root_base: &[PathComponent],
        path: &[PathComponent],
    ) -> (result: bool)
        requires
            self.wf(),
            context.wf(),
        ensures
            result == descends(
                self.rules(),
                context@,
                path::parts(root_base@),
                path::parts(path@),
            ),
    {
        match self.user_globs.decision(
            path,
            self.current_dir.as_slice(),
            root_base,
            self.platform,
        ) {
            GlobDecision::Exclude => false,
            GlobDecision::Include => true,
            GlobDecision::Unmatched => {
                if self.user_globs.has_include {
                    return true;
                }
                if !self.options.hidden && is_hidden_path(path) {
                    return false;
                }
                !context.is_ignored(path, true, self.platform) || context.may_include_descendant()
            },
        }
    }
}

/// Resolves the roots of a walk.
fn resolve_roots(current_dir: &[PathComponent], roots: &[WrittenPath]) -> (result: Vec<RootSpec>)
    ensures
        root_models(result@) == resolved_roots(
            path::parts(current_dir@),
            written_models(roots@),
        ),
{
    let mut specs: Vec<RootSpec> = Vec::new();
    if roots.len() == 0 {
        let here: [PathComponent; 1] = [PathComponent::CurDir];
        assert(path::parts(here@) =~= seq![PathPart::CurDir]);
        let mut spelling: Vec<u8> = Vec::new();
        spelling.push(crate::ascii::DOT);
        assert(spelling@ =~= seq![crate::ascii::DOT]);
        specs.push(
            RootSpec {
                traversal_path: absolute_path_from(current_dir, here.as_slice()),
                display_path: spelling,
            },
        );
        assert(root_models(specs@) =~= resolved_roots(
            path::parts(current_dir@),
            written_models(roots@),
        ));
        return specs;
    }
    let mut index: usize = 0;
    let ghost expected = resolved_roots(path::parts(current_dir@), written_models(roots@));
    while index < roots.len()
        invariant
            index <= roots.len(),
            specs.len() == index,
            roots.len() > 0,
            expected == resolved_roots(path::parts(current_dir@), written_models(roots@)),
            forall|i: int| 0 <= i < index ==> (#[trigger] specs[i])@ == expected[i],
        decreases roots.len() - index,
    {
        specs.push(
            RootSpec {
                traversal_path: absolute_path_from(
                    current_dir,
                    roots[index].components.as_slice(),
                ),
                display_path: copy_bytes(roots[index].spelling.as_slice()),
            },
        );
        index += 1;
    }
    assert(root_models(specs@) =~= expected);
    specs
}

/// A pattern of the command line that includes a file finds it, hidden or ignored as it may be; one
/// that excludes it keeps it out.
pub proof fn command_line_overrides_other_rules(
    rules: WalkRules,
    chain: ChainModel,
    root_base: Seq<PathPart>,
    path: Seq<PathPart>,
    last: user_globs::UserRuleModel,
    before: Seq<user_globs::UserRuleModel>,
)
    requires
        rules.globs.rules == before.push(last),
        user_globs::user_rule_matches(rules.platform, last, path, rules.current_dir, root_base),
    ensures
        emits_file(rules, chain, root_base, path) == last.includes,
        descends(rules, chain, root_base, path) == last.includes,
{
    assert(before.push(last).last() == last);
}

/// Without ignore rules a walk without patterns finds every file, and goes into every directory,
/// whose name is not hidden; with hidden names asked for, every one.
pub proof fn plain_walk_finds_all_but_hidden(
    rules: WalkRules,
    root_base: Seq<PathPart>,
    path: Seq<PathPart>,
)
    requires
        rules.globs.rules.len() == 0,
        !rules.globs.has_include,
    ensures
        ({
            let none = ChainModel { layers: Seq::empty(), explicit_root: None };
            &&& emits_file(rules, none, root_base, path) == (rules.hidden || !path::hidden(path))
            &&& descends(rules, none, root_base, path) == (rules.hidden || !path::hidden(path))
        }),
{
}

} // verus!
