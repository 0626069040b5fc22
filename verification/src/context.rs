//! The ignore rules that bear on a directory, as they are gathered from outside in.

use vstd::prelude::*;
use vstd::utf8::*;
use crate::ignore;
use crate::ignore::{
    ignore_layer_from_bytes, ChainModel, IgnoreLayer, LayerModel, RuleChain,
    MAX_IGNORE_FILE_BYTES,
};
use crate::path;
use crate::path::{copy_path, parent_len, PathComponent, PathPart};
use crate::text;
use crate::text::{byte_strings_equal, copy_bytes, equal_ignoring_case};
use crate::walk::NativeWalker;

verus! {

/// A failure of the file system, with the path that it is about as that is shown.
#[derive(Debug)]
pub struct WalkError {
    pub path: Option<Vec<u8>>,
    pub message: String,
}

/// What a failure says.
pub struct ErrorModel {
    pub path: Option<Seq<u8>>,
    pub message: Seq<char>,
}

impl View for WalkError {
    type V = ErrorModel;

    open spec fn view(&self) -> ErrorModel {
        ErrorModel {
            path: match self.path {
                Some(path) => Some(path@),
                None => None,
            },
            message: self.message@,
        }
    }
}

impl WalkError {
    /// The failure of an access to `path`.
    pub fn io(path: &[u8], message: &str) -> (result: Self)
        ensures
            result@ == (ErrorModel { path: Some(path@), message: message@ }),
    {
        WalkError { path: Some(copy_bytes(path)), message: message.to_owned() }
    }

    /// The path that the failure is about.
    pub fn path(&self) -> (result: Option<&[u8]>)
        ensures
            match result {
                Some(path) => self@.path == Some(path@),
                None => self@.path is None,
            },
    {
        match &self.path {
            Some(path) => Some(path.as_slice()),
            None => None,
        }
    }
}

/// What failures say.
pub open spec fn error_models(errors: Seq<WalkError>) -> Seq<ErrorModel> {
    Seq::new(errors.len(), |i: int| errors[i]@)
}

/// What came of reading an ignore file.
#[derive(Debug)]
pub enum ReadOutcome {
    Missing,
    Failed(String),
    /// The bytes of the file, or of as much of it as shows that it is too long.
    Bytes(Vec<u8>),
}

/// The ignore files of a directory.
#[derive(Clone, Copy, Debug, PartialEq, Eq, Structural)]
pub enum IgnoreFileName {
    /// An exclude file of Git's own for the repository that the directory is the top of.
    GitExclude,
    /// `.gitignore`.
    Gitignore,
    /// `.ignore`.
    Ignore,
    /// `.rgignore`.
    Rgignore,
}

impl IgnoreFileName {
    /// The name of the file in its directory; Git's exclude files lie elsewhere.
    pub open spec fn spelling(self) -> Option<Seq<char>> {
        match self {
            IgnoreFileName::GitExclude => None,
            IgnoreFileName::Gitignore => Some(".gitignore"@),
            IgnoreFileName::Ignore => Some(".ignore"@),
            IgnoreFileName::Rgignore => Some(".rgignore"@),
        }
    }

    /// The place of a file among those of one directory: a later one overrides an earlier one.
    pub open spec fn rank(self) -> int {
        match self {
            IgnoreFileName::GitExclude => 0,
            IgnoreFileName::Gitignore => 1,
            IgnoreFileName::Ignore => 2,
            IgnoreFileName::Rgignore => 3,
        }
    }

    /// The name of the file in its directory; Git's exclude files lie elsewhere.
    pub fn file_name(self) -> (result: Option<&'static str>)
        ensures
            match result {
                Some(name) => self.spelling() == Some(name@),
                None => self.spelling() is None,
            },
    {
        match self {
            IgnoreFileName::GitExclude => None,
            IgnoreFileName::Gitignore => Some(".gitignore"),
            IgnoreFileName::Ignore => Some(".ignore"),
            IgnoreFileName::Rgignore => Some(".rgignore"),
        }
    }
}

/// An ignore file and what came of reading it.
#[derive(Debug)]
pub struct LayerRead {
    pub name: IgnoreFileName,
    pub path: Vec<u8>,
    pub outcome: ReadOutcome,
}

/// What came of reading an ignore file.
pub enum OutcomeModel {
    Missing,
    Failed(Seq<char>),
    Bytes(Seq<u8>),
}

/// An ignore file and what came of reading it.
pub struct ReadModel {
    pub name: IgnoreFileName,
    pub path: Seq<u8>,
    pub outcome: OutcomeModel,
}

impl View for LayerRead {
    type V = ReadModel;

    open spec fn view(&self) -> ReadModel {
        ReadModel {
            name: self.name,
            path: self.path@,
            outcome: match self.outcome {
                ReadOutcome::Missing => OutcomeModel::Missing,
                ReadOutcome::Failed(reason) => OutcomeModel::Failed(reason@),
                ReadOutcome::Bytes(bytes) => OutcomeModel::Bytes(bytes@),
            },
        }
    }
}

/// What came of reading ignore files.
pub open spec fn read_models(reads: Seq<LayerRead>) -> Seq<ReadModel> {
    Seq::new(reads.len(), |i: int| reads[i]@)
}

/// The layer that a read makes for the directory `base`, if it makes one, or the failure.
pub open spec fn loaded(read: ReadModel, base: Seq<PathPart>) -> Result<
    Option<LayerModel>,
    ErrorModel,
> {
    match read.outcome {
        OutcomeModel::Missing => Ok(None),
        OutcomeModel::Failed(reason) => Err(
            ErrorModel { path: Some(read.path), message: reason },
        ),
        OutcomeModel::Bytes(bytes) => if bytes.len() > MAX_IGNORE_FILE_BYTES {
            Err(
                ErrorModel {
                    path: Some(read.path),
                    message: "ignore file exceeds 8388608 bytes"@,
                },
            )
        } else if ignore::rules_of_file(bytes).len() == 0 {
            Ok(None)
        } else {
            Ok(Some(LayerModel { base, rules: ignore::rules_of_file(bytes) }))
        },
    }
}

/// Makes the layer of one ignore file.
pub fn load_ignore_layer(read: &LayerRead, base: &[PathComponent]) -> (result: Result<
    Option<IgnoreLayer>,
    WalkError,
>)
    ensures
        match result {
            Ok(Some(layer)) => layer.wf() && loaded(read@, path::parts(base@)) == Ok::<
                Option<LayerModel>,
                ErrorModel,
            >(Some(layer@)),
            Ok(None) => loaded(read@, path::parts(base@)) == Ok::<Option<LayerModel>, ErrorModel>(
                None,
            ),
            Err(error) => loaded(read@, path::parts(base@)) == Err::<
                Option<LayerModel>,
                ErrorModel,
            >(error@),
        },
{
    match &read.outcome {
        ReadOutcome::Missing => Ok(None),
        ReadOutcome::Failed(reason) => Err(WalkError::io(read.path.as_slice(), reason.as_str())),
        ReadOutcome::Bytes(bytes) => {
            if bytes.len() > MAX_IGNORE_FILE_BYTES {
                return Err(
                    WalkError::io(read.path.as_slice(), "ignore file exceeds 8388608 bytes"),
                );
            }
            Ok(ignore_layer_from_bytes(bytes.as_slice(), copy_path(base)))
        },
    }
}

/// `layers` and those that reads make for the directory `base`, in order.
pub open spec fn layers_after(
    layers: Seq<LayerModel>,
    base: Seq<PathPart>,
    reads: Seq<ReadModel>,
) -> Seq<LayerModel>
    decreases reads.len(),
{
    if reads.len() == 0 {
        layers
    } else {
        let before = layers_after(layers, base, reads.drop_last());
        match loaded(reads.last(), base) {
            Ok(Some(layer)) => before.push(layer),
            _ => before,
        }
    }
}

/// The failures among reads, in order.
pub open spec fn read_errors(base: Seq<PathPart>, reads: Seq<ReadModel>) -> Seq<ErrorModel>
    decreases reads.len(),
{
    if reads.len() == 0 {
        Seq::empty()
    } else {
        let before = read_errors(base, reads.drop_last());
        match loaded(reads.last(), base) {
            Err(error) => before.push(error),
            Ok(_) => before,
        }
    }
}

/// The reads of files with one name, in order.
pub open spec fn reads_named(reads: Seq<ReadModel>, name: IgnoreFileName) -> Seq<ReadModel>
    decreases reads.len(),
{
    if reads.len() == 0 {
        Seq::empty()
    } else {
        let before = reads_named(reads.drop_last(), name);
        if reads.last().name == name {
            before.push(reads.last())
        } else {
            before
        }
    }
}

/// The reads for one directory in the order in which they override one another, whatever order they
/// came in: Git's exclude files, `.gitignore`, `.ignore`, `.rgignore`.
pub open spec fn ordered_reads(reads: Seq<ReadModel>) -> Seq<ReadModel> {
    reads_named(reads, IgnoreFileName::GitExclude) + reads_named(reads, IgnoreFileName::Gitignore)
        + reads_named(reads, IgnoreFileName::Ignore) + reads_named(reads, IgnoreFileName::Rgignore)
}

/// `layers` and those of the ignore files of the directory `base`, of which later ones override.
pub open spec fn layers_inside(
    layers: Seq<LayerModel>,
    base: Seq<PathPart>,
    reads: Seq<ReadModel>,
) -> Seq<LayerModel> {
    layers_after(layers, base, ordered_reads(reads))
}

/// The failures among the reads for the directory `base`.
pub open spec fn errors_inside(base: Seq<PathPart>, reads: Seq<ReadModel>) -> Seq<ErrorModel> {
    read_errors(base, ordered_reads(reads))
}

proof fn lemma_layers_add(
    layers: Seq<LayerModel>,
    base: Seq<PathPart>,
    first: Seq<ReadModel>,
    second: Seq<ReadModel>,
)
    ensures
        layers_after(layers, base, first + second) == layers_after(
            layers_after(layers, base, first),
            base,
            second,
        ),
        read_errors(base, first + second) == read_errors(base, first) + read_errors(base, second),
    decreases second.len(),
{
    let both = first + second;
    if second.len() == 0 {
        assert(both =~= first);
        assert(read_errors(base, first) + read_errors(base, second) =~= read_errors(base, first));
    } else {
        assert(both.drop_last() =~= first + second.drop_last());
        assert(both.last() == second.last());
        lemma_layers_add(layers, base, first, second.drop_last());
        assert(read_errors(base, both) =~= read_errors(base, first) + read_errors(base, second));
    }
}

proof fn lemma_reads_named(reads: Seq<ReadModel>, name: IgnoreFileName)
    ensures
        forall|i: int|
            0 <= i < reads_named(reads, name).len() ==> (#[trigger] reads_named(
                reads,
                name,
            )[i]).name == name,
    decreases reads.len(),
{
    if reads.len() > 0 {
        lemma_reads_named(reads.drop_last(), name);
    }
}

/// The files of one directory override one another in one order: `.rgignore` comes behind `.ignore`,
/// that behind `.gitignore`, and that behind Git's exclude files.
pub proof fn files_override_in_order(reads: Seq<ReadModel>)
    ensures
        forall|i: int, j: int|
            0 <= i <= j < ordered_reads(reads).len() ==> (#[trigger] ordered_reads(
                reads,
            )[i]).name.rank() <= (#[trigger] ordered_reads(reads)[j]).name.rank(),
{
    lemma_reads_named(reads, IgnoreFileName::GitExclude);
    lemma_reads_named(reads, IgnoreFileName::Gitignore);
    lemma_reads_named(reads, IgnoreFileName::Ignore);
    lemma_reads_named(reads, IgnoreFileName::Rgignore);
}

/// Which of the names that matter a directory holds.
#[derive(Clone, Copy, Debug, PartialEq, Eq, Structural)]
pub struct IgnoreFilePresence {
    pub dot_git: bool,
    pub gitignore: bool,
    pub ignore: bool,
    pub rgignore: bool,
}

impl IgnoreFilePresence {
    pub fn none() -> (result: Self)
        ensures
            result == (IgnoreFilePresence {
                dot_git: false,
                gitignore: false,
                ignore: false,
                rgignore: false,
            }),
    {
        IgnoreFilePresence { dot_git: false, gitignore: false, ignore: false, rgignore: false }
    }

    /// What is known once `name` was seen, whatever the case of its letters.
    pub open spec fn with_name(self, name: Seq<char>) -> Self {
        let bytes = encode_utf8(name);
        if text::same_ignoring_case(bytes, encode_utf8(".git"@)) {
            IgnoreFilePresence { dot_git: true, ..self }
        } else if text::same_ignoring_case(bytes, encode_utf8(".gitignore"@)) {
            IgnoreFilePresence { gitignore: true, ..self }
        } else if text::same_ignoring_case(bytes, encode_utf8(".ignore"@)) {
            IgnoreFilePresence { ignore: true, ..self }
        } else if text::same_ignoring_case(bytes, encode_utf8(".rgignore"@)) {
            IgnoreFilePresence { rgignore: true, ..self }
        } else {
            self
        }
    }

    /// Takes note of a name; one that is not text is passed over.
    pub fn observe(&mut self, name: Option<&str>)
        ensures
            *final(self) == match name {
                Some(name) => old(self).with_name(name@),
                None => *old(self),
            },
    {
        let name: &str = match name {
            Some(name) => name,
            None => {
                return;
            },
        };
        if equal_ignoring_case(name, ".git") {
            self.dot_git = true;
        } else if equal_ignoring_case(name, ".gitignore") {
            self.gitignore = true;
        } else if equal_ignoring_case(name, ".ignore") {
            self.ignore = true;
        } else if equal_ignoring_case(name, ".rgignore") {
            self.rgignore = true;
        }
    }
}

impl IgnoreFilePresence {
    /// Whether the ignore file of this name was seen.
    pub open spec fn holds(self, name: Seq<char>) -> bool {
        let bytes = encode_utf8(name);
        ||| bytes == encode_utf8(".gitignore"@) && self.gitignore
        ||| bytes == encode_utf8(".ignore"@) && self.ignore
        ||| bytes == encode_utf8(".rgignore"@) && self.rgignore
    }

    /// Whether the ignore file of this name was seen; no other name counts as seen.
    pub fn contains(&self, name: &str) -> (result: bool)
        ensures
            result == self.holds(name@),
    {
        let bytes: &[u8] = name.as_bytes();
        (self.gitignore && byte_strings_equal(bytes, ".gitignore".as_bytes())) || (self.ignore
            && byte_strings_equal(bytes, ".ignore".as_bytes())) || (self.rgignore
            && byte_strings_equal(bytes, ".rgignore".as_bytes()))
    }
}

/// Which files are to be read for a directory.
#[derive(Clone, Copy, Debug, PartialEq, Eq, Structural)]
pub struct WantedReads {
    pub git_excludes: bool,
    pub gitignore: bool,
    pub ignore: bool,
    pub rgignore: bool,
}

/// Which files are to be read: none where ignore files are left unread, all where it is not known
/// which there are, and otherwise those that there are.
pub open spec fn wanted(no_ignore: bool, present: Option<IgnoreFilePresence>) -> WantedReads {
    match present {
        None => WantedReads {
            git_excludes: !no_ignore,
            gitignore: !no_ignore,
            ignore: !no_ignore,
            rgignore: !no_ignore,
        },
        Some(names) => WantedReads {
            git_excludes: !no_ignore && names.dot_git,
            gitignore: !no_ignore && names.gitignore,
            ignore: !no_ignore && names.ignore,
            rgignore: !no_ignore && names.rgignore,
        },
    }
}

/// The files that are read for a directory, first first.
pub open spec fn ordered_files(wanted: WantedReads) -> Seq<IgnoreFileName> {
    let git = if wanted.git_excludes {
        seq![IgnoreFileName::GitExclude]
    } else {
        Seq::empty()
    };
    let own = if wanted.gitignore {
        git.push(IgnoreFileName::Gitignore)
    } else {
        git
    };
    let general = if wanted.ignore {
        own.push(IgnoreFileName::Ignore)
    } else {
        own
    };
    if wanted.rgignore {
        general.push(IgnoreFileName::Rgignore)
    } else {
        general
    }
}

/// The files that are to be read for a directory, first first.
pub fn files_to_read(wanted: WantedReads) -> (result: Vec<IgnoreFileName>)
    ensures
        result@ == ordered_files(wanted),
{
    let mut files: Vec<IgnoreFileName> = Vec::new();
    if wanted.git_excludes {
        files.push(IgnoreFileName::GitExclude);
    }
    assert(wanted.git_excludes ==> files@ =~= seq![IgnoreFileName::GitExclude]);
    if wanted.gitignore {
        files.push(IgnoreFileName::Gitignore);
    }
    if wanted.ignore {
        files.push(IgnoreFileName::Ignore);
    }
    if wanted.rgignore {
        files.push(IgnoreFileName::Rgignore);
    }
    files
}

/// The directories above a path, outermost first.
pub open spec fn ancestors(path: Seq<PathPart>) -> Seq<Seq<PathPart>>
    decreases path.len(),
{
    match path::parent(path) {
        None => Seq::empty(),
        Some(above) => if above.len() < path.len() {
            ancestors(above).push(above)
        } else {
            Seq::empty()
        },
    }
}

/// What paths are.
pub open spec fn path_models(paths: Seq<Vec<PathComponent>>) -> Seq<Seq<PathPart>> {
    Seq::new(paths.len(), |i: int| path::parts(paths[i]@))
}

/// The directories above a path, outermost first.
pub fn ancestor_directories(path: &[PathComponent]) -> (result: Vec<Vec<PathComponent>>)
    ensures
        path_models(result@) == ancestors(path::parts(path@)),
    decreases path.len(),
{
    match parent_len(path) {
        None => {
            let result: Vec<Vec<PathComponent>> = Vec::new();
            assert(path_models(result@) =~= Seq::<Seq<PathPart>>::empty());
            result
        },
        Some(length) => {
            let above: &[PathComponent] = &path[0..length];
            let mut result: Vec<Vec<PathComponent>> = ancestor_directories(above);
            let ghost before = path_models(result@);
            result.push(copy_path(above));
            assert(path_models(result@) =~= before.push(path::parts(above@)));
            result
        },
    }
}

/// The layers of a chain for what lies in `directories`, each with the reads at its place.
pub open spec fn layers_of_directories(
    layers: Seq<LayerModel>,
    directories: Seq<Seq<PathPart>>,
    reads: Seq<Seq<ReadModel>>,
    count: int,
) -> Seq<LayerModel>
    decreases count,
{
    if count <= 0 {
        layers
    } else {
        layers_inside(
            layers_of_directories(layers, directories, reads, count - 1),
            directories[count - 1],
            reads[count - 1],
        )
    }
}

/// The failures among the reads for `directories`.
pub open spec fn errors_of_directories(
    directories: Seq<Seq<PathPart>>,
    reads: Seq<Seq<ReadModel>>,
    count: int,
) -> Seq<ErrorModel>
    decreases count,
{
    if count <= 0 {
        Seq::empty()
    } else {
        errors_of_directories(directories, reads, count - 1) + errors_inside(
            directories[count - 1],
            reads[count - 1],
        )
    }
}

/// What came of reading the ignore files of several directories.
pub open spec fn all_read_models(reads: Seq<Vec<LayerRead>>) -> Seq<Seq<ReadModel>> {
    Seq::new(reads.len(), |i: int| read_models(reads[i]@))
}

/// The user's own rules, which bear on the root and all below, as a layer where there are any.
pub open spec fn global_layers(walker: NativeWalker, root_dir: Seq<PathPart>) -> Seq<LayerModel> {
    if walker.global_rules@.len() == 0 {
        Seq::empty()
    } else {
        seq![
            LayerModel {
                base: root_dir,
                rules: ignore::template_models(walker.global_rules@),
            },
        ]
    }
}

/// The chain that holds at a root: the user's own rules, then those of the directories above it.
pub open spec fn root_chain(
    walker: NativeWalker,
    root_dir: Seq<PathPart>,
    reads: Seq<Seq<ReadModel>>,
) -> ChainModel {
    if walker.options.no_ignore {
        ChainModel { layers: Seq::empty(), explicit_root: None }
    } else {
        ChainModel {
            layers: layers_of_directories(
                global_layers(walker, root_dir),
                ancestors(root_dir),
                reads,
                ancestors(root_dir).len() as int,
            ),
            explicit_root: Some(root_dir),
        }
    }
}

/// The failures on the way to the chain that holds at a root.
pub open spec fn root_chain_errors(
    walker: NativeWalker,
    root_dir: Seq<PathPart>,
    reads: Seq<Seq<ReadModel>>,
) -> Seq<ErrorModel> {
    if walker.options.no_ignore {
        Seq::empty()
    } else {
        errors_of_directories(ancestors(root_dir), reads, ancestors(root_dir).len() as int)
    }
}

impl NativeWalker {
    /// Which files are to be read before the entries of a directory are judged.
    pub fn wanted_reads(&self, present: Option<IgnoreFilePresence>) -> (result: WantedReads)
        ensures
            result == wanted(self.options.no_ignore, present),
    {
        let read: bool = !self.options.no_ignore;
        match present {
            None => WantedReads { git_excludes: read, gitignore: read, ignore: read, rgignore: read },
            Some(names) => WantedReads {
                git_excludes: read && names.dot_git,
                gitignore: read && names.gitignore,
                ignore: read && names.ignore,
                rgignore: read && names.rgignore,
            },
        }
    }

    /// The rules of the directories above `root_dir`, for which `reads` holds what was read in the
    /// order of `ancestor_directories`, and the failures. The root itself stays open to the walk
    /// though a rule above it excludes it as a whole.
    pub fn initial_context(&self, root_dir: &[PathComponent], reads: &[Vec<LayerRead>]) -> (result: (
        RuleChain,
        Vec<WalkError>,
    ))
        requires
            self.wf(),
            reads.len() == ancestors(path::parts(root_dir@)).len(),
        ensures
            result.0.wf(),
            result.0@ == root_chain(*self, path::parts(root_dir@), all_read_models(reads@)),
            error_models(result.1@) == root_chain_errors(
                *self,
                path::parts(root_dir@),
                all_read_models(reads@),
            ),
    {
        let mut errors: Vec<WalkError> = Vec::new();
        assert(error_models(errors@) =~= Seq::<ErrorModel>::empty());
        if self.options.no_ignore {
            return (RuleChain::empty(), errors);
        }
        let mut context: RuleChain = RuleChain::empty();
        if self.global_rules.len() > 0 {
            context =
            context.extend(
                IgnoreLayer::from_templates(copy_path(root_dir), self.global_rules.as_slice()),
            );
        }
        let ghost base = path::parts(root_dir@);
        let ghost start = global_layers(*self, base);
        assert(context@.layers =~= start);
        let directories: Vec<Vec<PathComponent>> = ancestor_directories(root_dir);
        let ghost above = ancestors(base);
        let ghost all = all_read_models(reads@);
        assert(directories.len() == above.len()) by {
            assert(path_models(directories@).len() == directories.len());
        }
        let mut index: usize = 0;
        while index < directories.len()
            invariant
                index <= directories.len(),
                directories.len() == reads.len() == above.len(),
                above == path_models(directories@),
                all == all_read_models(reads@),
                self.wf(),
                !self.options.no_ignore,
                context.wf(),
                context@.layers == layers_of_directories(start, above, all, index as int),
                error_models(errors@) == errors_of_directories(above, all, index as int),
            decreases directories.len() - index,
        {
            let (next, mut failed) = self.extend_context_for_directory(
                context,
                directories[index].as_slice(),
                reads[index].as_slice(),
            );
            assert(above[index as int] == path::parts(directories[index as int]@));
            assert(all[index as int] == read_models(reads[index as int]@));
            let ghost before = error_models(errors@);
            let ghost added = error_models(failed@);
            errors.append(&mut failed);
            assert(error_models(errors@) =~= before + added);
            context = next;
            index += 1;
        }
        (context.with_explicit_root(copy_path(root_dir)), errors)
    }

    /// The rules inside a directory, for which `reads` holds what was read, in any order: Git's
    /// exclude files come first, then `.gitignore`, `.ignore` and `.rgignore`. Later layers override.
    pub fn extend_context_for_directory(
        &self,
        context: RuleChain,
        directory: &[PathComponent],
        reads: &[LayerRead],
    ) -> (result: (RuleChain, Vec<WalkError>))
        requires
            context.wf(),
        ensures
            result.0.wf(),
            result.0@ == (if self.options.no_ignore {
                context@
            } else {
                ChainModel {
                    layers: layers_inside(
                        context@.layers,
                        path::parts(directory@),
                        read_models(reads@),
                    ),
                    explicit_root: context@.explicit_root,
                }
            }),
            error_models(result.1@) == (if self.options.no_ignore {
                Seq::empty()
            } else {
                errors_inside(path::parts(directory@), read_models(reads@))
            }),
    {
        let mut errors: Vec<WalkError> = Vec::new();
        assert(error_models(errors@) =~= Seq::<ErrorModel>::empty());
        if self.options.no_ignore {
            return (context, errors);
        }
        let ghost first = context@.layers;
        let ghost base = path::parts(directory@);
        let ghost all = read_models(reads@);
        let ghost git = reads_named(all, IgnoreFileName::GitExclude);
        let ghost own = reads_named(all, IgnoreFileName::Gitignore);
        let ghost general = reads_named(all, IgnoreFileName::Ignore);
        let ghost special = reads_named(all, IgnoreFileName::Rgignore);
        let chain: RuleChain = load_named(
            context,
            &mut errors,
            directory,
            reads,
            IgnoreFileName::GitExclude,
        );
        let chain: RuleChain = load_named(
            chain,
            &mut errors,
            directory,
            reads,
            IgnoreFileName::Gitignore,
        );
        let chain: RuleChain = load_named(
            chain,
            &mut errors,
            directory,
            reads,
            IgnoreFileName::Ignore,
        );
        let chain: RuleChain = load_named(
            chain,
            &mut errors,
            directory,
            reads,
            IgnoreFileName::Rgignore,
        );
        proof {
            lemma_layers_add(first, base, git, own);
            lemma_layers_add(first, base, git + own, general);
            lemma_layers_add(first, base, git + own + general, special);
            assert(error_models(errors@) =~= read_errors(base, git) + read_errors(base, own)
                + read_errors(base, general) + read_errors(base, special));
        }
        (chain, errors)
    }
}

/// Adds the layers of the files with one name to a chain, and the failures among them to `errors`.
fn load_named(
    context: RuleChain,
    errors: &mut Vec<WalkError>,
    directory: &[PathComponent],
    reads: &[LayerRead],
    name: IgnoreFileName,
) -> (result: RuleChain)
    requires
        context.wf(),
    ensures
        result.wf(),
        result@ == (ChainModel {
            layers: layers_after(
                context@.layers,
                path::parts(directory@),
                reads_named(read_models(reads@), name),
            ),
            explicit_root: context@.explicit_root,
        }),
        error_models(final(errors)@) == error_models(old(errors)@) + read_errors(
            path::parts(directory@),
            reads_named(read_models(reads@), name),
        ),
{
    let ghost first = context@;
    let ghost base = path::parts(directory@);
    let ghost all = read_models(reads@);
    let ghost told = error_models(errors@);
    let mut chain: RuleChain = context;
    let mut index: usize = 0;
    assert(all.subrange(0, 0) =~= Seq::<ReadModel>::empty());
    assert(told + Seq::<ErrorModel>::empty() =~= told);
    while index < reads.len()
        invariant
            index <= reads.len(),
            base == path::parts(directory@),
            all == read_models(reads@),
            chain.wf(),
            chain@.explicit_root == first.explicit_root,
            chain@.layers == layers_after(
                first.layers,
                base,
                reads_named(all.subrange(0, index as int), name),
            ),
            error_models(errors@) == told + read_errors(
                base,
                reads_named(all.subrange(0, index as int), name),
            ),
        decreases reads.len() - index,
    {
        let ghost before = reads_named(all.subrange(0, index as int), name);
        proof {
            let here = all.subrange(0, index + 1);
            assert(here.last() == reads[index as int]@);
            assert(here.drop_last() =~= all.subrange(0, index as int));
        }
        if reads[index].name == name {
            let ghost read = reads[index as int]@;
            assert(before.push(read).drop_last() =~= before);
            match load_ignore_layer(&reads[index], directory) {
                Ok(Some(layer)) => {
                    chain = chain.extend(layer);
                },
                Ok(None) => {},
                Err(error) => {
                    let ghost failed = error_models(errors@);
                    let ghost model = error@;
                    errors.push(error);
                    assert(error_models(errors@) =~= failed.push(model));
                    assert((told + read_errors(base, before)).push(model) =~= told + read_errors(
                        base,
                        before,
                    ).push(model));
                },
            }
        }
        index += 1;
    }
    assert(all.subrange(0, reads.len() as int) =~= all);
    chain
}

} // verus!
