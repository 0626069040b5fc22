//! The walk through directory trees, over a tree in memory.

use fastfs::context::{
    ancestor_directories, files_to_read, IgnoreFileName, IgnoreFilePresence, LayerRead,
    ReadOutcome, WantedReads,
};
use fastfs::directory::{expand_directory, DirectoryScan, ListedEntry};
use fastfs::expand::{
    normalize_directory_identity, register_directory, DirectoryTask, EntryFacts, EntryType,
    TargetFacts, WalkRuntime, WorkItem,
};
use fastfs::git::{git_common_dir, gitdir_target, repository_excludes, RepositoryExclude};
use fastfs::ignore::RuleChain;
use fastfs::path::{absolute_path_from, copy_path, join_shown, PathComponent, PathName};
use fastfs::platform::Platform;
use fastfs::queue::{Pulled, Taken, WalkControl, WorkQueue, Worker, WorkerStep};
use fastfs::roots::{root_directory, RootFacts, RootFile};
use fastfs::walk::{NativeWalkOptions, NativeWalker, WrittenPath};

/// Files by their paths, with what they hold.
struct Disk {
    files: Vec<(Vec<String>, String)>,
    links: Vec<(Vec<String>, Vec<String>)>,
}

fn names(path: &str) -> Vec<String> {
    path.split('/').filter(|name| !name.is_empty()).map(str::to_string).collect()
}

fn component(name: &str) -> PathComponent {
    match name {
        "." => PathComponent::CurDir,
        ".." => PathComponent::ParentDir,
        _ => PathComponent::Normal(PathName {
            raw: name.as_bytes().to_vec(),
            text: name.to_string(),
            utf8: true,
        }),
    }
}

fn components(path: &str) -> Vec<PathComponent> {
    let mut result = Vec::new();
    if path.starts_with('/') {
        result.push(PathComponent::RootDir);
    }
    result.extend(names(path).iter().map(|name| component(name)));
    result
}

fn names_of(path: &[PathComponent]) -> Vec<String> {
    path.iter()
        .filter_map(|part| match part {
            PathComponent::RootDir => None,
            PathComponent::Normal(name) => Some(name.text.clone()),
            _ => panic!("a path is not normal"),
        })
        .collect()
}

fn written(path: &[PathComponent]) -> String {
    format!("/{}", names_of(path).join("/"))
}

fn root(path: &str) -> WrittenPath {
    WrittenPath { spelling: path.as_bytes().to_vec(), components: components(path) }
}

impl Disk {
    fn new(files: &[(&str, &str)]) -> Disk {
        Disk {
            files: files
                .iter()
                .map(|(path, contents)| (names(path), contents.to_string()))
                .collect(),
            links: Vec::new(),
        }
    }

    fn resolve(&self, path: &[String]) -> Vec<String> {
        for (link, target) in &self.links {
            if path.starts_with(link) {
                let mut result = target.clone();
                result.extend_from_slice(&path[link.len()..]);
                return self.resolve(&result);
            }
        }
        path.to_vec()
    }

    fn read(&self, path: &[String]) -> Option<&str> {
        let path = self.resolve(path);
        self.files.iter().find(|(name, _)| *name == path).map(|(_, contents)| contents.as_str())
    }

    fn is_dir(&self, path: &[String]) -> bool {
        let path = self.resolve(path);
        self.files.iter().any(|(name, _)| name.len() > path.len() && name.starts_with(&path))
    }

    fn is_link(&self, path: &[String]) -> bool {
        self.links.iter().any(|(link, _)| link == path)
    }

    fn list(&self, path: &[String]) -> Vec<String> {
        let place = self.resolve(path);
        let mut result: Vec<String> = self
            .files
            .iter()
            .map(|(name, _)| name)
            .chain(self.links.iter().map(|(name, _)| name))
            .filter(|name| name.len() > place.len() && name.starts_with(&place))
            .map(|name| name[place.len()].clone())
            .collect();
        result.sort();
        result.dedup();
        result
    }

    fn layer(&self, name: IgnoreFileName, path: Vec<String>) -> LayerRead {
        let spelling = format!("/{}", path.join("/")).into_bytes();
        let outcome = match self.read(&path) {
            Some(contents) => ReadOutcome::Bytes(contents.as_bytes().to_vec()),
            None => ReadOutcome::Missing,
        };
        LayerRead { name, path: spelling, outcome }
    }

    /// What is read for a directory.
    fn reads(&self, directory: &[PathComponent], wanted: WantedReads) -> Vec<LayerRead> {
        let place = names_of(directory);
        let below = |tail: &[&str]| {
            let mut path = place.clone();
            path.extend(tail.iter().map(|name| name.to_string()));
            path
        };
        let mut result = Vec::new();
        for file in files_to_read(wanted) {
            if let Some(name) = file.file_name() {
                result.push(self.layer(file, below(&[name])));
                continue;
            }
            let target = self.read(&below(&[".git"])).and_then(gitdir_target);
            let git_dir = match &target {
                Some(target) => absolute_path_from(directory, &components(target)),
                None => absolute_path_from(directory, &components(".git")),
            };
            let git_names = names_of(&git_dir);
            let in_git = |base: &[String], tail: &[&str]| {
                let mut path = base.to_vec();
                path.extend(tail.iter().map(|name| name.to_string()));
                path
            };
            let common = self
                .read(&in_git(&git_names, &["commondir"]))
                .and_then(git_common_dir)
                .map(|name| absolute_path_from(&git_dir, &components(&name)));
            for place in repository_excludes(&git_dir, &common) {
                let base = match place {
                    RepositoryExclude::Shared => names_of(common.as_ref().unwrap()),
                    RepositoryExclude::Own => git_names.clone(),
                };
                result.push(self.layer(file, in_git(&base, &["info", "exclude"])));
            }
        }
        result
    }

    fn target(&self, path: &[String]) -> Result<TargetFacts, String> {
        if self.is_dir(path) {
            Ok(TargetFacts { is_file: false, is_dir: true, length: 0 })
        } else {
            match self.read(path) {
                Some(contents) => Ok(TargetFacts {
                    is_file: true,
                    is_dir: false,
                    length: contents.len() as u64,
                }),
                None => Err("broken link".to_string()),
            }
        }
    }

    fn kind(&self, path: &[String]) -> EntryType {
        if self.is_link(path) {
            EntryType::Symlink
        } else if self.is_dir(path) {
            EntryType::Directory
        } else {
            EntryType::File
        }
    }

    fn facts(&self, path: &[String]) -> EntryFacts {
        EntryFacts {
            file_type: Ok(self.kind(path)),
            target: Some(self.target(path)),
            identity: Some(Ok(format!("/{}", self.resolve(path).join("/")).into_bytes())),
        }
    }

    fn root_facts(&self, walker: &NativeWalker) -> Vec<RootFacts> {
        walker
            .roots
            .iter()
            .map(|spec| {
                let path = names_of(&spec.traversal_path);
                let kind = self.kind(&path);
                let directory =
                    root_directory(&spec.traversal_path, kind == EntryType::Directory);
                let facts = self.facts(&path);
                let wanted = walker.wanted_reads(None);
                RootFacts {
                    metadata: Ok(RootFile {
                        file_type: kind,
                        length: self.read(&path).map_or(0, |contents| contents.len() as u64),
                    }),
                    target: facts.target,
                    identity: facts.identity,
                    reads: ancestor_directories(&directory)
                        .iter()
                        .map(|above| self.reads(above, wanted))
                        .collect(),
                }
            })
            .collect()
    }

    fn expand(
        &self,
        walker: &NativeWalker,
        runtime: &mut WalkRuntime,
        task: DirectoryTask,
    ) -> Vec<WorkItem> {
        let place = names_of(&task.path);
        let mut scan = DirectoryScan::new();
        let mut listing = Vec::new();
        for name in self.list(&place) {
            let mut path = place.clone();
            path.push(name.clone());
            let entry = Ok(ListedEntry {
                name: PathName { raw: name.as_bytes().to_vec(), text: name, utf8: true },
                facts: self.facts(&path),
            });
            scan.observe(&entry);
            listing.push(entry);
        }
        let reads = self.reads(&task.path, walker.wanted_reads(scan.presence()));
        expand_directory(walker, runtime, task, &Ok(listing), &reads)
    }

    /// The files that a walk finds: as they are shown, and where they are.
    fn walk(&self, walker: &NativeWalker) -> Vec<(String, String)> {
        let mut runtime = WalkRuntime::new(walker.options.follow_links);
        let facts = self.root_facts(walker);
        let mut walk = walker.build(&mut runtime, &facts);
        let mut found = Vec::new();
        loop {
            match walk.next() {
                Pulled::Entry(entry) => found.push((
                    String::from_utf8(entry.path().to_vec()).unwrap(),
                    written(entry.filesystem_path()),
                )),
                Pulled::Error(error) => panic!("{}", error.message),
                Pulled::Expand(task) => {
                    let items = self.expand(walker, &mut runtime, task);
                    walk.expanded(items);
                }
                Pulled::Done => return found,
            }
        }
    }

    fn walked_names(&self, walker: &NativeWalker) -> Vec<String> {
        let mut result: Vec<String> = self
            .walk(walker)
            .into_iter()
            .map(|(display, _)| display.rsplit('/').next().unwrap().to_string())
            .collect();
        result.sort();
        result
    }
}

fn walker(roots: &[&str], options: NativeWalkOptions) -> NativeWalker {
    match NativeWalker::new(
        roots.iter().map(|path| root(path)).collect(),
        options,
        Ok(components("/cwd")),
        Vec::new(),
        Platform::Other,
    ) {
        Ok(walker) => walker,
        Err(error) => panic!("{}", error.message),
    }
}

fn with_globs(globs: &[&str]) -> NativeWalkOptions {
    NativeWalkOptions {
        globs: globs.iter().map(|glob| glob.to_string()).collect(),
        ..NativeWalkOptions::default()
    }
}

#[test]
fn positive_glob_overrides_hidden_and_ignore_rules() {
    let disk = Disk::new(&[
        ("/r/.ignore", "ignored.txt\n"),
        ("/r/plain.txt", "plain"),
        ("/r/.hidden.txt", "hidden"),
        ("/r/ignored.txt", "ignored"),
        ("/r/other.rs", "other"),
    ]);
    let default = walker(&["/r"], NativeWalkOptions::default());
    assert_eq!(disk.walked_names(&default), ["other.rs", "plain.txt"]);

    let with_glob = walker(&["/r"], with_globs(&["*.txt"]));
    assert_eq!(
        disk.walked_names(&with_glob),
        [".hidden.txt", "ignored.txt", "plain.txt"]
    );
}

#[test]
fn explicit_file_root_overrides_user_globs() {
    let disk = Disk::new(&[("/r/direct.rs", "direct")]);
    let walker = walker(&["/r/direct.rs"], with_globs(&["!*.rs"]));
    assert_eq!(disk.walked_names(&walker), ["direct.rs"]);
}

#[test]
fn no_ignore_keeps_hidden_filter_but_reads_ignored_file() {
    let disk = Disk::new(&[
        ("/r/.gitignore", "priority.txt\n"),
        ("/r/.ignore", "!priority.txt\n"),
        ("/r/.rgignore", "priority.txt\n"),
        ("/r/.hidden.txt", "hidden"),
        ("/r/priority.txt", "ignored by highest-priority file"),
    ]);
    let default = walker(&["/r"], NativeWalkOptions::default());
    assert!(disk.walked_names(&default).is_empty());

    let all = walker(
        &["/r"],
        NativeWalkOptions { no_ignore: true, ..NativeWalkOptions::default() },
    );
    assert_eq!(disk.walked_names(&all), ["priority.txt"]);
}

#[test]
fn parent_ignore_and_negation_are_applied_in_order() {
    let disk = Disk::new(&[
        ("/r/.ignore", "*.log\n!keep.log\n"),
        ("/r/child/drop.log", "drop"),
        ("/r/child/keep.log", "keep"),
        ("/r/child/keep.txt", "keep"),
    ]);
    let walker = walker(&["/r/child"], NativeWalkOptions::default());
    assert_eq!(disk.walked_names(&walker), ["keep.log", "keep.txt"]);
}

#[test]
fn explicit_ignored_root_keeps_other_parent_file_rules() {
    let disk = Disk::new(&[
        ("/r/.ignore", "build/\n*.log\n"),
        ("/r/build/drop.log", "drop"),
        ("/r/build/keep.txt", "keep"),
    ]);
    let walker = walker(&["/r/build"], NativeWalkOptions::default());
    assert_eq!(disk.walked_names(&walker), ["keep.txt"]);
}

#[test]
fn anchored_and_escaped_ignore_patterns_keep_their_git_meaning() {
    let disk = Disk::new(&[
        ("/r/.ignore", "/foo\n\\!literal.txt\n\\#hash.txt\n"),
        ("/r/foo", "root"),
        ("/r/nested/foo", "nested"),
        ("/r/!literal.txt", "literal"),
        ("/r/#hash.txt", "hash"),
        ("/r/visible.txt", "visible"),
    ]);
    let walker = walker(&["/r"], NativeWalkOptions::default());
    assert_eq!(disk.walked_names(&walker), ["foo", "visible.txt"]);
}

#[test]
fn directory_ignore_can_be_narrowly_reincluded() {
    let disk = Disk::new(&[
        ("/r/.ignore", "build/\n!build/keep.txt\n"),
        ("/r/build/drop.txt", "drop"),
        ("/r/build/keep.txt", "keep"),
    ]);
    let walker = walker(&["/r"], NativeWalkOptions::default());
    assert_eq!(disk.walked_names(&walker), ["keep.txt"]);
}

#[test]
fn ordinary_directory_match_also_applies_to_its_subtree() {
    let disk = Disk::new(&[
        ("/r/.ignore", "build\n!build/keep.txt\n"),
        ("/r/build/drop.txt", "drop"),
        ("/r/build/keep.txt", "keep"),
    ]);
    let walker = walker(&["/r"], NativeWalkOptions::default());
    assert_eq!(disk.walked_names(&walker), ["keep.txt"]);
}

#[test]
fn linked_worktree_common_exclude_is_loaded_relative_to_gitdir() {
    let disk = Disk::new(&[
        ("/r/worktree/.git", "gitdir: /r/git-dir\n"),
        ("/r/git-dir/commondir", "../common-dir\n"),
        ("/r/common-dir/info/exclude", "common-only.txt\nshared.txt\n"),
        ("/r/git-dir/info/exclude", "local-only.txt\n!shared.txt\n"),
        ("/r/worktree/common-only.txt", "common"),
        ("/r/worktree/local-only.txt", "local"),
        ("/r/worktree/shared.txt", "shared"),
        ("/r/worktree/visible.txt", "visible"),
    ]);
    let walker = walker(&["/r/worktree"], NativeWalkOptions::default());
    assert_eq!(disk.walked_names(&walker), ["shared.txt", "visible.txt"]);
}

#[test]
fn user_glob_expands_braces_and_preserves_escaped_meta() {
    let disk = Disk::new(&[
        ("/r/lib.rs", "rust"),
        ("/r/Cargo.toml", "toml"),
        ("/r/note.txt", "text"),
        ("/r/[literal].txt", "literal"),
    ]);
    let braces = walker(&["/r"], with_globs(&["*.{rs,toml}"]));
    assert_eq!(disk.walked_names(&braces), ["Cargo.toml", "lib.rs"]);
    let escaped = walker(&["/r"], with_globs(&[r"\[literal\].txt"]));
    assert_eq!(disk.walked_names(&escaped), ["[literal].txt"]);
}

fn many_files() -> Disk {
    Disk {
        files: (0..200).map(|index| (names(&format!("/r/tree/{}.txt", index)), "x".to_string()))
            .collect(),
        links: Vec::new(),
    }
}

/// Lets workers take turns; each has a visitor of its own. The number of the visit at which a visitor
/// gives up can be given.
fn run_in_turns(disk: &Disk, walker: &NativeWalker, workers: usize, panic_at: Option<usize>) -> usize {
    let mut runtime = WalkRuntime::new(false);
    let facts = disk.root_facts(walker);
    let mut queue = WorkQueue::new(walker.initial_work(&mut runtime, &facts));
    let mut visits = 0;
    let mut done = vec![false; workers];
    while done.iter().any(|finished| !finished) {
        for turn in 0..workers {
            if done[turn] {
                continue;
            }
            let mut lease = match queue.take() {
                Taken::Item(lease) => lease,
                Taken::Wait => continue,
                Taken::Done => {
                    done[turn] = true;
                    continue;
                }
            };
            let (mut worker, mut step) = Worker::start(lease.take_item());
            loop {
                match step {
                    WorkerStep::VisitEntry(_) => {
                        visits += 1;
                        if panic_at == Some(visits) {
                            queue.abandon();
                            return visits;
                        }
                        step = worker.next(WalkControl::Continue);
                    }
                    WorkerStep::VisitError(error) => panic!("{}", error.message),
                    WorkerStep::Expand(task) => {
                        let mut goes_on = true;
                        for item in disk.expand(walker, &mut runtime, task) {
                            goes_on = goes_on && queue.publish(item);
                        }
                        assert!(goes_on);
                        step = worker.next(WalkControl::Continue);
                    }
                    WorkerStep::Finish { quit } => {
                        lease.finish(&mut queue, quit);
                        break;
                    }
                }
            }
        }
    }
    assert!(!queue.is_stopped() || panic_at.is_none());
    visits
}

#[test]
fn parallel_walk_uses_one_reusable_visitor_per_worker() {
    let disk = many_files();
    let walker = walker(&["/r"], NativeWalkOptions::default());
    assert_eq!(run_in_turns(&disk, &walker, 4, None), 200);
}

#[test]
fn visitor_panic_stops_and_wakes_parallel_workers() {
    let disk = many_files();
    let walker = walker(&["/r"], NativeWalkOptions::default());
    assert_eq!(run_in_turns(&disk, &walker, 4, Some(1)), 1);

    let mut runtime = WalkRuntime::new(false);
    let mut queue = WorkQueue::new(walker.initial_work(&mut runtime, &disk.root_facts(&walker)));
    assert!(matches!(queue.take(), Taken::Item(_)));
    assert!(matches!(queue.take(), Taken::Wait));
    queue.abandon();
    assert!(queue.is_stopped());
    assert!(matches!(queue.take(), Taken::Done));
}

#[test]
fn preserves_the_relative_root_spelling_in_emitted_paths() {
    let disk = Disk::new(&[("/cwd/top/nested/file.txt", "content")]);
    let walker = walker(&["./top"], NativeWalkOptions::default());
    assert_eq!(
        disk.walk(&walker),
        [("./top/nested/file.txt".to_string(), "/cwd/top/nested/file.txt".to_string())]
    );
}

#[test]
fn lexical_parent_root_keeps_display_and_matches_cwd_relative_glob() {
    let disk = Disk::new(&[
        ("/box/sibling/.rgignore", "ignored.rs\n"),
        ("/box/sibling/ignored.rs", "ignored"),
        ("/box/sibling/src/keep.rs", "keep"),
        ("/box/sibling/src/skip.txt", "skip"),
        ("/box/cwd/x", ""),
    ]);
    let default = walker(
        &["../sibling"],
        NativeWalkOptions {
            current_dir: Some(root("/box/cwd")),
            ..NativeWalkOptions::default()
        },
    );
    assert_eq!(disk.walked_names(&default), ["keep.rs", "skip.txt"]);

    let globbed = walker(
        &["../sibling"],
        NativeWalkOptions {
            current_dir: Some(root("/box/cwd")),
            ..with_globs(&["../sibling/src/*.rs"])
        },
    );
    assert_eq!(
        disk.walk(&globbed),
        [("../sibling/src/keep.rs".to_string(), "/box/sibling/src/keep.rs".to_string())]
    );
}

#[test]
fn links_are_followed_only_on_demand_and_never_in_circles() {
    let mut disk = Disk::new(&[("/r/a/file.txt", "x")]);
    disk.links.push((names("/r/a/loop"), names("/r/a")));
    disk.links.push((names("/r/link.txt"), names("/r/a/file.txt")));
    let plain = walker(&["/r"], NativeWalkOptions::default());
    assert_eq!(disk.walked_names(&plain), ["file.txt"]);
    let following = walker(
        &["/r"],
        NativeWalkOptions { follow_links: true, ..NativeWalkOptions::default() },
    );
    assert_eq!(disk.walked_names(&following), ["file.txt", "link.txt"]);
}

#[test]
fn hidden_files_are_found_on_demand() {
    let disk = Disk::new(&[("/r/.config/x", ""), ("/r/y", "")]);
    let plain = walker(&["/r"], NativeWalkOptions::default());
    assert_eq!(disk.walked_names(&plain), ["y"]);
    let hidden = walker(
        &["/r"],
        NativeWalkOptions { hidden: true, ..NativeWalkOptions::default() },
    );
    assert_eq!(disk.walked_names(&hidden), ["x", "y"]);
}

#[test]
fn refused_globs_keep_a_walk_from_starting() {
    let result = NativeWalker::new(
        vec![root("/r")],
        with_globs(&["[open"]),
        Ok(components("/cwd")),
        Vec::new(),
        Platform::Other,
    );
    match result {
        Ok(_) => panic!("a glob was accepted"),
        Err(error) => assert_eq!(error.pattern(), Some("[open")),
    }
    let lost = NativeWalker::new(
        vec![root("r")],
        NativeWalkOptions::default(),
        Err("gone".to_string()),
        Vec::new(),
        Platform::Other,
    );
    match lost {
        Ok(_) => panic!("a walk started nowhere"),
        Err(error) => assert_eq!(error.pattern(), None),
    }
}

#[test]
fn directories_are_registered_by_identity() {
    assert_eq!(
        normalize_directory_identity(b"raw".to_vec(), "ÄB", Platform::Windows),
        "äb".as_bytes()
    );
    assert_eq!(normalize_directory_identity(b"raw".to_vec(), "ÄB", Platform::Other), b"raw");
    let mut runtime = WalkRuntime::new(true);
    let here = Some(Ok(b"/a".to_vec()));
    assert_eq!(register_directory(&mut runtime, &here, b"a").map(|r| r.ok()), Some(Some(true)));
    assert_eq!(register_directory(&mut runtime, &here, b"a").map(|r| r.ok()), Some(Some(false)));
    assert!(register_directory(&mut runtime, &None, b"a").is_none());
    let mut off = WalkRuntime::new(false);
    assert_eq!(register_directory(&mut off, &None, b"a").map(|r| r.ok()), Some(Some(true)));
}

#[test]
fn presence_of_ignore_files_decides_what_is_read() {
    let mut present = IgnoreFilePresence::none();
    present.observe(Some(".GITIGNORE"));
    present.observe(Some(".git"));
    present.observe(None);
    let plain = walker(&["/r"], NativeWalkOptions::default());
    let wanted = plain.wanted_reads(Some(present));
    assert!(wanted.gitignore && wanted.git_excludes && !wanted.ignore && !wanted.rgignore);
    let blind = walker(
        &["/r"],
        NativeWalkOptions { no_ignore: true, ..NativeWalkOptions::default() },
    );
    assert!(!blind.wanted_reads(None).ignore);
    assert_eq!(copy_path(&components("/a/b")).len(), 3);
}

#[test]
fn ignore_files_are_read_in_one_order() {
    let all =
        WantedReads { git_excludes: true, gitignore: true, ignore: true, rgignore: true };
    assert_eq!(
        files_to_read(all),
        [
            IgnoreFileName::GitExclude,
            IgnoreFileName::Gitignore,
            IgnoreFileName::Ignore,
            IgnoreFileName::Rgignore,
        ]
    );
    let some = WantedReads { git_excludes: false, ignore: false, ..all };
    let spelled: Vec<Option<&str>> =
        files_to_read(some).into_iter().map(|name| name.file_name()).collect();
    assert_eq!(spelled, [Some(".gitignore"), Some(".rgignore")]);
    let git = components("/r/.git");
    assert_eq!(repository_excludes(&git, &None), [RepositoryExclude::Own]);
    assert_eq!(repository_excludes(&git, &Some(components("/r/.git"))), [RepositoryExclude::Own]);
    assert_eq!(
        repository_excludes(&git, &Some(components("/shared"))),
        [RepositoryExclude::Shared, RepositoryExclude::Own]
    );
}

#[test]
fn later_ignore_files_override_whatever_order_they_come_in() {
    let read = |name: IgnoreFileName, rules: &str| LayerRead {
        name,
        path: Vec::new(),
        outcome: ReadOutcome::Bytes(rules.as_bytes().to_vec()),
    };
    let plain = walker(&["/r"], NativeWalkOptions::default());
    let directory = components("/r");
    let ignored = |reads: &[LayerRead], file: &str| {
        let (chain, errors) =
            plain.extend_context_for_directory(RuleChain::empty(), &directory, reads);
        assert!(errors.is_empty());
        chain.is_ignored(&components(file), false, Platform::Other)
    };
    let git = || read(IgnoreFileName::GitExclude, "*.log\n*.tmp\n*.txt\n");
    let own = || read(IgnoreFileName::Gitignore, "!*.log\n!*.tmp\n!*.txt\n");
    let general = || read(IgnoreFileName::Ignore, "*.tmp\n*.txt\n");
    let special = || read(IgnoreFileName::Rgignore, "!*.txt\n");
    for reads in [
        vec![git(), own(), general(), special()],
        vec![special(), general(), own(), git()],
        vec![own(), special(), git(), general()],
    ] {
        assert!(!ignored(&reads, "/r/a.log"));
        assert!(ignored(&reads, "/r/a.tmp"));
        assert!(!ignored(&reads, "/r/a.txt"));
    }
}

#[test]
fn names_follow_the_shown_path_of_their_directory() {
    for (directory, platform, shown) in [
        (".", Platform::Other, "./a"),
        ("", Platform::Other, "a"),
        ("/", Platform::Other, "/a"),
        ("dir\\", Platform::Other, "dir\\/a"),
        ("dir", Platform::Windows, "dir\\a"),
        ("dir/", Platform::Windows, "dir/a"),
        ("dir\\", Platform::Windows, "dir\\a"),
        ("C:", Platform::Windows, "C:a"),
        ("1:", Platform::Windows, "1:\\a"),
        ("\\\\?\\C:\\x", Platform::Windows, "\\\\?\\C:\\x\\a"),
        ("\\\\?\\C:\\x/", Platform::Windows, "\\\\?\\C:\\x/\\a"),
    ] {
        assert_eq!(join_shown(directory.as_bytes(), b"a", platform), shown.as_bytes());
    }
}

#[test]
fn all_batches_but_the_last_are_full() {
    let files: Vec<(String, String)> =
        (0..150).map(|index| (format!("/r/f{:03}", index), String::new())).collect();
    let borrowed: Vec<(&str, &str)> =
        files.iter().map(|(path, contents)| (path.as_str(), contents.as_str())).collect();
    let disk = Disk::new(&borrowed);
    let plain = walker(&["/r"], NativeWalkOptions::default());
    let mut runtime = WalkRuntime::new(false);
    let task = DirectoryTask {
        path: components("/r"),
        display_path: b"shown".to_vec(),
        context: RuleChain::empty(),
        root_base: components("/"),
    };
    let mut sizes = Vec::new();
    let mut shown = Vec::new();
    for item in disk.expand(&plain, &mut runtime, task) {
        match item {
            WorkItem::Files(entries) => {
                sizes.push(entries.len());
                shown.extend(entries.iter().map(|entry| entry.path().to_vec()));
            }
            other => panic!("{other:?}"),
        }
    }
    assert_eq!(sizes, [64, 64, 22]);
    assert_eq!(shown[0], b"shown/f000");
    assert_eq!(shown[149], b"shown/f149");
}
