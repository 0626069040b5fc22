//! Storage, and the lists of files that a search keeps.

use fastfs::cache_state::{
    approximate_bytes, file_index, root_identities, CacheBuild, CacheState, LookupAnswer,
    RootIdentity,
};
use fastfs::path::{PathComponent, PathName};
use fastfs::platform::Platform;
use fastfs::search_cache::{
    add_candidates, add_worktree_ignore_candidates, ancestor_candidates, begin,
    capture_ignore_snapshot, common_place, is_unc_or_device_path, read_snapshot_file,
    worktree_target, CacheRoot, CommonPlace, FileListCacheKey, IgnoreFileSnapshot,
    IgnoreFileValue, IgnoreSnapshot, PrefixKind,
};
use fastfs::search_platform::{
    device_name, device_speed, drive_speed, roots_are_fast_storage, roots_are_local_fixed,
    sequential_scan_is_beneficial, sequential_scan_size_probe_enabled, terminated_length,
    SeekPenaltyAnswer, SeekPenaltyCache, StorageStep,
};

#[test]
fn sequential_scan_requires_a_large_file_on_windows() {
    assert!(!sequential_scan_is_beneficial(Platform::Windows, 1024 * 1024 - 1));
    assert!(sequential_scan_is_beneficial(Platform::Windows, 1024 * 1024));
    assert!(!sequential_scan_is_beneficial(Platform::Other, u64::MAX));
    assert!(sequential_scan_size_probe_enabled(Platform::Windows));
    assert!(!sequential_scan_size_probe_enabled(Platform::Other));
}

#[test]
fn drives_are_told_by_their_kind() {
    assert!(roots_are_local_fixed(Platform::Windows, &[Some(3), Some(6)]));
    assert!(!roots_are_local_fixed(Platform::Windows, &[Some(3), None]));
    assert!(!roots_are_local_fixed(Platform::Windows, &[Some(4)]));
    assert!(!roots_are_local_fixed(Platform::Windows, &[]));
    assert!(!roots_are_local_fixed(Platform::Other, &[Some(3)]));
    assert_eq!([drive_speed(6), drive_speed(4), drive_speed(3)], [Some(true), Some(false), None]);
}

#[test]
fn speed_of_volumes_is_asked_once() {
    let mut cache = SeekPenaltyCache::new();
    let volumes = [Some(b"C".to_vec()), Some(b"D".to_vec()), Some(b"C".to_vec())];
    assert!(matches!(
        roots_are_fast_storage(Platform::Windows, &volumes, &cache),
        StorageStep::Ask(0)
    ));
    assert!(cache.volume_has_no_seek_penalty(b"C", Some(true)));
    assert!(matches!(
        roots_are_fast_storage(Platform::Windows, &volumes, &cache),
        StorageStep::Ask(1)
    ));
    assert!(!cache.volume_has_no_seek_penalty(b"D", None));
    assert!(matches!(
        roots_are_fast_storage(Platform::Windows, &volumes, &cache),
        StorageStep::Decided(false)
    ));
    assert!(matches!(
        roots_are_fast_storage(Platform::Windows, &volumes[..1], &cache),
        StorageStep::Decided(true)
    ));
    assert!(cache.volume_has_no_seek_penalty(b"C", Some(false)));
    assert_eq!(cache.get(b"E"), None);
    assert!(matches!(
        roots_are_fast_storage(Platform::Windows, &[None], &cache),
        StorageStep::Decided(false)
    ));
    assert!(matches!(
        roots_are_fast_storage(Platform::Other, &volumes, &cache),
        StorageStep::Decided(false)
    ));
}

#[test]
fn answers_of_devices_must_be_whole() {
    let whole = SeekPenaltyAnswer {
        success: true,
        returned: 12,
        expected: 12,
        version: 12,
        size: 12,
        incurs_seek_penalty: false,
    };
    assert_eq!(device_speed(whole), Some(true));
    assert_eq!(
        device_speed(SeekPenaltyAnswer { incurs_seek_penalty: true, ..whole }),
        Some(false)
    );
    assert_eq!(device_speed(SeekPenaltyAnswer { success: false, ..whole }), None);
    assert_eq!(device_speed(SeekPenaltyAnswer { returned: 11, ..whole }), None);
    assert_eq!(device_speed(SeekPenaltyAnswer { version: 11, ..whole }), None);
    assert_eq!(device_speed(SeekPenaltyAnswer { size: 11, ..whole }), None);
    assert_eq!(terminated_length(&[65, 66, 0, 67]), Some(2));
    assert_eq!(terminated_length(&[65]), None);
    assert_eq!(device_name(&[65, 0x5c, 0x2f]), [65]);
}

fn path(names: &[&str]) -> Vec<PathComponent> {
    let mut result = vec![PathComponent::RootDir];
    for name in names {
        result.push(PathComponent::Normal(PathName {
            raw: name.as_bytes().to_vec(),
            text: name.to_string(),
            utf8: true,
        }));
    }
    result
}

fn written(path: &[PathComponent]) -> String {
    let mut result = String::new();
    for component in path {
        match component {
            PathComponent::RootDir => {}
            PathComponent::Normal(name) => {
                result.push('/');
                result.push_str(&name.text);
            }
            _ => panic!("an odd component"),
        }
    }
    result
}

fn snapshot(contents: &[u8]) -> IgnoreSnapshot {
    IgnoreSnapshot {
        files: vec![IgnoreFileSnapshot {
            path: path(&["root", ".ignore"]),
            value: IgnoreFileValue::Contents(contents.to_vec()),
        }],
    }
}

fn root(names: &[&str]) -> CacheRoot {
    CacheRoot {
        input: path(names),
        canonical: Some(path(names)),
        is_directory: true,
        prefix: Some(PrefixKind::VerbatimDisk),
    }
}

fn key(names: &[&str], contents: &[u8]) -> FileListCacheKey {
    FileListCacheKey::new(
        &[root(names)],
        &Some(path(&["cwd"])),
        false,
        false,
        false,
        &[],
        true,
        Some(snapshot(contents)),
    )
    .unwrap()
}

fn identity(index: u64) -> RootIdentity {
    RootIdentity { volume_serial_number: 1, file_index: index }
}

fn build(names: &[&str], index: u64) -> CacheBuild {
    CacheBuild { key: key(names, b"*.log"), root_identities: vec![identity(index)] }
}

#[test]
fn keys_are_made_only_for_directories_of_this_machine() {
    let make = |roots: &[CacheRoot], follow: bool, local: bool| {
        FileListCacheKey::new(
            roots,
            &Some(path(&["cwd"])),
            false,
            false,
            follow,
            &["*.rs".to_string()],
            local,
            Some(snapshot(b"")),
        )
        .is_some()
    };
    assert!(make(&[root(&["a"])], false, true));
    assert!(!make(&[root(&["a"])], true, true));
    assert!(!make(&[root(&["a"])], false, false));
    assert!(!make(&[], false, true));
    assert!(!make(&[CacheRoot { is_directory: false, ..root(&["a"]) }], false, true));
    assert!(!make(&[CacheRoot { canonical: None, ..root(&["a"]) }], false, true));
    assert!(!make(&[CacheRoot { prefix: Some(PrefixKind::Unc), ..root(&["a"]) }], false, true));
    assert!(is_unc_or_device_path(Some(PrefixKind::VerbatimUnc)));
    assert!(is_unc_or_device_path(Some(PrefixKind::DeviceNamespace)));
    assert!(!is_unc_or_device_path(Some(PrefixKind::Disk)));
    assert!(!is_unc_or_device_path(None));
    assert_eq!(written(&key(&["a"], b"").roots()[0]), "/a");
}

#[test]
fn kept_list_is_given_out_while_nothing_changed() {
    let mut state = CacheState::new();
    let made = build(&["root"], 7);
    let fresh = Some(snapshot(b"*.log"));
    let same = Some(vec![identity(7)]);
    assert!(made.may_commit(2000, false, &fresh, &same));
    assert_eq!(state.commit(made, 1, 1000), []);
    let wanted = key(&["root"], b"*.log");
    assert_eq!(state.list_of(&wanted), Some(1));
    assert_eq!(state.lookup(&wanted, &fresh, &same, false), LookupAnswer::Hit(1));
    assert_eq!(state.lookup(&wanted, &Some(snapshot(b"")), &same, false), LookupAnswer::Miss);
    assert_eq!(state.lookup(&wanted, &None, &same, false), LookupAnswer::Miss);
    assert_eq!(state.lookup(&wanted, &fresh, &None, false), LookupAnswer::Miss);
    assert_eq!(
        state.lookup(&key(&["other"], b"*.log"), &fresh, &same, false),
        LookupAnswer::Miss
    );
    assert_eq!(state.lookup(&wanted, &fresh, &same, false), LookupAnswer::Hit(1));
}

#[test]
fn invalidates_cached_paths_after_directory_change() {
    let mut state = CacheState::new();
    state.commit(build(&["root"], 7), 1, 1000);
    let wanted = key(&["root"], b"*.log");
    let fresh = Some(snapshot(b"*.log"));
    let same = Some(vec![identity(7)]);
    assert_eq!(state.lookup(&wanted, &fresh, &same, true), LookupAnswer::Stale(1));
    assert_eq!(state.lookup(&wanted, &fresh, &same, false), LookupAnswer::Miss);
    assert_eq!(state.total_bytes, 0);
}

#[test]
fn rejects_cached_paths_after_root_ancestor_replacement() {
    let mut state = CacheState::new();
    state.commit(build(&["root"], 7), 1, 1000);
    let answer = state.lookup(
        &key(&["root"], b"*.log"),
        &Some(snapshot(b"*.log")),
        &Some(vec![identity(8)]),
        false,
    );
    assert_eq!(answer, LookupAnswer::Stale(1));
}

#[test]
fn rejects_commit_after_worktree_common_exclude_changes() {
    let made = build(&["root"], 7);
    let same = Some(vec![identity(7)]);
    assert!(!made.may_commit(2000, false, &Some(snapshot(b"after")), &same));
    assert!(!made.may_commit(2000, true, &Some(snapshot(b"*.log")), &same));
    assert!(!made.may_commit(1023, false, &Some(snapshot(b"*.log")), &same));
    assert!(!made.may_commit(300_001, false, &Some(snapshot(b"*.log")), &same));
    assert!(!made.may_commit(2000, false, &Some(snapshot(b"*.log")), &Some(vec![identity(8)])));
    assert!(!made.roots_are_current(&None));
}

#[test]
fn lookup_rejects_an_obsolete_ignore_snapshot() {
    let mut state = CacheState::new();
    state.commit(build(&["root"], 7), 1, 1000);
    let wanted = key(&["root"], b"*.log");
    let same = Some(vec![identity(7)]);
    assert!(!wanted.ignore_snapshot_is_current(&Some(snapshot(b"after"))));
    assert_eq!(state.lookup(&wanted, &Some(snapshot(b"after")), &same, false), LookupAnswer::Miss);
    let unreadable = IgnoreSnapshot {
        files: vec![IgnoreFileSnapshot {
            path: path(&["root", ".ignore"]),
            value: IgnoreFileValue::Error("NotFound".to_string(), Some(2)),
        }],
    };
    assert!(!wanted.ignore_snapshot_is_current(&Some(unreadable)));
}

#[test]
fn oldest_lists_make_room() {
    let mut state = CacheState::new();
    let fresh = Some(snapshot(b"*.log"));
    for (index, name) in ["a", "b", "c", "d"].iter().enumerate() {
        assert_eq!(state.commit(build(&[name], 1), index as u64, 10), []);
    }
    let same = Some(vec![identity(1)]);
    assert_eq!(state.lookup(&key(&["a"], b"*.log"), &fresh, &same, false), LookupAnswer::Hit(0));
    assert_eq!(state.commit(build(&["e"], 1), 4, 10), [1]);
    assert_eq!(state.entries.len(), 4);
    assert_eq!(state.commit(build(&["e"], 1), 5, 10), [4]);
    assert_eq!(state.commit(build(&["big"], 1), 6, 67_108_864), [2, 3, 0, 5]);
    assert_eq!(state.entries.len(), 1);
    assert_eq!(state.commit(build(&["huge"], 1), 7, 67_108_865), [7]);
    assert_eq!(state.clear(), [6]);
    assert_eq!(state.entries.len(), 0);
}

#[test]
fn sizes_of_lists_are_added_up() {
    assert_eq!(approximate_bytes(&[3, 4], 24), 55);
    assert_eq!(approximate_bytes(&[usize::MAX, 4], 24), usize::MAX);
    assert_eq!(file_index(1, 2), 4294967298);
    assert_eq!(root_identities(&[Some(identity(1)), None]), None);
    assert_eq!(root_identities(&[Some(identity(1))]), Some(vec![identity(1)]));
}

#[test]
fn watches_cover_roots_and_what_holds_them() {
    let roots = [root(&["w", "a"]), root(&["w", "a", "b"]), root(&["w", "c"])];
    let made = FileListCacheKey::new(
        &roots,
        &Some(path(&["cwd"])),
        false,
        true,
        false,
        &[],
        true,
        Some(IgnoreSnapshot { files: vec![] }),
    )
    .unwrap();
    let (inside, above) = begin(&made).unwrap();
    let inside: Vec<String> = inside.iter().map(|order| written(&order.path)).collect();
    let above: Vec<String> = above.iter().map(|order| written(&order.path)).collect();
    assert_eq!(inside, ["/w/a", "/w/c"]);
    assert_eq!(above, ["/w", "/w/a"]);
    assert!(begin(&key(&[], b"")).is_none());
}

#[test]
fn places_of_ignore_files_are_looked_at_once() {
    let mut places = Vec::new();
    add_candidates(&mut places, ancestor_candidates(&path(&["r"])));
    add_candidates(&mut places, ancestor_candidates(&path(&["r"])));
    let all: Vec<String> = places.iter().map(|place| written(place)).collect();
    assert_eq!(
        all,
        [
            "/r/.ignore",
            "/r/.gitignore",
            "/r/.rgignore",
            "/r/.git",
            "/r/.jj",
            "/r/.git/info/exclude",
        ]
    );
    let shared = add_worktree_ignore_candidates(&path(&["g"]), &Some(path(&["s"])));
    let shared: Vec<String> = shared.iter().map(|place| written(place)).collect();
    assert_eq!(shared, ["/g/info/exclude", "/g/commondir", "/s/info/exclude"]);
    assert_eq!(add_worktree_ignore_candidates(&path(&["g"]), &None).len(), 2);
    assert_eq!(worktree_target("gitdir: /g\nmore"), Some("/g".to_string()));
    assert_eq!(worktree_target("gitdir:/g"), None);
    assert_eq!(worktree_target(""), None);
    assert!(matches!(common_place("../x\n"), Some(CommonPlace::Below(name)) if name == "../x"));
    assert!(matches!(common_place("/x"), Some(CommonPlace::Itself(name)) if name == "/x"));
    assert!(common_place("").is_none());
}

#[test]
fn snapshots_are_bounded() {
    assert!(matches!(
        read_snapshot_file(vec![0; 8_388_609]),
        IgnoreFileValue::Error(kind, None) if kind == "InvalidData"
    ));
    let half = || IgnoreFileSnapshot {
        path: path(&["x"]),
        value: read_snapshot_file(vec![0; 4_194_304]),
    };
    assert!(capture_ignore_snapshot(false, vec![half(), half()]).is_some());
    let three = vec![half(), half(), half()];
    assert!(capture_ignore_snapshot(false, three).is_none());
    let unread = capture_ignore_snapshot(true, vec![half(), half(), half()]).unwrap();
    assert!(unread.files.is_empty());
}
