use cloudreve_sync_core::agenda::{effect, Agenda, Effect, Job};
use cloudreve_sync_core::aliases::{alias_key, check_aliases, Collision};
use cloudreve_sync_core::deletions::{
    begin, confirm_absence, confirm_local_deletion, confirm_remote_deletion, deletions, is_occupied,
    keep_both, keep_both_as, Deletion, Removal,
};
use cloudreve_sync_core::local_file::{
    metadata, EntryKind, Fingerprint, LocalError, Modified, Stat, Timestamp,
};
use cloudreve_sync_core::local_scan::{LocalListing, LocalScan, LocalTree};
use cloudreve_sync_core::path::{LocalPath, PathError};
use cloudreve_sync_core::path_map::PathMap;
use cloudreve_sync_core::plan::{note_progress, plan, plan_directory, Trees};
use cloudreve_sync_core::records::{FileMetadata, FileResponse};
use cloudreve_sync_core::remote_scan::{RemoteScan, RemoteTree};
use cloudreve_sync_core::steps::{choose_step, queue_transfer, Step, Visit};
use cloudreve_sync_core::sync::{changed, conflict_path, internal_name, sync_paths};
use cloudreve_sync_core::sync_error::SyncError;

fn local(components: &[&str]) -> LocalPath {
    LocalPath {
        components: components.iter().map(|c| c.to_string()).collect(),
    }
}

fn below(components: &[&str]) -> LocalPath {
    let mut all = vec!["/", "r"];
    all.extend_from_slice(components);
    local(&all)
}

fn print(digest: &str) -> Fingerprint {
    Fingerprint {
        directory: false,
        size: 1,
        digest: digest.to_string(),
    }
}

fn dir() -> Fingerprint {
    Fingerprint {
        directory: true,
        size: 0,
        digest: String::new(),
    }
}

fn remote(name: &str, data: &str) -> FileResponse {
    FileResponse {
        id: name.to_string(),
        name: name.to_string(),
        path: format!("cloudreve://my/{name}"),
        is_folder: false,
        size: data.len() as i64,
        primary_entity: Some(data.to_string()),
        created_at: "2026-01-01T00:00:00Z".to_string(),
        updated_at: "2026-01-01T00:00:00Z".to_string(),
        metadata: None,
        permission: None,
        shared: None,
    }
}

fn folder(name: &str) -> FileResponse {
    let mut file = remote(name, "");
    file.is_folder = true;
    file.primary_entity = None;
    file
}

/// The remote tree whose folders, the root first, hold these files.
fn remote_tree(levels: &[Vec<FileResponse>]) -> RemoteTree {
    let mut scan = RemoteScan::new(&below(&[]));
    let mut level = 0;
    while scan.next_directory().is_some() {
        for file in &levels[level] {
            scan.entry(file, false, Ok(())).unwrap();
        }
        scan.end_directory();
        level += 1;
    }
    scan.finish().unwrap()
}

/// The local tree whose directories, the last one found first, hold these entries.
fn local_tree(remote: &RemoteTree, levels: &[Vec<(&str, Fingerprint)>]) -> LocalTree {
    let mut scan = LocalScan::new(remote);
    let mut level = 0;
    while scan.next_directory().is_some() {
        for (name, print) in &levels[level] {
            scan.entry(Some(name), false, Ok(()), Ok(Some(print.clone())))
                .unwrap();
        }
        scan.end_directory();
        level += 1;
    }
    scan.finish().unwrap()
}

fn records(entries: &[(LocalPath, FileResponse, Option<Fingerprint>)]) -> PathMap<FileMetadata> {
    let mut map = PathMap::new();
    for (path, file, print) in entries {
        map.insert(path.clone(), metadata(file, path, 1, print.as_ref()));
    }
    map
}

fn set(paths: &[LocalPath]) -> PathMap<()> {
    let mut map = PathMap::new();
    for path in paths {
        map.insert(path.clone(), ());
    }
    map
}

fn steps(visits: &[Visit]) -> Vec<(String, Step)> {
    visits.iter().map(|v| (v.path.text(), v.step)).collect()
}

#[test]
fn remote_scans_list_folders_in_the_order_they_were_found() {
    let mut scan = RemoteScan::new(&below(&[]));
    assert_eq!(scan.next_directory(), Some(below(&[])));
    scan.entry(&folder("b"), false, Ok(())).unwrap();
    scan.entry(&folder("a"), false, Ok(())).unwrap();
    scan.entry(&folder("ignored"), true, Err(PathError::OutsideRoot))
        .unwrap();
    scan.entry(&remote(".DS_Store", "x"), false, Ok(())).unwrap();
    let children = scan.end_directory();
    assert_eq!(children.len(), 2);
    assert_eq!(scan.next_directory(), Some(below(&["b"])));
    scan.end_directory();
    scan.add_created(&below(&["b"]), below(&["b", "new"]), &folder("new"));
    assert_eq!(scan.next_directory(), Some(below(&["a"])));
    scan.end_directory();
    assert_eq!(scan.next_directory(), Some(below(&["b", "new"])));
    scan.end_directory();
    assert_eq!(scan.next_directory(), None);
    let tree = scan.finish().unwrap();
    assert_eq!(tree.files().len(), 3);
    assert!(tree.files().contains(&below(&["b", "new"])));
}

#[test]
fn partial_or_refused_scans_yield_no_tree() {
    let scan = RemoteScan::new(&below(&[]));
    assert!(scan.finish().is_none());
    let mut scan = RemoteScan::new(&below(&[]));
    scan.next_directory();
    assert!(scan.finish().is_none());
    for (name, error) in [
        ("..", SyncError::UnsafeName),
        ("a/b", SyncError::UnsafeName),
        ("x", SyncError::Local(LocalError::Path(PathError::OutsideRoot))),
        ("y", SyncError::Duplicate),
    ] {
        let mut scan = RemoteScan::new(&below(&[]));
        scan.next_directory();
        scan.entry(&remote("y", "1"), false, Ok(())).unwrap();
        let checked = if name == "x" {
            Err(PathError::OutsideRoot)
        } else {
            Ok(())
        };
        assert_eq!(scan.entry(&remote(name, "1"), false, checked), Err(error));
        scan.end_directory();
        assert!(scan.next_directory().is_none());
        assert!(scan.finish().is_none());
    }
}

#[test]
fn local_scans_read_every_directory() {
    let tree = remote_tree(&[vec![]]);
    let mut scan = LocalScan::new(&tree);
    assert_eq!(scan.next_directory(), Some(below(&[])));
    scan.entry(Some("a"), false, Ok(()), Ok(Some(dir()))).unwrap();
    scan.entry(Some("b"), false, Ok(()), Ok(Some(dir()))).unwrap();
    scan.entry(Some(".cloudreve-tmp-1"), false, Ok(()), Ok(None))
        .unwrap();
    scan.end_directory();
    assert_eq!(scan.next_directory(), Some(below(&["b"])));
    scan.entry(Some("f"), false, Ok(()), Ok(Some(print("x"))))
        .unwrap();
    scan.end_directory();
    assert_eq!(scan.next_directory(), Some(below(&["a"])));
    scan.end_directory();
    assert_eq!(scan.next_directory(), None);
    let found = scan.finish().unwrap();
    assert_eq!(found.files().len(), 3);
    assert_eq!(found.files().get(&below(&["b", "f"])), Some(&print("x")));
}

#[test]
fn refused_local_entries_end_a_scan() {
    let tree = remote_tree(&[vec![]]);
    let outcomes = [
        (None, Ok(()), Ok(Some(dir())), SyncError::NotUtf8),
        (Some("a"), Ok(()), Ok(None), SyncError::Disappeared),
        (
            Some("a"),
            Err(PathError::Symlink(below(&["a"]))),
            Ok(Some(dir())),
            SyncError::Local(LocalError::Path(PathError::Symlink(below(&["a"])))),
        ),
        (
            Some("a"),
            Ok(()),
            Err(LocalError::ChangedWhileScanning),
            SyncError::Local(LocalError::ChangedWhileScanning),
        ),
    ];
    for (name, checked, scanned, error) in outcomes {
        let mut scan = LocalScan::new(&tree);
        scan.next_directory();
        assert_eq!(
            scan.entry(name, false, checked.clone(), scanned.clone()),
            Err(error.clone())
        );
        scan.end_directory();
        assert!(scan.finish().is_none());
        let mut listing = LocalListing::new(&below(&[]));
        assert_eq!(listing.entry(name, false, checked, scanned), Err(error));
        assert!(listing.finish().is_none());
    }
}

#[test]
fn aliases_are_refused_across_both_sides() {
    assert_eq!(alias_key(&local(&["/", "Caf\u{e9}"])), "/cafe\u{301}");
    assert_eq!(alias_key(&local(&["/", "\u{130}"])), "/i\u{307}");
    let mut one: PathMap<u8> = PathMap::new();
    one.insert(below(&["a"]), 1);
    one.insert(below(&["b"]), 1);
    let mut two: PathMap<u8> = PathMap::new();
    two.insert(below(&["a"]), 2);
    assert_eq!(check_aliases(&one, &two), Ok(()));
    two.insert(below(&["B"]), 2);
    assert_eq!(
        check_aliases(&one, &two),
        Err(Collision {
            first: below(&["b"]),
            second: below(&["B"]),
        })
    );
    let remote = remote_tree(&[vec![remote("x\u{e9}", "1")]]);
    let found = local_tree(&remote, &[vec![("xe\u{301}", print("1"))]]);
    let error = Trees::new(found, remote).unwrap_err();
    assert_eq!(
        error.message(),
        "Filename collision: /r/xe\u{301} and /r/x\u{e9}"
    );
}

#[test]
fn directory_plans_only_transfer() {
    let mut here = LocalListing::new(&below(&[]));
    for (name, found) in [
        ("both", dir()),
        ("edited", print("new")),
        ("gone", print("old")),
        ("new", print("x")),
        ("newdir", dir()),
    ] {
        here.entry(Some(name), false, Ok(()), Ok(Some(found))).unwrap();
    }
    let here = here.finish().unwrap();
    let mut scan = RemoteScan::new(&below(&[]));
    scan.next_directory();
    for file in [
        folder("both"),
        remote("edited", "1"),
        remote("fetched", "2"),
        folder("made"),
        remote("vanished", "3"),
        remote("busy", "4"),
    ] {
        scan.entry(&file, false, Ok(())).unwrap();
    }
    let there = scan.end_directory();
    let known = records(&[
        (below(&["edited"]), remote("edited", "1"), Some(print("old"))),
        (below(&["gone"]), remote("gone", "1"), Some(print("old"))),
        (below(&["vanished"]), remote("vanished", "3"), Some(print("old"))),
    ]);
    let active = set(&[below(&["busy"])]);
    let visits = plan_directory(&here, &there, &known, &active).unwrap();
    assert_eq!(
        steps(&visits),
        vec![
            ("/r/both".to_string(), Step::Skip),
            ("/r/busy".to_string(), Step::Skip),
            ("/r/edited".to_string(), Step::Upload),
            ("/r/fetched".to_string(), Step::Download),
            ("/r/gone".to_string(), Step::Skip),
            ("/r/made".to_string(), Step::CreateLocalFolder),
            ("/r/new".to_string(), Step::Upload),
            ("/r/newdir".to_string(), Step::CreateRemoteFolder),
            ("/r/vanished".to_string(), Step::Skip),
        ]
    );
    let mut progressed = PathMap::new();
    for visit in &visits {
        note_progress(&mut progressed, visit);
    }
    assert_eq!(progressed.len(), 5);
}

#[test]
fn full_plans_visit_every_path_once() {
    let tree = remote_tree(&[vec![
        remote("changed", "2"),
        remote("conflict", "2"),
        remote("gone-here", "1"),
        remote("same", "1"),
    ]]);
    let found = local_tree(
        &tree,
        &[vec![
            ("changed", print("old")),
            ("conflict", print("new")),
            ("gone-there", print("old")),
            ("same", print("old")),
            ("uploaded", print("old")),
        ]],
    );
    let trees = Trees::new(found, tree).unwrap();
    let base = Some(print("old"));
    let known = records(&[
        (below(&["changed"]), remote("changed", "1"), base.clone()),
        (below(&["conflict"]), remote("conflict", "1"), base.clone()),
        (below(&["forgotten"]), remote("forgotten", "1"), base.clone()),
        (below(&["gone-here"]), remote("gone-here", "1"), base.clone()),
        (below(&["gone-there"]), remote("gone-there", "1"), base.clone()),
        (below(&["same"]), remote("same", "1"), base.clone()),
        (below(&["uploaded"]), remote("uploaded", "1"), base),
        (below(&["x", ".DS_Store"]), remote(".DS_Store", "1"), None),
    ]);
    let none = set(&[]);
    let progressed = set(&[below(&["uploaded"])]);
    let visits = plan(&trees, &known, &none, &none, &progressed).unwrap();
    assert_eq!(
        steps(&visits),
        vec![
            ("/r/changed".to_string(), Step::Download),
            ("/r/conflict".to_string(), Step::KeepBoth),
            ("/r/forgotten".to_string(), Step::Forget),
            ("/r/gone-here".to_string(), Step::DeleteRemote),
            ("/r/gone-there".to_string(), Step::DeleteLocal),
            ("/r/same".to_string(), Step::Nothing),
            ("/r/x/.DS_Store".to_string(), Step::Skip),
        ]
    );
    let excluded = set(&[below(&["gone-there"])]);
    let busy = set(&[below(&["gone-here"])]);
    let visits = plan(&trees, &known, &excluded, &busy, &progressed).unwrap();
    assert!(deletions(&visits).is_empty());
}

#[test]
fn folders_with_changes_below_them_are_not_deleted() {
    let tree = remote_tree(&[vec![]]);
    let found = local_tree(&tree, &[vec![("d", dir())], vec![("f", print("new"))]]);
    let trees = Trees::new(found, tree).unwrap();
    let none = set(&[]);
    let known = records(&[(below(&["d"]), folder("d"), Some(dir()))]);
    let error = plan(&trees, &known, &none, &none, &none).unwrap_err();
    assert_eq!(error, SyncError::RemoteFolderGone(below(&["d"])));
    assert_eq!(
        error.message(),
        "Remote folder was deleted but local children changed: /r/d; move the local folder to a new name to preserve it"
    );
    let known = records(&[
        (below(&["d"]), folder("d"), Some(dir())),
        (below(&["d", "f"]), remote("f", "1"), Some(print("new"))),
    ]);
    let visits = plan(&trees, &known, &none, &none, &none).unwrap();
    let order: Vec<String> = deletions(&visits).iter().map(|d| d.path.text()).collect();
    assert_eq!(order, vec!["/r/d/f", "/r/d"]);
    let tree = remote_tree(&[vec![folder("d")], vec![remote("f", "2")]]);
    let found = local_tree(&tree, &[vec![]]);
    let trees = Trees::new(found, tree).unwrap();
    assert_eq!(
        plan(&trees, &known, &none, &none, &none).unwrap_err(),
        SyncError::LocalFolderGone(below(&["d"]))
    );
}

#[test]
fn deletions_go_from_the_deepest_path_up() {
    let visit = |components: &[&str], step: Step| Visit {
        path: below(components),
        step,
        local: None,
        remote: None,
    };
    let visits = vec![
        visit(&["a"], Step::DeleteLocal),
        visit(&["a", "b"], Step::DeleteRemote),
        visit(&["a", "b", "c"], Step::DeleteLocal),
        visit(&["d"], Step::Upload),
        visit(&["e", "f"], Step::DeleteLocal),
    ];
    let list = deletions(&visits);
    let order: Vec<(String, bool)> = list.iter().map(|d| (d.path.text(), d.remote)).collect();
    assert_eq!(
        order,
        vec![
            ("/r/a/b/c".to_string(), false),
            ("/r/a/b".to_string(), true),
            ("/r/e/f".to_string(), false),
            ("/r/a".to_string(), false),
        ]
    );
}

#[test]
fn agendas_delete_last() {
    let visit = |name: &str, step: Step| Visit {
        path: below(&[name]),
        step,
        local: Some(print("x")),
        remote: None,
    };
    let mut agenda = Agenda::new(vec![visit("a", Step::DeleteLocal), visit("b", Step::Upload)]);
    let mut order: Vec<String> = Vec::new();
    loop {
        let job = match agenda.next() {
            Job::Visit(v) => format!("visit {}", v.path.text()),
            Job::Delete(d) => format!("delete {}", d.path.text()),
            Job::Finished => break,
        };
        order.push(job);
        agenda.advance();
    }
    assert_eq!(order, vec!["visit /r/a", "visit /r/b", "delete /r/a"]);
    agenda.advance();
    assert!(matches!(agenda.next(), Job::Finished));
}

#[test]
fn visits_take_effect_or_stop_the_reconciliation() {
    let mut visit = Visit {
        path: below(&["a"]),
        step: Step::Upload,
        local: Some(print("x")),
        remote: None,
    };
    match effect(&visit, Ok(())).unwrap() {
        Effect::Transfer(t) => assert_eq!(
            (t.upload, t.path, t.expected),
            (true, below(&["a"]), Some(print("x")))
        ),
        _ => panic!("an upload is a transfer"),
    }
    assert_eq!(
        effect(&visit, Err(PathError::OutsideRoot)),
        Err(SyncError::Local(LocalError::Path(PathError::OutsideRoot)))
    );
    visit.step = Step::TypeConflict;
    assert_eq!(
        effect(&visit, Ok(())).unwrap_err().message(),
        "File/directory conflict: /r/a"
    );
    visit.step = Step::DirectoryConflict;
    assert_eq!(
        effect(&visit, Ok(())).unwrap_err().message(),
        "Directory conflict at /r/a; no content was removed"
    );
    visit.step = Step::DeleteRemote;
    assert_eq!(effect(&visit, Ok(())), Ok(Effect::Nothing));
    visit.step = Step::KeepBoth;
    assert_eq!(queue_transfer(&visit), None);
    visit.remote = Some(remote("a", "1"));
    let fetch = queue_transfer(&visit).unwrap();
    assert_eq!((fetch.upload, fetch.expected), (false, None));
}

#[test]
fn conflicts_keep_the_local_version_beside_the_remote_one() {
    let visit = Visit {
        path: below(&["a"]),
        step: Step::KeepBoth,
        local: Some(print("x")),
        remote: Some(remote("a", "1")),
    };
    let name = "a (conflict 00000000-0000-4000-8000-000000000007)";
    let id = 0x0000_0000_0000_4000_8000_0000_0000_0007;
    let kept = keep_both_as(&visit, Ok(Some(print("x"))), id).unwrap();
    assert_eq!(kept.copy, Some(below(&[name])));
    assert_eq!(
        kept.notice,
        Some(format!("Local version preserved as /r/{name}"))
    );
    assert!(kept.fetch);
    assert_eq!(
        keep_both_as(&visit, Ok(Some(print("y"))), id),
        Err(SyncError::ChangedDuringReconciliation)
    );
    assert_eq!(
        keep_both_as(&visit, Err(LocalError::Unreadable("gone".to_string())), id),
        Err(SyncError::Local(LocalError::Unreadable("gone".to_string())))
    );
    let first = keep_both(&visit, Ok(Some(print("x")))).unwrap();
    let second = keep_both(&visit, Ok(Some(print("x")))).unwrap();
    assert_ne!(first.copy, second.copy);
    assert_eq!(conflict_path(&local(&["/"]), id), None);
    let rootless = Visit {
        path: local(&["/"]),
        ..visit.clone()
    };
    assert_eq!(
        keep_both_as(&rootless, Ok(Some(print("x"))), id),
        Err(SyncError::MissingFilename)
    );
    let gone = Visit {
        local: None,
        ..visit
    };
    let kept = keep_both_as(&gone, Ok(None), id).unwrap();
    assert_eq!((kept.copy, kept.notice, kept.fetch), (None, None, true));
}

#[test]
fn entries_are_looked_at_again_before_they_are_deleted() {
    let file = Deletion {
        path: below(&["a"]),
        remote: false,
        expected: Some(print("x")),
    };
    assert_eq!(
        confirm_local_deletion(&file, Ok(Some(print("x"))), false),
        Ok(Removal::File)
    );
    assert_eq!(
        confirm_local_deletion(&file, Ok(Some(print("y"))), false),
        Err(SyncError::ChangedBeforeDeletion)
    );
    assert_eq!(
        confirm_local_deletion(&file, Ok(None), false),
        Err(SyncError::ChangedBeforeDeletion)
    );
    let directory = Deletion {
        expected: Some(dir()),
        ..file
    };
    assert_eq!(
        confirm_local_deletion(&directory, Ok(Some(dir())), true),
        Ok(Removal::Keep)
    );
    assert_eq!(
        confirm_local_deletion(&directory, Ok(Some(dir())), false),
        Ok(Removal::Directory)
    );
    assert_eq!(confirm_absence(Ok(None)), Ok(()));
    assert_eq!(
        confirm_absence(Ok(Some(dir()))),
        Err(SyncError::ReappearedBeforeDeletion)
    );
    let record = metadata(&remote("a", "1"), &below(&["a"]), 1, Some(&print("x")));
    assert_eq!(
        confirm_remote_deletion(&remote("a", "1"), &record),
        Ok(false)
    );
    assert_eq!(
        confirm_remote_deletion(&remote("a", "2"), &record),
        Err(SyncError::RemoteChangedBeforeDeletion)
    );
    let record = metadata(&folder("a"), &below(&["a"]), 1, Some(&dir()));
    assert_eq!(confirm_remote_deletion(&folder("a"), &record), Ok(true));
    assert!(is_occupied(1, false) && is_occupied(0, true) && !is_occupied(0, false));
}

#[test]
fn a_missing_root_begins_nothing() {
    let id = "00000000-0000-4000-8000-000000000007";
    let time = Modified::At(Timestamp { seconds: 1, nanos: 0 });
    let root = Stat::Found(EntryKind::Directory, 0, time.clone());
    let gone = "No such file or directory (os error 2)".to_string();
    let missing = Stat::Missing(gone.clone());
    assert_eq!(begin(false, Err(PathError::OutsideRoot), missing.clone(), ""), Ok(None));
    assert_eq!(
        begin(true, Ok(()), root.clone(), id),
        Ok(Some(0x0000_0000_0000_4000_8000_0000_0000_0007))
    );
    assert_eq!(
        begin(true, Ok(()), missing, id),
        Err(SyncError::Local(LocalError::Unreadable(gone)))
    );
    assert_eq!(
        begin(true, Ok(()), Stat::Found(EntryKind::File, 0, time), id),
        Err(SyncError::RootUnavailable)
    );
    let invalid = begin(true, Ok(()), root.clone(), "x").unwrap_err();
    assert_eq!(invalid.message(), "invalid character: found `x` at 0");
    let outside = SyncError::Local(LocalError::Path(PathError::OutsideRoot));
    assert_eq!(outside.message(), "Path outside sync root");
    assert_eq!(outside.cause(), Some("prefix not found"));
    assert_eq!(invalid.cause(), None);
    assert_eq!(
        begin(true, Err(PathError::RootNotAbsolute), root, id),
        Err(SyncError::Local(LocalError::Path(PathError::RootNotAbsolute)))
    );
    let mut shown: Option<String> = None;
    let failed: Result<(), (u8, String)> = Err((7, "failed: for a reason".to_string()));
    assert_eq!(sync_paths(&mut shown, failed), Err(7));
    assert_eq!(shown.as_deref(), Some("failed: for a reason"));
    let done: Result<(), (u8, String)> = Ok(());
    assert!(sync_paths(&mut shown, done).is_ok());
    assert_eq!(shown, None);
}

#[test]
fn remote_changes_are_seen_by_version_kind_date_and_identity() {
    let file = remote("a", "1");
    let record = metadata(&file, &below(&["a"]), 1, None);
    assert!(!changed(&file, &record));
    let mut other = file.clone();
    other.updated_at = "2026-01-02T00:00:00Z".to_string();
    assert!(changed(&other, &record));
    let mut other = file.clone();
    other.id = "other".to_string();
    assert!(changed(&other, &record));
    let mut other = file.clone();
    other.is_folder = true;
    assert!(changed(&other, &record));
    let mut bare = record.clone();
    bare.props = None;
    assert!(changed(&file, &bare));
    assert_eq!(
        choose_step(Some(&print("x")), Some(&file), Some(&bare)),
        Step::KeepBoth
    );
    assert_eq!(
        choose_step(Some(&print("x")), Some(&folder("a")), None),
        Step::DirectoryConflict
    );
    let base = metadata(&folder("a"), &below(&["a"]), 1, Some(&dir()));
    assert_eq!(choose_step(Some(&dir()), Some(&file), Some(&base)), Step::TypeConflict);
    assert_eq!(
        choose_step(Some(&print("x")), Some(&folder("a")), Some(&base)),
        Step::TypeConflict
    );
    let base = metadata(&file, &below(&["a"]), 1, Some(&print("x")));
    assert_eq!(choose_step(Some(&dir()), Some(&file), Some(&base)), Step::TypeConflict);
    assert_eq!(
        choose_step(Some(&print("x")), Some(&folder("a")), Some(&base)),
        Step::TypeConflict
    );
    assert!(internal_name(".DS_Store") && internal_name(".cloudreve-tmp-1"));
    assert!(!internal_name("DS_Store"));
}

#[test]
fn paths_are_ordered_component_by_component() {
    let mut map: PathMap<u8> = PathMap::new();
    for path in [
        below(&["b"]),
        below(&["a", "z"]),
        below(&["a"]),
        below(&["a-b"]),
        below(&["B"]),
    ] {
        map.insert(path, 0);
    }
    let keys: Vec<String> = (0..map.len()).map(|i| map.key_at(i).text()).collect();
    assert_eq!(keys, vec!["/r/B", "/r/a", "/r/a/z", "/r/a-b", "/r/b"]);
}
