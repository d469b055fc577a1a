use cloudreve_sync_core::local_file::{
    baseline, examine, fingerprint, metadata, CommitError, ContentScan, EntryKind, Fingerprint, LocalError,
    LocalFile, LocalFileInfo, Modified, Scan, Stat, Timestamp,
};
use cloudreve_sync_core::path::{validate_path, LocalPath, PathCheck, PathError, Probe};
use cloudreve_sync_core::records::{FileResponse, Props};

const ONE: &str = "7692c3ad3540bb803c020b3aee66cd8887123234ea0c6e7143c0add73ff431ed";

fn local(components: &[&str]) -> LocalPath {
    LocalPath {
        components: components.iter().map(|c| c.to_string()).collect(),
    }
}

fn found(kind: EntryKind, len: u64, seconds: i64) -> Stat {
    Stat::Found(kind, len, Modified::At(Timestamp { seconds, nanos: 0 }))
}

fn gone() -> Stat {
    Stat::Missing("No such file or directory (os error 2)".to_string())
}

fn denied() -> String {
    "Permission denied (os error 13)".to_string()
}

fn content(bytes: &[u8]) -> Option<Fingerprint> {
    let stat = found(EntryKind::File, bytes.len() as u64, 7);
    fingerprint(&local(&["/", "r", "file"]), stat.clone(), &vec![bytes.to_vec()], stat).unwrap()
}

fn remote(name: &str, size: i64, is_folder: bool) -> FileResponse {
    FileResponse {
        id: "id-1".to_string(),
        name: name.to_string(),
        path: format!("cloudreve://my/{name}"),
        is_folder,
        size,
        primary_entity: Some("e1".to_string()),
        created_at: "2026-01-01T00:00:00Z".to_string(),
        updated_at: "2026-01-01T00:00:01Z".to_string(),
        metadata: None,
        permission: None,
        shared: None,
    }
}

#[test]
fn fingerprints_detect_same_size_edits_and_survive_restart() {
    let first = content(b"one");
    assert_ne!(first, content(b"two"));
    assert_eq!(first.as_ref().unwrap().digest, ONE);
    let record = metadata(
        &remote("file", 3, false),
        &local(&["/", "r", "file"]),
        1,
        first.as_ref(),
    );
    assert_eq!(first, baseline(&record));
    let print = first.clone().unwrap();
    let mut spelled = serde_json::Map::new();
    spelled.insert("directory".to_string(), serde_json::Value::from(print.directory));
    spelled.insert("size".to_string(), serde_json::Value::from(print.size));
    spelled.insert("digest".to_string(), serde_json::Value::from(print.digest.as_str()));
    let encoded = serde_json::to_string(&serde_json::Value::Object(spelled)).unwrap();
    let read: serde_json::Value = serde_json::from_str(&encoded).unwrap();
    let restored = Fingerprint {
        directory: read["directory"].as_bool().unwrap(),
        size: read["size"].as_u64().unwrap(),
        digest: read["digest"].as_str().unwrap().to_string(),
    };
    assert_eq!(first, Some(restored));
}

#[test]
fn rejects_symlinks_traversal_and_missing_content_commit() {
    let root = local(&["/", "r"]);
    let link = vec![Probe::Entry, Probe::Entry, Probe::Symlink, Probe::Missing];
    assert_eq!(
        validate_path(&root, &local(&["/", "r", "link", "child"]), &link),
        Err(PathError::Symlink(local(&["/", "r", "link"])))
    );
    let free = vec![Probe::Entry, Probe::Entry, Probe::Entry, Probe::Missing];
    assert_eq!(
        validate_path(&root, &local(&["/", "r", "..", "outside"]), &free),
        Err(PathError::UnsafeComponent)
    );
    let link_stat = found(EntryKind::Other, 0, 1);
    assert_eq!(
        fingerprint(&local(&["/", "r", "link"]), link_stat.clone(), &vec![], link_stat),
        Err(LocalError::Unsupported(local(&["/", "r", "link"])))
    );
    let scanned = fingerprint(
        &local(&["/", "r", "missing"]),
        gone(),
        &vec![],
        gone(),
    );
    let file = LocalFile::new(
        local(&["/", "r", "missing"]),
        root,
        5,
        Ok(()),
        scanned.clone(),
        None,
    );
    assert_eq!(file.commit(Ok(()), scanned), Err(CommitError::Absent));
}

#[test]
fn commit_refuses_content_changed_during_upload() {
    let file = LocalFile::new(
        local(&["/", "r", "file"]),
        local(&["/", "r"]),
        5,
        Ok(()),
        Ok(content(b"old")),
        None,
    );
    let refused = file.commit(Ok(()), Ok(content(b"new"))).unwrap_err();
    assert!(refused.message().contains("changed during transfer"));
}

#[test]
fn commit_records_what_was_transferred() {
    let print = content(b"one");
    let file = LocalFile::new(
        local(&["/", "r", "file"]),
        local(&["/", "r"]),
        5,
        Ok(()),
        Ok(print.clone()),
        None,
    );
    assert_eq!(
        file.commit(Ok(()), Ok(print.clone())),
        Err(CommitError::RemoteMissing)
    );
    let file = file.with_remote_file(&remote("file", 3, true));
    assert_eq!(
        file.commit(Ok(()), Ok(print.clone())),
        Err(CommitError::TypeChanged)
    );
    let file = file.with_remote_file(&remote("file", 4, false));
    assert_eq!(
        file.commit(Ok(()), Ok(print.clone())),
        Err(CommitError::SizeMismatch)
    );
    let file = file
        .with_remote_file(&remote("file", 3, false))
        .with_mark_no_children(true);
    assert!(file.update_sync_error_state(true).is_ok());
    assert_eq!(
        file.commit(Err(PathError::OutsideRoot), Ok(print.clone())),
        Err(CommitError::Local(LocalError::Path(PathError::OutsideRoot)))
    );
    let record = file.commit(Ok(()), Ok(print.clone())).unwrap();
    assert_eq!(record.local_path, "/r/file");
    assert_eq!(record.drive_id, 5);
    assert_eq!(record.created_at, 1767225600);
    assert_eq!(record.updated_at, 1767225601);
    assert_eq!(record.etag, "e1");
    assert_eq!(baseline(&record), print);
}

#[test]
fn a_refused_path_wins_over_what_is_found() {
    let refused = || Err(PathError::OutsideRoot);
    let told = Err(LocalError::Path(PathError::OutsideRoot));
    assert_eq!(examine(refused(), Ok(content(b"x")), None), told);
    assert_eq!(
        examine(refused(), Err(LocalError::Unreadable(denied())), None),
        told
    );
    assert_eq!(
        examine(Ok(()), Err(LocalError::Unreadable(denied())), None),
        Err(LocalError::Unreadable(denied()))
    );
    let time = Some(Timestamp { seconds: 3, nanos: 4 });
    assert_eq!(
        examine(Ok(()), Ok(content(b"x")), time),
        LocalFileInfo::from_path(Ok(content(b"x")), time)
    );
    let file = LocalFile::new(
        local(&["/", "r", "file"]),
        local(&["/", "r"]),
        5,
        refused(),
        Ok(content(b"x")),
        None,
    );
    assert_eq!(file.validate(Ok(())), told.map(|_| ()));
    assert!(file.local_file_info.exists);
    assert_eq!(file.local_file_info.snapshot, None);
}

#[test]
fn an_unreadable_file_never_commits() {
    let file = LocalFile::new(
        local(&["/", "r", "file"]),
        local(&["/", "r"]),
        5,
        Ok(()),
        Err(LocalError::Unreadable(denied())),
        None,
    );
    assert!(file.local_file_info.exists);
    assert_eq!(file.local_file_info.snapshot, None);
    assert_eq!(file.validate(Ok(())), Err(LocalError::Unreadable(denied())));
    assert_eq!(LocalError::Unreadable(denied()).message(), denied());
}

#[test]
fn records_have_zero_for_what_is_no_date() {
    let mut file = remote("file", 3, false);
    file.created_at = "yesterday".to_string();
    let record = metadata(&file, &local(&["/", "r", "file"]), 1, None);
    assert_eq!(record.created_at, 0);
    assert_eq!(record.updated_at, 1767225601);
    assert_eq!(baseline(&record), None);
    assert!(!record.shared);
}

#[test]
fn content_is_scanned_block_by_block() {
    let path = local(&["/", "r", "file"]);
    let before = found(EntryKind::File, 3, 7);
    let mut scan = match ContentScan::begin(&path, before.clone()) {
        Ok(Scan::Content(scan)) => scan,
        _ => panic!("a file has content"),
    };
    assert_eq!(scan.room(), 0x1fff_ffff_ffff_ffff);
    scan.feed(b"o");
    scan.feed(b"ne");
    assert_eq!(scan.finish(before).unwrap().digest, ONE);
}

#[test]
fn files_that_change_while_they_are_scanned_are_refused() {
    let path = local(&["/", "r", "file"]);
    let before = found(EntryKind::File, 3, 7);
    let blocks = vec![b"one".to_vec()];
    for (after, error) in [
        (found(EntryKind::File, 4, 7), LocalError::ChangedWhileScanning),
        (found(EntryKind::File, 3, 8), LocalError::ChangedWhileScanning),
        (
            Stat::Found(EntryKind::File, 3, Modified::Unknown("no time".to_string())),
            LocalError::Unreadable("no time".to_string()),
        ),
        (
            gone(),
            LocalError::Unreadable("No such file or directory (os error 2)".to_string()),
        ),
        (Stat::Unreadable(denied()), LocalError::Unreadable(denied())),
    ] {
        assert_eq!(fingerprint(&path, before.clone(), &blocks, after), Err(error));
    }
    let dir = found(EntryKind::Directory, 96, 7);
    let print = fingerprint(&path, dir.clone(), &vec![], dir).unwrap().unwrap();
    assert!(print.directory);
    assert_eq!((print.size, print.digest.as_str()), (0, ""));
}

#[test]
fn paths_are_checked_prefix_by_prefix() {
    let root = local(&["/", "r"]);
    assert_eq!(
        validate_path(&local(&["r"]), &local(&["r", "a"]), &vec![Probe::Entry, Probe::Entry]),
        Err(PathError::RootNotAbsolute)
    );
    assert_eq!(
        validate_path(&root, &local(&["/", "rr"]), &vec![Probe::Entry, Probe::Entry]),
        Err(PathError::OutsideRoot)
    );
    assert_eq!(
        validate_path(
            &root,
            &local(&["/", "r", "a"]),
            &vec![Probe::Entry, Probe::Entry, Probe::Unreadable(denied())]
        ),
        Err(PathError::Unreadable(denied()))
    );
    assert_eq!(
        validate_path(
            &root,
            &local(&["/", "r", "a"]),
            &vec![Probe::Entry, Probe::Entry, Probe::Missing]
        ),
        Ok(())
    );
    let mut check = PathCheck::begin(&root, &local(&["/", "r", "a"])).unwrap();
    let mut seen: Vec<String> = Vec::new();
    while let Some(prefix) = check.next().unwrap() {
        seen.push(prefix.text());
        check.observe(&Probe::Entry).unwrap();
    }
    assert_eq!(seen, vec!["/", "/r", "/r/a"]);
    assert_eq!(
        PathError::Symlink(local(&["/", "r"])).message(),
        "Symlinks are not supported: /r"
    );
    assert_eq!(PathError::OutsideRoot.message(), "Path outside sync root");
    assert_eq!(PathError::OutsideRoot.cause(), Some("prefix not found"));
    assert_eq!(PathError::UnsafeComponent.cause(), None);
}

#[test]
fn properties_are_read_from_json() {
    let props = Props::read(
        br#"{"remote_id":"x","remote_updated_at":"y","macos_sync_v1":null}"#,
        None,
    );
    assert_eq!(props.remote_id.as_deref(), Some("x"));
    assert_eq!(props.remote_updated_at.as_deref(), Some("y"));
    let props = Props::read(br#"{"remote_id":7}"#, content(b"one"));
    assert_eq!(props.remote_id, None);
    assert_eq!(props.baseline, content(b"one"));
    assert_eq!(Props::read(b"no json", None).remote_id, None);
}
