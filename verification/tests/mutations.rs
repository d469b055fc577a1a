use cloudreve_sync_core::change::{Answer, Ask, ChangeCourse};
use cloudreve_sync_core::faults::{api_code, error_kind, fail, ApiFault, Failure, Fault};
use cloudreve_sync_core::hashing::{text_digest, ContentDigest};
use cloudreve_sync_core::local_file::{EntryKind, Modified, Stat, Timestamp};
use cloudreve_sync_core::mutations::{
    begin_digest, digest, filename, intent, journal_file, key_input, metadata, same_version,
    temporary_file, temporary_file_as, upload_task, Change, ChangeRequest, Journal,
};
use cloudreve_sync_core::records::{Disposal, FileResponse, Taken};
use cloudreve_sync_core::scope::CrUri;
use std::io::{Read, Seek, Write};

fn request(change: Change) -> ChangeRequest {
    ChangeRequest {
        change,
        root: uri(&[]),
        domain: "dom".to_string(),
        id: "f1".to_string(),
        parent: String::new(),
        name: String::new(),
        version: "v1".to_string(),
        metadata_version: "cloudreve://my/a\nu\n3".to_string(),
        directory: false,
        request_id: "req-1".to_string(),
        local_path: String::new(),
        state_directory: "/state".to_string(),
    }
}

fn uri(elements: &[&str]) -> CrUri {
    CrUri {
        base: "cloudreve://my".to_string(),
        elements: elements.iter().map(|e| e.to_string()).collect(),
    }
}

fn item(file: FileResponse) -> Answer {
    let at = uri(&[file.id.as_str()]);
    Answer::Item(Ok((file, at)))
}

fn file(id: &str, name: &str) -> FileResponse {
    FileResponse {
        id: id.to_string(),
        name: name.to_string(),
        path: format!("cloudreve://my/{name}"),
        is_folder: false,
        size: 3,
        primary_entity: Some("v1".to_string()),
        created_at: String::new(),
        updated_at: "u".to_string(),
        metadata: None,
        permission: None,
        shared: None,
    }
}

fn folder(id: &str, name: &str) -> FileResponse {
    let mut made = file(id, name);
    made.is_folder = true;
    made
}

fn done() -> Answer {
    Answer::Done(Ok(()))
}

fn failed_as(ask: Ask) -> &'static str {
    match ask {
        Ask::Fail(fault) => error_kind(&fault),
        other => panic!("{other:?}"),
    }
}

/// Goes on until the journal was loaded, with what is found there.
fn loaded(request: ChangeRequest, found: Option<Journal>) -> (ChangeCourse, Ask) {
    let (mut course, ask) = ChangeCourse::begin(request);
    assert!(matches!(ask, Ask::Prepare));
    assert!(matches!(course.next(done()), Ask::Load(_)));
    let ask = course.next(Answer::Found(Ok(found)));
    (course, ask)
}

/// Goes on until the journal was kept for the first time.
fn opened(request: ChangeRequest) -> (ChangeCourse, Ask) {
    let (mut course, ask) = loaded(request, None);
    assert!(matches!(ask, Ask::Save(_, _)));
    let ask = course.next(done());
    (course, ask)
}

#[test]
fn journal_is_durable_and_rejects_invalid_names() {
    let kept = Journal {
        done: true,
        intent: "retry-key".to_string(),
        last: None,
    };
    let mut spelled = serde_json::Map::new();
    spelled.insert("last".to_string(), serde_json::Value::Null);
    spelled.insert("done".to_string(), serde_json::Value::from(kept.done));
    spelled.insert("intent".to_string(), serde_json::Value::from(kept.intent.as_str()));
    let temp = tempfile::tempdir().unwrap();
    let mut staged = tempfile::NamedTempFile::new_in(temp.path()).unwrap();
    let data = serde_json::to_vec(&serde_json::Value::Object(spelled)).unwrap();
    staged.write_all(&data).unwrap();
    staged.as_file().sync_all().unwrap();
    let mut written = staged.persist(temp.path().join(journal_file("journal"))).unwrap();
    written.rewind().unwrap();
    let mut back = Vec::new();
    written.read_to_end(&mut back).unwrap();
    let read: serde_json::Value = serde_json::from_slice(&back).unwrap();
    let loaded = Journal {
        done: read["done"].as_bool().unwrap(),
        intent: read["intent"].as_str().unwrap().to_string(),
        last: None,
    };
    assert_eq!(loaded, kept.duplicate());
    assert!(loaded.done);
    assert_eq!(loaded.intent, "retry-key");
    for name in ["", ".", "..", "a/b", "a\0b"] {
        assert!(filename(name).is_err());
    }
}

#[test]
fn journals_are_found_by_what_was_asked() {
    let mut asked = request(Change::Delete);
    asked.metadata_version = "p\nu\n3".to_string();
    let text = intent(&asked, "");
    assert_eq!(
        text,
        r#"["delete","f1","","","v1","p\nu\n3",false,""]"#
    );
    assert_eq!(key_input(&asked, &text), format!("dom:{text}"));
    assert_eq!(
        text_digest(&key_input(&asked, &text)).unwrap(),
        "41180eab6e13fc38c7be6e1f71876959bec1d33c2e9416b7ee776c5fbca3621d"
    );
    let created = request(Change::Create);
    assert_eq!(key_input(&created, "anything"), "dom:create:req-1");
    let (mut course, _) = ChangeCourse::begin(created);
    match course.next(done()) {
        Ask::Load(key) => assert_eq!(
            key,
            "e4dd345e9bdf8a330ade34579cca0be64f1bc7b791fab5be9816f40946655842"
        ),
        other => panic!("{other:?}"),
    }
    let mut moved = request(Change::Delete);
    moved.local_path = "/staging/2".to_string();
    moved.state_directory = "/elsewhere".to_string();
    assert_eq!(intent(&moved, "h"), intent(&request(Change::Delete), "h"));
}

#[test]
fn journal_files_are_replaced_by_temporary_ones() {
    assert_eq!(journal_file("k"), "k.json");
    assert_eq!(
        temporary_file_as("k", 7),
        "k.00000000-0000-0000-0000-000000000007.tmp"
    );
    assert_ne!(temporary_file("k"), temporary_file("k"));
    let task = upload_task();
    assert_eq!(task.len(), 36);
    assert_eq!(task.as_bytes()[14], b'4');
    assert_ne!(task, upload_task());
}

#[test]
fn versions_are_content_and_properties() {
    let known = file("f1", "a");
    assert_eq!(metadata(&known), "cloudreve://my/a\nu\n3");
    assert!(same_version(&known, "v1", "cloudreve://my/a\nu\n3"));
    assert!(!same_version(&known, "v2", "cloudreve://my/a\nu\n3"));
    assert!(!same_version(&known, "v1", "cloudreve://my/a\nu\n4"));
    let mut empty = known;
    empty.primary_entity = None;
    empty.size = -5;
    assert!(same_version(&empty, "", "cloudreve://my/a\nu\n-5"));
}

#[test]
fn staged_content_must_be_a_regular_file() {
    let time = Modified::At(Timestamp { seconds: 1, nanos: 0 });
    let regular = Stat::Found(EntryKind::File, 3, time.clone());
    assert_eq!(
        digest(regular.clone(), &vec![b"a".to_vec(), b"bc".to_vec()]).unwrap(),
        "ba7816bf8f01cfea414140de5dae2223b00361a396177a9cb410ff61f20015ad"
    );
    assert_eq!(
        digest(regular.clone(), &vec![]).unwrap(),
        "e3b0c44298fc1c149afbf4c8996fb92427ae41e4649b934ca495991b7852b855"
    );
    assert!(digest(Stat::Found(EntryKind::Directory, 0, time), &vec![]).is_err());
    assert!(begin_digest(Stat::Missing(String::new())).is_err());
    let mut running: ContentDigest = begin_digest(regular).ok().unwrap();
    running.feed(b"abc");
    assert!(running.finish().starts_with("ba7816bf"));
}

#[test]
fn faults_are_told_by_name() {
    for (code, kind) in [
        (404, "not_found"),
        (40076, "version_conflict"),
        (40004, "collision"),
        (403, "permission"),
        (500, "internal"),
    ] {
        let fault = Fault::Api(ApiFault::Code(code));
        assert_eq!(error_kind(&fault), kind);
        assert_eq!(api_code(&fault), Some(code));
    }
    for fault in [
        ApiFault::LoginRequired,
        ApiFault::RefreshTokenExpired,
        ApiFault::AccessTokenExpired,
        ApiFault::NoTokensAvailable,
        ApiFault::InvalidToken,
    ] {
        assert_eq!(error_kind(&Fault::Api(fault)), "not_authenticated");
    }
    assert_eq!(error_kind(&Fault::Api(ApiFault::Unreachable)), "unreachable");
    assert_eq!(error_kind(&Fault::Api(ApiFault::Other)), "internal");
    assert_eq!(error_kind(&Fault::Other("anything")), "internal");
    let failed: Result<(), Fault> = fail("directory_not_empty");
    let fault = failed.unwrap_err();
    assert_eq!(error_kind(&fault), "directory_not_empty");
    assert_eq!(api_code(&fault), None);
    assert!(matches!(fault, Fault::Failure(Failure(_))));
}

#[test]
fn requests_are_refused_before_anything_is_asked() {
    let mut nowhere = request(Change::Delete);
    nowhere.state_directory = "state".to_string();
    let (_, ask) = ChangeCourse::begin(nowhere);
    assert!(matches!(
        ask,
        Ask::Fail(Fault::Other("missing private state directory"))
    ));
    let mut unknown = request(Change::Create);
    unknown.request_id = String::new();
    let (mut course, _) = ChangeCourse::begin(unknown);
    assert!(matches!(
        course.next(done()),
        Ask::Fail(Fault::Other("create requires stable template identifier"))
    ));
    let (_, ask) = opened(request(Change::Create));
    assert!(matches!(ask, Ask::Fail(Fault::Other("invalid filename"))));
    let mut root = request(Change::Delete);
    root.id = "root".to_string();
    let (_, ask) = opened(root);
    assert!(matches!(ask, Ask::Fail(Fault::Other("cannot mutate root"))));
}

#[test]
fn finished_requests_are_answered_from_their_journal() {
    let asked = request(Change::Modify);
    let journal = Journal {
        last: Some(file("f1", "a")),
        done: true,
        intent: intent(&asked, ""),
    };
    let (mut course, ask) = loaded(asked.clone(), Some(journal.duplicate()));
    match ask {
        Ask::Reply(Some(last)) => assert_eq!(last.name, "a"),
        other => panic!("{other:?}"),
    }
    assert!(matches!(
        course.next(done()),
        Ask::Fail(Fault::Other("misplaced answer"))
    ));
    let mut other = asked;
    other.name = "b".to_string();
    let (_, ask) = loaded(other, Some(journal));
    assert_eq!(failed_as(ask), "version_conflict");
}

#[test]
fn files_are_created_once_and_never_adopted() {
    let mut asked = request(Change::Create);
    asked.name = "a".to_string();
    asked.parent = "p".to_string();
    asked.directory = true;
    let (mut course, ask) = opened(asked.clone());
    assert!(matches!(ask, Ask::Item(id) if id == "p"));
    match course.next(item(folder("p", "dir"))) {
        Ask::Create(at, name, directory, taken) => {
            assert_eq!((at.as_str(), name.as_str()), ("cloudreve://my/dir", "a"));
            assert_eq!((directory, taken), (true, Taken::Refuse));
        }
        other => panic!("{other:?}"),
    }
    let kept = match course.next(Answer::File(Ok(folder("new", "a")))) {
        Ask::Save(_, journal) => journal,
        other => panic!("{other:?}"),
    };
    assert_eq!(kept.last.as_ref().unwrap().id, "new");
    assert!(!kept.done);
    match course.next(done()) {
        Ask::Save(_, journal) => assert!(journal.done),
        other => panic!("{other:?}"),
    }
    assert!(matches!(course.next(done()), Ask::Reply(Some(f)) if f.id == "new"));
    let (mut course, ask) = loaded(asked.clone(), Some(kept));
    assert!(matches!(ask, Ask::Save(_, _)));
    assert!(matches!(course.next(done()), Ask::Item(id) if id == "new"));
    let mut newer = folder("new", "a");
    newer.updated_at = "later".to_string();
    assert_eq!(
        failed_as(course.next(item(newer))),
        "version_conflict"
    );
    let (mut course, _) = opened(asked.clone());
    course.next(item(folder("p", "dir")));
    let taken = Answer::File(Err(Fault::Api(ApiFault::Code(40004))));
    assert_eq!(failed_as(course.next(taken)), "collision");
    let (mut course, _) = opened(asked);
    assert!(matches!(
        course.next(item(file("p", "dir"))),
        Ask::Fail(Fault::Other("not a folder"))
    ));
}

#[test]
fn nothing_out_of_scope_is_changed() {
    let mut asked = request(Change::Delete);
    asked.root = uri(&["a"]);
    let (mut course, _) = opened(asked.clone());
    let outside = Answer::Item(Ok((file("f1", "a"), uri(&["b", "f1"]))));
    assert!(matches!(
        course.next(outside),
        Ask::Fail(Fault::Other("out of scope"))
    ));
    asked.root = uri(&[".."]);
    let (_, ask) = ChangeCourse::begin(asked);
    assert!(matches!(ask, Ask::Fail(Fault::Other("invalid path"))));
}

#[test]
fn only_empty_folders_are_deleted() {
    let (mut course, ask) = opened(request(Change::Delete));
    assert!(matches!(ask, Ask::Item(id) if id == "f1"));
    assert!(matches!(
        course.next(item(folder("f1", "a"))),
        Ask::List(_)
    ));
    assert_eq!(
        failed_as(course.next(Answer::Entries(Ok((1, false))))),
        "directory_not_empty"
    );
    let (mut course, _) = opened(request(Change::Delete));
    course.next(item(folder("f1", "a")));
    assert!(matches!(
        course.next(Answer::Entries(Ok((0, false)))),
        Ask::Delete(uri, Disposal::Soft) if uri == "cloudreve://my/a"
    ));
    match course.next(done()) {
        Ask::Save(_, journal) => assert!(journal.done && journal.last.is_none()),
        other => panic!("{other:?}"),
    }
    assert!(matches!(course.next(done()), Ask::Reply(None)));
}

#[test]
fn deleting_what_is_gone_succeeds_and_a_newer_version_stays() {
    let (mut course, _) = opened(request(Change::Delete));
    let gone = Answer::Item(Err(Fault::Api(ApiFault::Code(404))));
    match course.next(gone) {
        Ask::Save(_, journal) => assert!(journal.done),
        other => panic!("{other:?}"),
    }
    assert!(matches!(course.next(done()), Ask::Reply(None)));
    let (mut course, _) = opened(request(Change::Modify));
    let gone = Answer::Item(Err(Fault::Api(ApiFault::Code(404))));
    assert_eq!(failed_as(course.next(gone)), "not_found");
    let (mut course, _) = opened(request(Change::Delete));
    let broken = Answer::Item(Err(Fault::Api(ApiFault::Code(500))));
    assert_eq!(failed_as(course.next(broken)), "internal");
    let (mut course, _) = opened(request(Change::Delete));
    let mut newer = file("f1", "a");
    newer.primary_entity = Some("v2".to_string());
    assert_eq!(
        failed_as(course.next(item(newer))),
        "version_conflict"
    );
}

#[test]
fn files_are_moved_renamed_and_filled_in_that_order() {
    let mut asked = request(Change::Modify);
    asked.parent = "p".to_string();
    asked.name = "b".to_string();
    asked.local_path = "/staging/1".to_string();
    let (mut course, _) = ChangeCourse::begin(asked);
    assert!(matches!(course.next(done()), Ask::Digest));
    assert!(matches!(course.next(Answer::Text(Ok("h".to_string()))), Ask::Load(_)));
    assert!(matches!(course.next(Answer::Found(Ok(None))), Ask::Save(_, _)));
    assert!(matches!(course.next(done()), Ask::Item(_)));
    assert!(matches!(
        course.next(item(file("f1", "a"))),
        Ask::Item(id) if id == "p"
    ));
    assert!(matches!(
        course.next(item(folder("p", "dir/"))),
        Ask::ParentOf(uri) if uri == "cloudreve://my/a"
    ));
    assert!(matches!(
        course.next(Answer::Text(Ok("cloudreve://my/".to_string()))),
        Ask::Move(_, to) if to == "cloudreve://my/dir/"
    ));
    assert!(matches!(course.next(done()), Ask::Item(id) if id == "f1"));
    assert!(matches!(
        course.next(item(file("f1", "dir/a"))),
        Ask::Save(_, journal) if journal.last.is_some()
    ));
    assert!(matches!(
        course.next(done()),
        Ask::Rename(uri, name) if uri == "cloudreve://my/dir/a" && name == "b"
    ));
    let mut renamed = file("f1", "b");
    renamed.path = "cloudreve://my/dir/b".to_string();
    assert!(matches!(course.next(Answer::File(Ok(renamed.clone()))), Ask::Save(_, _)));
    assert!(matches!(
        course.next(done()),
        Ask::Upload(uri, version) if uri == "cloudreve://my/dir/b" && version == "v1"
    ));
    assert!(matches!(course.next(done()), Ask::Item(id) if id == "f1"));
    renamed.primary_entity = Some("v2".to_string());
    assert!(matches!(course.next(item(renamed)), Ask::Digest));
    assert!(matches!(
        course.next(Answer::Text(Ok("h".to_string()))),
        Ask::Save(_, journal) if journal.done
    ));
    assert!(matches!(course.next(done()), Ask::Reply(Some(f)) if f.name == "b"));
}

#[test]
fn files_in_their_place_are_not_moved_and_changed_content_fails() {
    let mut asked = request(Change::Modify);
    asked.parent = "p".to_string();
    asked.local_path = "/staging/1".to_string();
    let (mut course, _) = ChangeCourse::begin(asked);
    course.next(done());
    course.next(Answer::Text(Ok("h".to_string())));
    course.next(Answer::Found(Ok(None)));
    course.next(done());
    course.next(item(file("f1", "a")));
    let mut parent = folder("p", "");
    parent.path = "cloudreve://my".to_string();
    course.next(item(parent));
    assert!(matches!(
        course.next(Answer::Text(Ok("cloudreve://my/".to_string()))),
        Ask::Upload(_, _)
    ));
    course.next(done());
    course.next(item(file("f1", "a")));
    assert!(matches!(
        course.next(Answer::Text(Ok("other".to_string()))),
        Ask::Fail(Fault::Other("local content changed during upload"))
    ));
    let mut asked = request(Change::Modify);
    asked.local_path = "/staging/1".to_string();
    let (mut course, _) = ChangeCourse::begin(asked);
    course.next(done());
    course.next(Answer::Text(Ok("h".to_string())));
    course.next(Answer::Found(Ok(None)));
    course.next(done());
    assert!(matches!(
        course.next(item(folder("f1", "a"))),
        Ask::Fail(Fault::Other("cannot write folder content"))
    ));
}
