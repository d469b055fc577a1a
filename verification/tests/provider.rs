use cloudreve_sync_core::faults::{ApiFault, Fault};
use cloudreve_sync_core::provider::{
    answer, first_url, refusal, reply, scope_error, task_of, version_available, Fetching, FolderListing,
    Reply, Task,
};
use cloudreve_sync_core::reading::{ReadAnswer, ReadAsk, ReadCourse, Reading};
use cloudreve_sync_core::records::FileResponse;
use cloudreve_sync_core::scope::{in_scope, item_query, CrUri, ScopeError};

fn uri(base: &str, elements: &[&str]) -> CrUri {
    CrUri {
        base: base.to_string(),
        elements: elements.iter().map(|e| e.to_string()).collect(),
    }
}

fn file(id: &str, is_folder: bool) -> FileResponse {
    FileResponse {
        id: id.to_string(),
        name: id.to_string(),
        path: format!("cloudreve://my/a/{id}"),
        is_folder,
        size: 3,
        primary_entity: Some("v1".to_string()),
        created_at: String::new(),
        updated_at: String::new(),
        metadata: None,
        permission: None,
        shared: None,
    }
}

#[test]
fn scope_checks_components_and_account() {
    let root = uri("cloudreve://my", &["a"]);
    assert!(in_scope(&root, &uri("cloudreve://my", &["a", "b"])).is_ok());
    for p in [
        uri("cloudreve://my", &["ab"]),
        uri("cloudreve://my", &["a", "..", "b"]),
        uri("cloudreve://my", &["b"]),
        uri("cloudreve://trash", &["a"]),
        uri("cloudreve://other@my", &["a"]),
        uri("cloudreve://my", &["a", "x/y"]),
    ] {
        assert!(in_scope(&root, &p).is_err(), "{p:?}");
    }
}

#[test]
fn refusals_of_addresses_say_why() {
    let root = uri("cloudreve://my", &["a"]);
    assert_eq!(in_scope(&root, &root), Ok(()));
    assert_eq!(
        in_scope(&root, &uri("cloudreve://my", &[])),
        Err(ScopeError::OutOfScope)
    );
    for element in ["", ".", "..", "x/y", "x\0y"] {
        assert_eq!(
            in_scope(&root, &uri("cloudreve://my", &["a", element])),
            Err(ScopeError::InvalidPath)
        );
    }
    let empty = uri("cloudreve://my", &[""]);
    assert_eq!(in_scope(&empty, &empty), Err(ScopeError::InvalidPath));
    assert!(matches!(
        scope_error(ScopeError::OutOfScope),
        Fault::Other("out of scope")
    ));
    assert!(matches!(
        scope_error(ScopeError::InvalidPath),
        Fault::Other("invalid path")
    ));
}

#[test]
fn the_root_is_asked_for_by_address() {
    let root = item_query("cloudreve://my/a", "root");
    assert_eq!(root.uri.as_deref(), Some("cloudreve://my/a"));
    assert_eq!(root.id, None);
    let other = item_query("cloudreve://my/a", "x");
    assert_eq!(other.uri, None);
    assert_eq!(other.id.as_deref(), Some("x"));
}

#[test]
fn tasks_are_known_by_name() {
    for (name, task) in [
        ("item", Task::Item),
        ("list", Task::List),
        ("fetch", Task::Fetch),
        ("create", Task::Create),
        ("modify", Task::Modify),
        ("delete", Task::Delete),
    ] {
        assert_eq!(task_of(name).unwrap(), task);
    }
    assert!(matches!(
        task_of("Item"),
        Err(Fault::Other("unsupported operation"))
    ));
}

#[test]
fn listings_gather_pages_in_scope() {
    let root = uri("cloudreve://my", &["a"]);
    assert!(matches!(
        FolderListing::begin(&file("x", false)),
        Err(Fault::Other("not folder"))
    ));
    let mut listing = FolderListing::begin(&file("x", true)).ok().unwrap();
    let inside = uri("cloudreve://my", &["a", "y"]);
    let outside = uri("cloudreve://my", &["b"]);
    listing
        .page(&root, vec![(file("y", false), inside.clone())])
        .unwrap();
    assert!(matches!(
        listing.page(
            &root,
            vec![(file("z", false), inside.clone()), (file("q", false), outside)]
        ),
        Err(Fault::Other("out of scope"))
    ));
    listing
        .page(&root, vec![(file("z", false), inside)])
        .unwrap();
    let ids: Vec<String> = listing.finish().into_iter().map(|f| f.id).collect();
    assert_eq!(ids, vec!["y", "z"]);
}

#[test]
fn versions_are_had_by_name() {
    let mut known = file("x", false);
    assert!(version_available(&known, ""));
    assert!(version_available(&known, "v1"));
    assert!(!version_available(&known, "v2"));
    known.primary_entity = None;
    assert!(!version_available(&known, "v1"));
    let urls = vec!["one".to_string(), "two".to_string()];
    assert_eq!(first_url(&urls).unwrap(), "one");
    assert!(matches!(
        first_url(&vec![]),
        Err(Fault::Other("missing URL"))
    ));
}

#[test]
fn fetches_are_held_to_their_size() {
    let mut fetching = Fetching::begin(3);
    assert_eq!(fetching.block(1).unwrap(), 333);
    assert!(matches!(
        fetching.finish(),
        Err(Fault::Other("size mismatch"))
    ));
    assert!(matches!(
        fetching.block(3),
        Err(Fault::Other("oversized response"))
    ));
    assert_eq!(fetching.block(2).unwrap(), 1000);
    assert!(fetching.finish().is_ok());
    let mut empty = Fetching::begin(0);
    assert!(empty.finish().is_ok());
    assert_eq!(empty.block(0).unwrap(), 0);
    assert!(empty.block(1).is_err());
    let mut negative = Fetching::begin(-1);
    assert!(matches!(
        negative.block(0),
        Err(Fault::Other("negative size"))
    ));
    assert!(negative.finish().is_err());
    let mut huge = Fetching::begin(i64::MAX);
    assert_eq!(huge.block(i64::MAX as usize).unwrap(), 2);
    assert!(huge.finish().is_ok());
}

#[test]
fn replies_tell_data_or_the_name_of_an_error() {
    assert_eq!(refusal(false, false), Some("invalid_request"));
    assert_eq!(refusal(true, false), Some("not_authenticated"));
    assert_eq!(refusal(true, true), None);
    let cancelled: Option<Result<u8, Fault>> = None;
    assert!(matches!(reply(cancelled), Reply::Cancelled));
    assert!(matches!(reply(Some(Ok(7u8))), Reply::Data(7)));
    let failed: Result<u8, Fault> = Err(Fault::Api(ApiFault::Code(403)));
    assert!(matches!(
        reply(Some(failed)),
        Reply::Error("permission", Some(403))
    ));
    let cancelled: Option<Result<u8, Fault>> = None;
    assert_eq!(reply(cancelled).error(), Some("cancelled"));
    assert_eq!(reply(Some(Ok(7u8))).error(), None);
    let failed: Result<u8, Fault> = Err(Fault::Api(ApiFault::Code(403)));
    assert_eq!(reply(Some(failed)).error(), Some("permission"));
}

#[test]
fn every_outcome_is_told_with_the_tokens() {
    let outcomes: [Option<Result<u8, Fault>>; 3] = [
        None,
        Some(Ok(7)),
        Some(Err(Fault::Api(ApiFault::Code(403)))),
    ];
    for (outcome, error) in outcomes.into_iter().zip([Some("cancelled"), None, Some("permission")]) {
        let answered = answer(outcome, "tokens");
        assert_eq!(answered.reply.error(), error);
        assert_eq!(answered.tokens, "tokens");
    }
}

#[test]
fn properties_are_read_in_scope() {
    let root = uri("cloudreve://my", &["a"]);
    let (course, ask) = ReadCourse::begin(root.clone(), Reading::Item, "x", String::new());
    assert!(matches!(ask, ReadAsk::Item(id) if id == "x"));
    let found = ReadAnswer::File(Ok((file("x", false), uri("cloudreve://my", &["a", "x"]))));
    let (course, ask) = course.next(found);
    assert!(matches!(ask, ReadAsk::File(f) if f.id == "x"));
    let (_, ask) = course.next(ReadAnswer::End);
    assert!(matches!(ask, ReadAsk::Fail(Fault::Other("misplaced answer"))));
    let (course, _) = ReadCourse::begin(root, Reading::Item, "x", String::new());
    let found = ReadAnswer::File(Ok((file("x", false), uri("cloudreve://my", &["b"]))));
    let (_, ask) = course.next(found);
    assert!(matches!(ask, ReadAsk::Fail(Fault::Other("out of scope"))));
    let root = uri("cloudreve://my", &[".."]);
    let (_, ask) = ReadCourse::begin(root, Reading::Item, "x", String::new());
    assert!(matches!(ask, ReadAsk::Fail(Fault::Other("invalid path"))));
}

#[test]
fn folders_are_read_page_by_page() {
    let root = uri("cloudreve://my", &["a"]);
    let inside = uri("cloudreve://my", &["a", "d"]);
    let (course, _) = ReadCourse::begin(root.clone(), Reading::List, "d", String::new());
    let (course, ask) = course.next(ReadAnswer::File(Ok((file("d", true), inside.clone()))));
    assert!(matches!(ask, ReadAsk::Page(at) if at == "cloudreve://my/a/d"));
    let page = |name: &str, more| {
        ReadAnswer::Page(Ok((vec![(file(name, false), inside.clone())], more)))
    };
    let (course, ask) = course.next(page("y", true));
    assert!(matches!(ask, ReadAsk::Page(_)));
    let (_, ask) = course.next(page("z", false));
    assert!(matches!(ask, ReadAsk::Files(files) if files.len() == 2 && files[1].id == "z"));
    let (course, _) = ReadCourse::begin(root.clone(), Reading::List, "d", String::new());
    let (course, _) = course.next(ReadAnswer::File(Ok((file("d", true), inside.clone()))));
    let outside = uri("cloudreve://my", &["b"]);
    let strays = vec![(file("y", false), inside.clone()), (file("z", false), outside)];
    let (_, ask) = course.next(ReadAnswer::Page(Ok((strays, false))));
    assert!(matches!(ask, ReadAsk::Fail(Fault::Other("out of scope"))));
    let (course, _) = ReadCourse::begin(root, Reading::List, "d", String::new());
    let (_, ask) = course.next(ReadAnswer::File(Ok((file("d", false), inside))));
    assert!(matches!(ask, ReadAsk::Fail(Fault::Other("not folder"))));
}

#[test]
fn content_is_fetched_block_by_block() {
    let root = uri("cloudreve://my", &["a"]);
    let inside = uri("cloudreve://my", &["a", "x"]);
    let found = || ReadAnswer::File(Ok((file("x", false), inside.clone())));
    let (course, _) = ReadCourse::begin(root.clone(), Reading::Fetch, "x", "v2".to_string());
    assert!(matches!(course.next(found()).1, ReadAsk::VersionUnavailable));
    let (course, _) = ReadCourse::begin(root.clone(), Reading::Fetch, "x", "v1".to_string());
    let (course, ask) = course.next(found());
    assert!(matches!(ask, ReadAsk::Urls(_, Some(v)) if v == "v1"));
    let (course, ask) = course.next(ReadAnswer::Urls(Ok(vec!["http://h".to_string()])));
    assert!(matches!(ask, ReadAsk::Download(url) if url == "http://h"));
    let (course, ask) = course.next(ReadAnswer::Block(Ok(1)));
    assert!(matches!(ask, ReadAsk::Write(333)));
    let (course, ask) = course.next(ReadAnswer::Done(Ok(())));
    assert!(matches!(ask, ReadAsk::Receive));
    let (course, ask) = course.next(ReadAnswer::Block(Ok(2)));
    assert!(matches!(ask, ReadAsk::Write(1000)));
    let (course, _) = course.next(ReadAnswer::Done(Ok(())));
    let (course, ask) = course.next(ReadAnswer::End);
    assert!(matches!(ask, ReadAsk::Flush));
    let (_, ask) = course.next(ReadAnswer::Done(Ok(())));
    assert!(matches!(ask, ReadAsk::File(f) if f.id == "x"));
    let (course, _) = ReadCourse::begin(root, Reading::Fetch, "x", String::new());
    let (course, _) = course.next(found());
    let (_, ask) = course.next(ReadAnswer::Urls(Ok(vec![])));
    assert!(matches!(ask, ReadAsk::Fail(Fault::Other("missing URL"))));
}
