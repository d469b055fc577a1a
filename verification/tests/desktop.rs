use cloudreve_sync_core::commands::{
    resolve_conflict, thumbnail_answer, thumbnail_request, ConflictAction, ThumbnailError,
};
use cloudreve_sync_core::local_file::metadata;
use cloudreve_sync_core::path::LocalPath;
use cloudreve_sync_core::records::FileResponse;
use cloudreve_sync_core::text::{decimal_text, same_text, trim_slashes};
use cloudreve_sync_core::toast::{
    send_conflict_toast, send_general_text_toast, send_token_expiry_toast, set_notification_handler,
    Delivery,
};

fn path() -> LocalPath {
    LocalPath {
        components: vec!["/".to_string(), "r".to_string(), "a".to_string()],
    }
}

fn file(entries: Option<Vec<(String, String)>>, is_folder: bool) -> FileResponse {
    FileResponse {
        id: "x".to_string(),
        name: "a".to_string(),
        path: "cloudreve://my/a".to_string(),
        is_folder,
        size: 0,
        primary_entity: None,
        created_at: String::new(),
        updated_at: String::new(),
        metadata: entries,
        permission: None,
        shared: None,
    }
}

#[test]
fn conflict_actions_are_known_by_name() {
    assert_eq!(
        ConflictAction::from_str("keep_remote"),
        Some(ConflictAction::KeepRemote)
    );
    assert_eq!(
        ConflictAction::from_str("overwrite_remote"),
        Some(ConflictAction::OverwriteRemote)
    );
    assert_eq!(
        ConflictAction::from_str("save_as_new"),
        Some(ConflictAction::SaveAsNew)
    );
    assert_eq!(ConflictAction::from_str("Keep_remote"), None);
    assert_eq!(
        resolve_conflict(ConflictAction::KeepRemote, 1, "/r/a").unwrap_err(),
        "macOS keeps conflicting file content in a separate conflict copy. Resolve it in Finder, then sync again."
    );
}

#[test]
fn thumbnails_are_asked_for_files_that_have_them() {
    let key = "thumb:disabled";
    assert_eq!(thumbnail_request(None, key), Err(ThumbnailError::Unknown));
    let plain = metadata(&file(None, false), &path(), 1, None);
    assert_eq!(thumbnail_request(Some(&plain), key), Ok(()));
    let folder = metadata(&file(None, true), &path(), 1, None);
    assert_eq!(
        thumbnail_request(Some(&folder), key),
        Err(ThumbnailError::Disabled)
    );
    let off = Some(vec![(key.to_string(), String::new())]);
    let off = metadata(&file(off, false), &path(), 1, None);
    assert_eq!(
        thumbnail_request(Some(&off), key),
        Err(ThumbnailError::Disabled)
    );
    assert_eq!(thumbnail_answer(204), Ok(()));
    assert_eq!(thumbnail_answer(302), Err(ThumbnailError::Failed(302)));
    assert_eq!(thumbnail_answer(199), Err(ThumbnailError::Failed(199)));
}

#[test]
fn the_first_handler_stays() {
    let mut slot: Option<u8> = None;
    assert!(matches!(
        send_general_text_toast(&slot, "t", "m"),
        Delivery::Log(t, m) if t == "t" && m == "m"
    ));
    set_notification_handler(&mut slot, 1);
    set_notification_handler(&mut slot, 2);
    assert!(matches!(
        send_general_text_toast(&slot, "t", "m"),
        Delivery::Handler(1, t, m) if t == "t" && m == "m"
    ));
    assert!(send_token_expiry_toast(&slot, Some(false), "t", "m").is_none());
    assert!(send_token_expiry_toast(&slot, None, "t", "m").is_some());
    assert!(send_conflict_toast(&slot, Some(false), &path()).is_none());
    match send_conflict_toast(&slot, Some(true), &path()) {
        Some(Delivery::Handler(_, title, message)) => {
            assert_eq!(title, "Sync conflict");
            assert_eq!(
                message,
                "/r/a could not be uploaded. Both versions have been preserved; sync again to reconcile."
            );
        }
        _ => panic!("a handler is installed"),
    }
}

#[test]
fn texts_are_written_and_compared() {
    assert_eq!(decimal_text(0), "0");
    assert_eq!(decimal_text(-120), "-120");
    assert_eq!(decimal_text(i64::MIN), "-9223372036854775808");
    assert!(same_text("a", "a") && !same_text("a", "ab"));
    assert_eq!(trim_slashes("a//"), vec!['a']);
    assert_eq!(path().text(), "/r/a");
    let root = LocalPath {
        components: vec!["/".to_string()],
    };
    assert_eq!(root.text(), "/");
}
