use cloudreve_sync_core::local_file::Fingerprint;
use cloudreve_sync_core::sync::{decide, safe_name, Action};

fn file(digest: &str) -> Fingerprint {
    Fingerprint {
        directory: false,
        size: 1,
        digest: digest.to_string(),
    }
}

#[test]
fn three_way_changes_and_deletions() {
    let old = file("old");
    let new = file("new");
    assert_eq!(decide(Some(&old), true, Some(&old), false), Action::Nothing);
    assert_eq!(decide(Some(&new), true, Some(&old), false), Action::Upload);
    assert_eq!(decide(Some(&old), true, Some(&old), true), Action::Download);
    assert_eq!(decide(Some(&new), true, Some(&old), true), Action::Conflict);
    assert_eq!(decide(None, true, Some(&old), false), Action::DeleteRemote);
    assert_eq!(decide(None, true, Some(&old), true), Action::Conflict);
    assert_eq!(
        decide(Some(&old), false, Some(&old), false),
        Action::DeleteLocal
    );
    assert_eq!(
        decide(Some(&new), false, Some(&old), false),
        Action::Conflict
    );
    assert_eq!(decide(Some(&old), true, None, false), Action::Conflict);
    assert_eq!(decide(None, true, None, false), Action::Download);
    assert_eq!(decide(Some(&old), false, None, false), Action::Upload);
    assert_eq!(decide(None, false, Some(&old), false), Action::Forget);
}

#[test]
fn rejects_remote_traversal() {
    for name in ["", ".", "..", "../outside", "a/b", "a\0b"] {
        assert!(safe_name(name).is_err());
    }
    assert!(safe_name("a\\b").is_ok());
}
