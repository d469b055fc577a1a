use cloudreve_sync_core::finder::{
    call_outcome, check_domain, configure_finder_drive, file_provider_status, helper_call,
    helper_error, probe_allowed, read_probe, CallFault, DriveError, ProbeRequest, Unavailable,
};
use cloudreve_sync_core::scope::CrUri;

const ID: &str = "0f8fad5b-d9cb-469f-a165-70867728950e";

#[test]
fn helper_errors_keep_codes_but_never_arbitrary_output() {
    assert!(
        helper_error(br#"{"error_domain":"NSOSStatusErrorDomain","error_code":-25308}"#)
            .contains("Keychain")
    );
    assert!(
        helper_error(br#"{"error_domain":"NSCocoaErrorDomain","error_code":4099}"#)
            .contains("4099")
    );
    assert!(!helper_error(b"secret server response").contains("secret"));
    assert!(!helper_error(br#"{"error_domain":"secret","error_code":1}"#).contains("secret"));
}

#[test]
fn helper_errors_are_fixed_texts_with_a_code() {
    assert_eq!(
        helper_error(br#"{"error_domain":"NSOSStatusErrorDomain","error_code":-25308}"#),
        "File Provider: NSOSStatusErrorDomain (-25308). Unlock the macOS login Keychain and allow Cloudreve to access its account record, then retry."
    );
    assert_eq!(
        helper_error(br#"{"error_domain":"secret","error_code":"x"}"#),
        "File Provider: unknown (0). Refresh the Finder drive status and retry."
    );
    assert!(
        helper_error(br#"{"error_domain":"CloudreveAccountScopeMismatch"}"#)
            .starts_with("File Provider: CloudreveAccountScopeMismatch (0). Use the same account")
    );
    assert!(
        helper_error(br#"{"error_domain":"NSFileProviderErrorDomain","error_code":9223372036854775807}"#)
            .contains("(9223372036854775807). Check the Finder drive")
    );
    assert_eq!(call_outcome(true, br#"{"available":true}"#), Ok(()));
    assert_eq!(call_outcome(true, b"7"), Ok(()));
    for output in [&b"anything"[..], b"", b"{"] {
        assert_eq!(
            call_outcome(true, output),
            Err("Invalid File Provider response".to_string())
        );
    }
    assert_eq!(
        call_outcome(false, b""),
        Err("File Provider: unknown (0). Refresh the Finder drive status and retry.".to_string())
    );
}

fn status(available: bool) -> Result<Vec<u8>, Unavailable> {
    Ok(format!(r#"{{"available":{available}}}"#).into_bytes())
}

#[test]
fn drives_are_configured_with_dates() {
    let made = configure_finder_drive(&status(true), ID, 1_700_000_000, 5, 3600, 86400).unwrap();
    assert_eq!(made.access, "2023-11-14T23:13:20.000000005+00:00");
    assert_eq!(made.refresh, "2023-11-15T22:13:20.000000005+00:00");
    assert_eq!(
        configure_finder_drive(&status(false), "x", 0, 0, 0, 0),
        Err(DriveError::Unavailable)
    );
    for output in ["{}", "[]", "no json", r#"{"available":"true"}"#, r#"{"available":1}"#] {
        let told = Ok(output.as_bytes().to_vec());
        assert_eq!(
            configure_finder_drive(&told, ID, 0, 0, 0, 0),
            Err(DriveError::Unavailable)
        );
    }
    assert_eq!(
        configure_finder_drive(&Err(Unavailable::Unsupported), ID, 0, 0, 0, 0),
        Err(DriveError::Unavailable)
    );
    assert_eq!(
        configure_finder_drive(&status(true), "x", 0, 0, 0, 0),
        Err(DriveError::InvalidDomain)
    );
    for (access, refresh) in [
        (u64::MAX, 1),
        (1, u64::MAX),
        (9_223_372_036_854_776, 1),
        (9_223_372_036_854_775, 1),
    ] {
        assert_eq!(
            configure_finder_drive(&status(true), ID, 0, 0, access, refresh),
            Err(DriveError::InvalidExpiry)
        );
    }
    assert_eq!(DriveError::InvalidDomain.message(), "Invalid domain ID");
    assert_eq!(DriveError::InvalidExpiry.message(), "Invalid expiry");
    assert_eq!(
        DriveError::Unavailable.message(),
        "Finder sync is unavailable in this build"
    );
    assert_eq!(check_domain(ID), Ok(()));
    assert_eq!(check_domain(""), Err(DriveError::InvalidDomain));
}

#[test]
fn dates_end_with_the_last_year_and_leave_leap_seconds() {
    let last = 8_210_266_876_799;
    let made = configure_finder_drive(&status(true), ID, last - 1, 0, 1, 0).unwrap();
    assert_eq!(made.access, "+262142-12-31T23:59:59+00:00");
    assert_eq!(made.refresh, "+262142-12-31T23:59:58+00:00");
    for (seconds, nanos, delay) in [
        (last, 0, 1),
        (last + 1, 0, 0),
        (-8_334_601_228_801, 0, 0),
        (0, 1_000_000_000, 0),
        (59, 2_000_000_000, 0),
    ] {
        assert_eq!(
            configure_finder_drive(&status(true), ID, seconds, nanos, delay, delay),
            Err(DriveError::InvalidExpiry)
        );
    }
    let leap = 1_483_228_799;
    let made = configure_finder_drive(&status(true), ID, leap, 1_000_000_000, 1, 0).unwrap();
    assert_eq!(made.access, "2017-01-01T00:00:00+00:00");
    assert_eq!(made.refresh, "2016-12-31T23:59:60+00:00");
    let first = -8_334_601_228_800;
    let made = configure_finder_drive(&status(true), ID, first, 0, 0, 1).unwrap();
    assert_eq!(made.access, "-262143-01-01T00:00:00+00:00");
    assert_eq!(made.refresh, "-262143-01-01T00:00:01+00:00");
}

#[test]
fn input_never_enters_the_arguments() {
    let secret = br#"{"access_token":"t"}"#.to_vec();
    let call = helper_call("configure", None, Some(secret.clone()));
    assert_eq!(call.arguments, vec!["configure"]);
    assert_eq!(call.stdin, secret);
    let call = helper_call("remove", Some(ID), None);
    assert_eq!(call.arguments, vec!["remove", ID]);
    assert!(call.stdin.is_empty());
    let call = helper_call("a", Some("b"), Some(vec![1]));
    assert_eq!(call.arguments, vec!["a", "b"]);
    assert_eq!(call.stdin, vec![1]);
}

#[test]
fn the_status_says_why_there_is_no_finder() {
    let called: Result<u8, String> = Ok(1);
    assert_eq!(
        file_provider_status(false, called.clone()),
        Err(Unavailable::Unsupported)
    );
    assert_eq!(file_provider_status(true, called), Ok(1));
    let failed: Result<u8, String> = Err(CallFault::TimedOut.message().to_string());
    assert_eq!(
        file_provider_status(true, failed),
        Err(Unavailable::HostError(
            "File Provider timed out; check registered drives before retrying".to_string()
        ))
    );
    assert_eq!(
        CallFault::NotMacos.message(),
        "File Provider requires macOS"
    );
}

#[test]
fn probes_write_only_to_folders_made_for_them() {
    let root = |last: &str| CrUri {
        base: "cloudreve://my".to_string(),
        elements: vec!["x".to_string(), last.to_string()],
    };
    let made = root(&format!("macos-fp-smoke-{ID}"));
    let asked = |operation: &str| {
        read_probe(format!(r#"{{"operation":"{operation}","root":"r"}}"#).as_bytes()).unwrap()
    };
    assert_eq!(
        asked("item"),
        ProbeRequest { operation: Some("item".to_string()), root: Some("r".to_string()) }
    );
    assert_eq!(read_probe(b"no json"), None);
    let empty = read_probe(br#"{"operation":7}"#).unwrap();
    assert_eq!(empty, ProbeRequest { operation: None, root: None });
    assert!(probe_allowed(&asked("item"), false, None));
    assert!(probe_allowed(&asked("delete"), true, Some(&made)));
    assert!(probe_allowed(&empty, true, Some(&made)));
    assert!(!probe_allowed(&empty, true, None));
    assert!(!probe_allowed(&asked("delete"), false, Some(&made)));
    assert!(!probe_allowed(&asked("delete"), true, Some(&root(ID))));
    assert!(!probe_allowed(&asked("delete"), true, Some(&root("macos-fp-smoke-x"))));
}
