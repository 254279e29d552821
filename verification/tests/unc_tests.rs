use logsleuth::unc::{connect_result, has_fixed_message, is_unc_path, unc_share_root, connect_unc, disconnect_unc, win32_error_message, UncAuthError};

#[test]
fn unc_share_root_extracts_server_and_share() {
    let path = r"\\sabpveeam-21\c$\ProgramData\Veeam";
    assert_eq!(unc_share_root(path), Some(r"\\sabpveeam-21\c$".to_string()));
}

#[test]
fn unc_share_root_bare_share() {
    let path = r"\\server\logs";
    assert_eq!(unc_share_root(path), Some(r"\\server\logs".to_string()));
}

#[test]
fn unc_share_root_forward_slashes() {
    let path = "//fileserver/share/dir";
    assert!(unc_share_root(path).is_some());
}

#[test]
fn unc_share_root_local_path_returns_none() {
    let path = r"C:\Windows\logs";
    assert_eq!(unc_share_root(path), None);
}

#[test]
fn unc_share_root_missing_share_returns_none() {
    let path = r"\\server_only";
    assert_eq!(unc_share_root(path), None);
}

#[test]
fn is_unc_path_detects_backslash_prefix() {
    assert!(is_unc_path(r"\\srv\share"));
}

#[test]
fn is_unc_path_detects_forward_slash_prefix() {
    assert!(is_unc_path("//srv/share"));
}

#[test]
fn is_unc_path_rejects_local() {
    assert!(!is_unc_path(r"C:\logs"));
}

#[test]
fn unc_share_root_forward_slashes_exact_value() {
    assert_eq!(unc_share_root("//fileserver/share/dir"), Some(r"\\fileserver\share".to_string()));
}

#[test]
fn unc_share_root_empty_share_after_separator_is_none() {
    assert_eq!(unc_share_root(r"\\server\"), None);
}

#[test]
fn unc_error_text_prefers_trimmed_message() {
    let e = UncAuthError::ApiError { code: 5, message: "  Access is denied.  ".to_string() };
    assert_eq!(e.to_text(), "Access is denied.");
}

#[test]
fn unc_error_text_falls_back_to_code() {
    let e = UncAuthError::ApiError { code: 1326, message: "   ".to_string() };
    assert_eq!(e.to_text(), "Network error (code 1326)");
}

#[test]
fn unc_connect_not_supported_here() {
    let r = connect_unc(r"\\srv\share", "user", "pw");
    assert!(matches!(r, Err(UncAuthError::NotSupported)));
    assert_eq!(
        UncAuthError::NotSupported.to_text(),
        "Network credential authentication is only supported on Windows"
    );
    disconnect_unc(r"\\srv\share");
}

#[test]
fn win32_codes_have_their_texts() {
    assert_eq!(win32_error_message(5, None), "Access denied. Check that the username and password are correct.");
    assert_eq!(win32_error_message(1326, Some("ignored")), "Logon failure: incorrect username or password.");
    assert_eq!(win32_error_message(1236, Some("  The network connection was aborted.\r\n")), "The network connection was aborted.");
    assert_eq!(win32_error_message(1236, None), "Error code 1236");
    assert!(has_fixed_message(53));
    assert!(!has_fixed_message(1236));
    assert!(connect_result(0, None).is_ok());
    match connect_result(86, None) {
        Err(UncAuthError::ApiError { code, message }) => {
            assert_eq!(code, 86);
            assert_eq!(message, "Invalid password.");
        }
        other => panic!("unexpected {other:?}"),
    }
}
