use dir_lister::commands::{folder_flag, home_string, preflight_dir_check};

#[test]
fn folder_flag_true_only_for_confirmed_directory() {
    assert!(folder_flag(Some(true)));
    assert!(!folder_flag(Some(false)));
    assert!(!folder_flag(None));
}

#[test]
fn home_string_keeps_resolved_path() {
    assert_eq!(home_string(Some("/home/someone".to_string())), "/home/someone");
}

#[test]
fn home_string_defaults_to_empty() {
    assert_eq!(home_string(None), "");
}

#[test]
fn preflight_passes_without_argument() {
    assert!(preflight_dir_check(None, false).is_ok());
}

#[test]
fn preflight_passes_for_directory() {
    assert!(preflight_dir_check(Some("/tmp".to_string()), true).is_ok());
}

#[test]
fn preflight_rejects_non_directory_with_message() {
    let r = preflight_dir_check(Some("/definitely/missing/path".to_string()), false);
    assert_eq!(
        r.unwrap_err(),
        "Invalid directory passed as argument: /definitely/missing/path"
    );
}
