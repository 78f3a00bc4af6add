use dir_lister::entry::extension_of;

#[test]
fn last_dot_wins() {
    assert_eq!(extension_of("archive.tar.gz"), Some("gz".to_string()));
}

#[test]
fn no_dot_means_no_extension() {
    assert_eq!(extension_of("README"), None);
}

#[test]
fn leading_dot_alone_is_no_extension() {
    assert_eq!(extension_of(".env"), None);
}

#[test]
fn hidden_name_with_second_dot_has_extension() {
    assert_eq!(extension_of(".config.toml"), Some("toml".to_string()));
}

#[test]
fn trailing_dot_gives_empty_extension() {
    assert_eq!(extension_of("notes."), Some("".to_string()));
}

#[test]
fn empty_name_has_no_extension() {
    assert_eq!(extension_of(""), None);
}
