use dir_lister::entry::{EOrderBy, EntryKind, RawEntry};
use dir_lister::listing::{list_files, sort_by_name};

fn raw(path: &str, filename: &str, is_dir: bool) -> RawEntry {
    RawEntry { path: path.to_string(), filename: filename.to_string(), is_dir }
}

fn names(entries: &[dir_lister::entry::FileInfoData]) -> Vec<String> {
    entries.iter().map(|e| e.name.clone()).collect()
}

#[test]
fn folders_before_files_each_sorted() {
    let read = Ok(vec![
        raw("/d/zeta", "zeta", false),
        raw("/d/src", "src", true),
        raw("/d/alpha.txt", "alpha.txt", false),
        raw("/d/bin", "bin", true),
    ]);
    let r = list_files(read, EOrderBy::Name).unwrap();
    assert_eq!(names(&r), vec!["bin", "src", "alpha.txt", "zeta"]);
    assert_eq!(r[0].kind, EntryKind::Directory);
    assert_eq!(r[1].kind, EntryKind::Directory);
    assert_eq!(r[2].kind, EntryKind::File);
    assert_eq!(r[3].kind, EntryKind::File);
}

#[test]
fn hidden_directory_excluded_hidden_file_kept() {
    let read = Ok(vec![
        raw("/d/.git", ".git", true),
        raw("/d/.env", ".env", false),
        raw("/d/readme.txt", "readme.txt", false),
        raw("/d/src", "src", true),
    ]);
    let r = list_files(read, EOrderBy::Name).unwrap();
    assert_eq!(names(&r), vec!["src", ".env", "readme.txt"]);
}

#[test]
fn read_error_is_passed_on() {
    let read = Err("No such file or directory (os error 2)".to_string());
    let r = list_files(read, EOrderBy::Name);
    assert_eq!(r.unwrap_err(), "No such file or directory (os error 2)");
}

#[test]
fn empty_directory_lists_nothing() {
    let r = list_files(Ok(Vec::new()), EOrderBy::Name).unwrap();
    assert!(r.is_empty());
}

#[test]
fn listing_fills_every_field() {
    let read = Ok(vec![raw("/tmp/notes.md", "notes.md", false)]);
    let r = list_files(read, EOrderBy::Name).unwrap();
    assert_eq!(r.len(), 1);
    assert_eq!(r[0].path, "/tmp/notes.md");
    assert_eq!(r[0].filename, "notes.md");
    assert_eq!(r[0].name, "notes.md");
    assert_eq!(r[0].ext, Some("md".to_string()));
    assert_eq!(r[0].icon, None);
    assert_eq!(r[0].kind, EntryKind::File);
}

#[test]
fn sorting_is_case_sensitive_byte_order() {
    let read = Ok(vec![
        raw("/d/b", "b", false),
        raw("/d/B", "B", false),
        raw("/d/a", "a", false),
    ]);
    let r = list_files(read, EOrderBy::Name).unwrap();
    assert_eq!(names(&r), vec!["B", "a", "b"]);
}

#[test]
fn sort_by_name_reorders_records() {
    let a = list_files(Ok(vec![raw("/d/c.txt", "c.txt", false)]), EOrderBy::Name).unwrap();
    let b = list_files(Ok(vec![raw("/d/a.txt", "a.txt", false)]), EOrderBy::Name).unwrap();
    let mut v = Vec::new();
    v.extend(a);
    v.extend(b);
    let sorted = sort_by_name(v);
    assert_eq!(names(&sorted), vec!["a.txt", "c.txt"]);
}

#[test]
fn kind_labels() {
    assert_eq!(EntryKind::Directory.label(), "directory");
    assert_eq!(EntryKind::File.label(), "file");
}
