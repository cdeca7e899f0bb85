use ls_rs::args::Args;
use ls_rs::entry::FileEntry;
use ls_rs::format::OwnerNames;
use ls_rs::listing::{listing_text, select_entries};
use ls_rs::text::decimal_string;
use std::io::{Error, ErrorKind};

fn named(name: &str, size: u64) -> FileEntry {
    FileEntry {
        name: name.into(),
        is_dir: false,
        is_symlink: false,
        is_executable: false,
        is_hidden: name.starts_with('.'),
        size,
        mode: 0o100644,
        nlink: 1,
        uid: 0,
        gid: 0,
        modified: 0,
        blocks: 0,
    }
}

fn names(entries: &[FileEntry]) -> Vec<String> {
    entries.iter().map(|e| e.name.clone()).collect()
}

#[test]
fn entries_are_sorted_ignoring_case() {
    let items = vec![Ok(named("b", 0)), Ok(named("C", 0)), Ok(named("a", 0)), Ok(named("B2", 0))];
    let r = select_entries(items, false);
    assert_eq!(names(&r), vec!["a", "b", "B2", "C"]);
}

#[test]
fn equal_keys_keep_reading_order() {
    let items = vec![Ok(named("Readme", 1)), Ok(named("a", 0)), Ok(named("README", 2)), Ok(named("readme", 3))];
    let r = select_entries(items, false);
    assert_eq!(names(&r), vec!["a", "Readme", "README", "readme"]);
    assert_eq!(r[1].size, 1);
    assert_eq!(r[2].size, 2);
    assert_eq!(r[3].size, 3);
}

#[test]
fn hidden_entries_only_with_all() {
    let items = || vec![Ok(named(".git", 0)), Ok(named("src", 0)), Ok(named(".env", 0))];
    assert_eq!(names(&select_entries(items(), false)), vec!["src"]);
    assert_eq!(names(&select_entries(items(), true)), vec![".env", ".git", "src"]);
}

#[test]
fn unreadable_entries_are_skipped() {
    let items = vec![
        Err(Error::from(ErrorKind::PermissionDenied)),
        Ok(named("z", 0)),
        Err(Error::from(ErrorKind::NotFound)),
        Ok(named("y", 0)),
    ];
    assert_eq!(names(&select_entries(items, true)), vec!["y", "z"]);
    assert!(select_entries(Vec::new(), true).is_empty());
}

#[test]
fn listing_picks_the_format() {
    let short = Args { path: ".".into(), all: false, long: false };
    let long = Args { path: ".".into(), all: false, long: true };
    let owners = OwnerNames { users: Vec::new(), groups: Vec::new() };
    assert_eq!(listing_text(&short, &[], &owners), "\n");
    assert_eq!(listing_text(&long, &[], &owners), "total 0\n");
    assert_eq!(listing_text(&short, &[named("one", 0)], &owners), "one\n");
}

#[test]
fn decimal_strings() {
    assert_eq!(decimal_string(0), "0");
    assert_eq!(decimal_string(7), "7");
    assert_eq!(decimal_string(10), "10");
    assert_eq!(decimal_string(12345), "12345");
    assert_eq!(decimal_string(u64::MAX), u64::MAX.to_string());
}

#[test]
fn a_file_is_listed_alone_even_when_hidden() {
    let target = named(".profile", 3);
    let r = ls_rs::listing::collect_entries(target, vec![Ok(named("ignored", 0))], false);
    assert_eq!(names(&r), vec![".profile"]);
}

#[test]
fn a_directory_lists_its_entries() {
    let mut target = named("dir", 0);
    target.is_dir = true;
    let children = vec![Ok(named("b", 0)), Ok(named(".h", 0)), Ok(named("A", 0))];
    let r = ls_rs::listing::collect_entries(target, children, false);
    assert_eq!(names(&r), vec!["A", "b"]);
}
