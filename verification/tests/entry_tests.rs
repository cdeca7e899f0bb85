use ls_rs::entry::{FileEntry, FileStat};
use std::io::{Error, ErrorKind};

fn directory_stat() -> FileStat {
    FileStat {
        is_dir: true,
        is_symlink: false,
        size: 4096,
        mode: 0o040755,
        nlink: 2,
        uid: 0,
        gid: 0,
        blocks: 8,
        modified: Some(0),
    }
}

fn regular_file_stat() -> FileStat {
    FileStat {
        is_dir: false,
        is_symlink: false,
        size: 8,
        mode: 0o100644,
        nlink: 1,
        uid: 0,
        gid: 0,
        blocks: 8,
        modified: Some(0),
    }
}

#[test]
fn reaads_cargo_toml() {
    let entry = FileEntry::from_path("Cargo.toml", Ok(regular_file_stat())).unwrap();

    assert_eq!(entry.name, "Cargo.toml");
    assert!(!entry.is_dir);
    assert!(!entry.is_symlink);
    assert!(!entry.is_hidden);
    assert!(entry.size > 0);
}

#[test]
fn reads_src_directory() {
    let entry = FileEntry::from_path("src", Ok(directory_stat())).unwrap();

    assert_eq!(entry.name, "src");
    assert!(entry.is_dir);
    assert!(!entry.is_symlink);
}

#[test]
fn detects_hidden_file() {
    let entry = FileEntry::from_path(".gitignore", Ok(regular_file_stat())).unwrap();

    assert!(entry.is_hidden);
    assert!(!entry.is_dir);
}

#[test]
fn return_error_for_missing_file() {
    let entry = FileEntry::from_path("dummy.txt", Err(Error::from(ErrorKind::NotFound)));
    assert!(entry.is_err())
}

#[test]
fn name_is_the_last_path_component() {
    let entry = FileEntry::from_path("some/dir/file.txt", Ok(regular_file_stat())).unwrap();
    assert_eq!(entry.name, "file.txt");
    assert!(!entry.is_hidden);
}

#[test]
fn root_path_keeps_the_whole_path_as_name() {
    let entry = FileEntry::from_path("/", Ok(regular_file_stat())).unwrap();
    assert_eq!(entry.name, "/");
    let entry = FileEntry::from_path("a/..", Ok(regular_file_stat())).unwrap();
    assert_eq!(entry.name, "a/..");
    assert!(!entry.is_hidden);
}

#[test]
fn executable_needs_an_execute_bit_and_no_directory() {
    let mut st = regular_file_stat();
    st.mode = 0o100754;
    let entry = FileEntry::from_path("run.sh", Ok(st)).unwrap();
    assert!(entry.is_executable);

    let mut st = regular_file_stat();
    st.mode = 0o100001;
    assert!(FileEntry::from_path("x", Ok(st)).unwrap().is_executable);

    let mut st = regular_file_stat();
    st.mode = 0o040755;
    st.is_dir = true;
    let entry = FileEntry::from_path("bin", Ok(st)).unwrap();
    assert!(!entry.is_executable);
    assert!(entry.is_dir);

    assert!(!FileEntry::from_path("a.txt", Ok(regular_file_stat())).unwrap().is_executable);
}

#[test]
fn metadata_is_copied_and_missing_time_is_the_epoch() {
    let st = FileStat {
        is_dir: false,
        is_symlink: true,
        size: 12,
        mode: 0o120777,
        nlink: 3,
        uid: 1000,
        gid: 100,
        blocks: 16,
        modified: None,
    };
    let e = FileEntry::from_path("link", Ok(st)).unwrap();
    assert!(e.is_symlink);
    assert_eq!(e.size, 12);
    assert_eq!(e.mode, 0o120777);
    assert_eq!(e.nlink, 3);
    assert_eq!(e.uid, 1000);
    assert_eq!(e.gid, 100);
    assert_eq!(e.blocks, 16);
    assert_eq!(e.modified, 0);
}

#[test]
fn file_names_follow_path_components() {
    let name = |p: &str| FileEntry::from_path(p, Ok(regular_file_stat())).unwrap().name;
    assert_eq!(name("a/b/"), "b");
    assert_eq!(name("a/."), "a");
    assert_eq!(name("./a"), "a");
    assert_eq!(name("a//b"), "b");
    assert_eq!(name("a/../."), "a/../.");
    assert_eq!(name("."), ".");
    assert_eq!(name("//"), "//");
    assert_eq!(name(""), "");
}
