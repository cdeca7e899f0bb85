use colored::Color;
use ls_rs::color::colorize;
use ls_rs::entry::FileEntry;

fn entry(name: &str, kind: &str) -> FileEntry {
    FileEntry {
        name: name.into(),
        is_dir: kind == "dir",
        is_symlink: kind == "symlink",
        is_executable: kind == "exec",
        is_hidden: false,
        size: 0,
        mode: 0,
        nlink: 0,
        uid: 0,
        gid: 0,
        modified: 0,
        blocks: 0,
    }
}

#[test]
fn directories_are_blue() {
    let result = colorize(&entry("src", "dir"));
    assert_eq!(result.fgcolor, Some(Color::Blue));
}

#[test]
fn symlinks_are_cyan() {
    let result = colorize(&entry("link", "symlink"));
    assert_eq!(result.fgcolor, Some(Color::Cyan));
}

#[test]
fn executables_are_green() {
    let result = colorize(&entry("run.sh", "exec"));
    assert_eq!(result.fgcolor, Some(Color::Green));
}

#[test]
fn regular_files_have_no_color() {
    let result = colorize(&entry("README.md", "file"));
    assert_eq!(result.fgcolor, None)
}

#[test]
fn symlink_wins_over_directory_and_name_is_kept() {
    let mut e = entry("to-dir", "symlink");
    e.is_dir = true;
    let result = colorize(&e);
    assert_eq!(result.fgcolor, Some(Color::Cyan));
    assert_eq!(result.input, "to-dir");
}
