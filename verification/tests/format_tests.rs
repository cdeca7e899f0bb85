use chrono::{DateTime, Local, TimeZone};
use ls_rs::clock::{format_local, format_time, LocalTime};
use ls_rs::entry::FileEntry;
use ls_rs::format::{
    column_widths, group_name, long_format, long_format_at, long_grid, name_or_number,
    permissions_string, short_format, short_grid, user_name, OwnerNames,
};
use ls_rs::layout::compute_layout;

fn entry(name: &str, kind: &str) -> FileEntry {
    FileEntry {
        name: name.into(),
        is_dir: kind == "dir",
        is_symlink: kind == "symlink",
        is_executable: kind == "exec",
        is_hidden: false,
        size: 0,
        mode: 0,
        nlink: 0,
        uid: 0,
        gid: 0,
        modified: 0,
        blocks: 0,
    }
}

#[test]
fn empty_list_returns_just_newline() {
    let result = short_format(&[]);
    assert_eq!(result, "\n");
}

#[test]
fn single_regular_file_has_name_and_newline() {
    let result = short_format(&[entry("README.md", "file")]);
    assert_eq!(result, "README.md\n");
}

#[test]
fn multiple_files_are_separated_by_two_spaces() {
    let entries = [
        entry("a.txt", "file"),
        entry("b.txt", "file"),
        entry("c.txt", "file"),
    ];
    let result = short_format(&entries);
    assert_eq!(result, "a.txt  b.txt  c.txt\n");
}

#[test]
fn no_separator_before_first_or_after_last() {
    let result = short_format(&[entry("only.txt", "file")]);
    assert!(!result.starts_with(' '));
    assert!(result.ends_with("only.txt\n"));
}

#[test]
fn output_always_ends_with_newline() {
    let result = short_format(&[entry("a.txt", "file"), entry("b.txt", "file")]);
    assert!(result.ends_with('\n'));
}

#[test]
fn colored_entries_still_contain_the_name() {
    let result = short_format(&[entry("src", "dir")]);
    assert!(result.contains("src"));
    assert!(result.ends_with('\n'));
}

/// What the system's user and group databases say of the owners of `entries`.
fn owners_of(entries: &[FileEntry]) -> OwnerNames {
    let mut owners = OwnerNames { users: Vec::new(), groups: Vec::new() };
    for e in entries {
        if let Some(u) = users::get_user_by_uid(e.uid) {
            owners.users.push((e.uid, u.name().to_string_lossy().into_owned()));
        }
        if let Some(g) = users::get_group_by_gid(e.gid) {
            owners.groups.push((e.gid, g.name().to_string_lossy().into_owned()));
        }
    }
    owners
}

/// The owners' names of an entry owned by `uid` and `gid`, from the system.
fn system_owners(uid: u32, gid: u32) -> OwnerNames {
    let mut e = entry("x", "file");
    e.uid = uid;
    e.gid = gid;
    owners_of(&[e])
}

#[test]
fn uid_zero_is_root() {
    assert_eq!(user_name(0, &system_owners(0, 0)), "root");
}

#[test]
fn gid_zero_is_root() {
    assert_eq!(group_name(0, &system_owners(0, 0)), "root");
}

#[test]
fn unknown_uid_falls_back_to_number_string() {
    assert_eq!(user_name(u32::MAX, &system_owners(u32::MAX, u32::MAX)), u32::MAX.to_string());
}

#[test]
fn unknown_gid_falls_back_to_number_string() {
    assert_eq!(group_name(u32::MAX, &system_owners(u32::MAX, u32::MAX)), u32::MAX.to_string());
}

#[test]
fn owner_columns_look_up_each_id_in_its_own_table() {
    let owners = OwnerNames {
        users: vec![(50, "wrong".into()), (1000, "alice".into()), (1000, "later".into())],
        groups: vec![(1000, "nope".into()), (50, "staff".into())],
    };
    assert_eq!(user_name(1000, &owners), "alice");
    assert_eq!(group_name(50, &owners), "staff");
    assert_eq!(user_name(7, &owners), "7");
    assert_eq!(group_name(7, &owners), "7");
}

fn local_dt(y: i32, m: u32, d: u32, h: u32, min: u32) -> DateTime<Local> {
    Local.with_ymd_and_hms(y, m, d, h, min, 0).unwrap()
}

fn local_time(y: i32, m: u32, d: u32, h: u32, min: u32) -> LocalTime {
    LocalTime { year: y, month: m, day: d, hour: h, minute: min }
}

#[test]
fn same_year_shows_time_of_day() {
    let now = local_time(2026, 5, 5, 12, 0);
    let file = local_dt(2026, 1, 3, 14, 23).timestamp();
    assert_eq!(format_time(file, &now), "Jan  3 14:23");
}

#[test]
fn past_year_shows_the_year() {
    let now = local_time(2026, 5, 5, 12, 0);
    let file = local_dt(2024, 1, 3, 14, 23).timestamp();
    assert_eq!(format_time(file, &now), "Jan  3 2024");
}

fn sized_entry(name: &str, size: u64) -> FileEntry {
    let mut e = entry(name, "file");
    e.size = size;
    e.nlink = 1;
    e
}

#[test]
fn long_format_empty_list_only_has_total_header() {
    let result = long_format(&[], &owners_of(&[]));
    assert_eq!(result, "total 0\n");
}

#[test]
fn long_format_starts_with_total_header() {
    let entries = [sized_entry("a.txt", 47)];
    let result = long_format(&entries, &owners_of(&entries));
    assert!(result.starts_with("total "));
}

#[test]
fn long_format_total_line_sums_blocks_across_entries() {
    let mut small = sized_entry("small.txt", 1);
    small.blocks = 2;
    let mut medium = sized_entry("medium.bin", 1025);
    medium.blocks = 4;
    let mut big = sized_entry("big.bin", 4096);
    big.blocks = 8;
    let entries = [small, medium, big];
    let result = long_format(&entries, &owners_of(&entries));
    assert!(result.starts_with("total 7\n"));
}

#[test]
fn long_format_produces_one_line_per_entry_plus_header() {
    let entries = [
        sized_entry("a.txt", 10),
        sized_entry("b.txt", 20),
        sized_entry("c.txt", 30),
    ];
    let result = long_format(&entries, &owners_of(&entries));
    assert_eq!(result.lines().count(), 4);
}

#[test]
fn long_format_includes_each_file_name() {
    let entries = [sized_entry("alpha.txt", 1), sized_entry("beta.bin", 2)];
    let result = long_format(&entries, &owners_of(&entries));
    assert!(result.contains("alpha.txt"));
    assert!(result.contains("beta.bin"));
}

#[test]
fn long_format_includes_size_in_output() {
    let entries = [sized_entry("file.txt", 12345)];
    let result = long_format(&entries, &owners_of(&entries));
    assert!(result.contains("12345"));
}

#[test]
fn long_format_always_ends_with_newline() {
    let entries = [sized_entry("a.txt", 1)];
    let result = long_format(&entries, &owners_of(&entries));
    assert!(result.ends_with('\n'));
}

#[test]
fn total_rounds_odd_block_counts_down() {
    let mut a = sized_entry("a", 1);
    a.blocks = 3;
    let mut b = sized_entry("b", 1);
    b.blocks = 1;
    let entries = [a, b];
    assert!(long_format(&entries, &owners_of(&entries)).starts_with("total 1\n"));
}

#[test]
fn long_format_at_fixed_time_names_owners_by_id() {
    let now = local_time(2026, 5, 5, 12, 0);
    let mut a = sized_entry("a.txt", 5);
    a.uid = 1000;
    a.gid = 50;
    a.mode = 0o100644;
    a.blocks = 8;
    let mut b = sized_entry("b.txt", 12345);
    b.uid = 7;
    b.gid = 1000;
    b.mode = 0o100600;
    b.nlink = 12;
    let owners = OwnerNames {
        users: vec![(50, "wrong".into()), (1000, "alice".into())],
        groups: vec![(1000, "nope".into()), (50, "staff".into())],
    };
    let da = format_time(a.modified, &now);
    let db = format_time(b.modified, &now);
    let expected = format!(
        "total 4\n-rw-r--r--  1 alice staff     5 {} a.txt\n-rw------- 12 7     nope  12345 {} b.txt\n",
        da, db
    );
    assert_eq!(long_format_at(&[a, b], &owners, Some(now)), expected);
}

#[test]
fn long_format_at_unknown_time_shows_the_year() {
    let mut a = sized_entry("a.txt", 1);
    a.modified = local_dt(2026, 1, 3, 14, 23).timestamp();
    let owners = OwnerNames { users: Vec::new(), groups: Vec::new() };
    let out = long_format_at(&[a], &owners, None);
    assert_eq!(out, "total 0\n---------- 1 0 0 1 Jan  3 2026 a.txt\n");
}

#[test]
fn layout_uses_as_many_columns_as_fit() {
    let entries = [
        entry("aaaa", "file"),
        entry("b", "file"),
        entry("cc", "file"),
        entry("d", "file"),
    ];
    // four columns: 4 + 2 + 1 + 2 + 2 + 2 + 1 = 14
    let (cols, rows, widths) = compute_layout(&entries, 14);
    assert_eq!((cols, rows, widths), (4, 1, vec![4, 1, 2, 1]));
    // three columns need two rows; the third column stays empty:
    // 4 + 2 + 2 + 2 + 0 = 10
    let (cols, rows, widths) = compute_layout(&entries, 13);
    assert_eq!((cols, rows, widths), (3, 2, vec![4, 2, 0]));
    let (cols, rows, widths) = compute_layout(&entries, 8);
    assert_eq!((cols, rows, widths), (2, 2, vec![4, 2]));
    let (cols, rows, widths) = compute_layout(&entries, 7);
    assert_eq!((cols, rows, widths), (1, 4, vec![4]));
}

#[test]
fn layout_falls_back_to_one_column_when_nothing_fits() {
    let entries = [entry("abcdefgh", "file"), entry("xy", "file")];
    let (cols, rows, widths) = compute_layout(&entries, 3);
    assert_eq!((cols, rows, widths), (1, 2, vec![8]));
    let (cols, rows, widths) = compute_layout(&[], 80);
    assert_eq!((cols, rows, widths), (1, 0, vec![0]));
}

#[test]
fn grid_fills_columns_top_to_bottom_and_pads_by_name_length() {
    let entries = [
        entry("aaaa", "file"),
        entry("b", "file"),
        entry("cc", "file"),
        entry("d", "file"),
    ];
    let cells: Vec<String> = entries.iter().map(|e| e.name.clone()).collect();
    assert_eq!(short_grid(&entries, &cells, 13), "aaaa  cc  \nb     d   \n");
    assert_eq!(short_grid(&entries, &cells, 7), "aaaa\nb\ncc\nd\n");
    let shown = vec!["<aaaa>".to_string(), "b".into(), "cc".into(), "d".into()];
    assert_eq!(short_grid(&entries, &shown, 14), "<aaaa>  b  cc  d\n");
}

#[test]
fn short_grid_lines_fit_the_width_in_bytes() {
    let entries = [entry("ééé", "file"), entry("a", "file"), entry("bb", "file")];
    let cells: Vec<String> = entries.iter().map(|e| e.name.clone()).collect();
    let out = short_grid(&entries, &cells, 10);
    assert_eq!(out, "ééé  bb\na       \n");
    for line in out.lines() {
        assert!(line.len() <= 10);
    }
}

#[test]
fn permissions_show_type_and_rwx_bits() {
    let mut e = entry("f", "file");
    e.mode = 0o100644;
    assert_eq!(permissions_string(&e), "-rw-r--r--");
    let mut d = entry("d", "dir");
    d.mode = 0o040755;
    assert_eq!(permissions_string(&d), "drwxr-xr-x");
    let mut l = entry("l", "symlink");
    l.is_dir = true;
    l.mode = 0o120777;
    assert_eq!(permissions_string(&l), "lrwxrwxrwx");
    let mut x = entry("x", "file");
    x.mode = 0o000421;
    assert_eq!(permissions_string(&x), "-r---w---x");
}

#[test]
fn column_widths_are_the_longest_cell_in_bytes() {
    let row = |a: &str, b: &str| -> [String; 7] {
        [a.into(), b.into(), "".into(), "x".into(), "".into(), "".into(), "".into()]
    };
    let rows = [row("abc", "1"), row("a", "12345"), row("é", "")];
    assert_eq!(column_widths(&rows), [3, 5, 0, 1, 0, 0, 0]);
    assert_eq!(column_widths(&[]), [0; 7]);
}

#[test]
fn long_grid_aligns_columns() {
    let rows = vec![
        [
            "-rw-r--r--".to_string(),
            "1".into(),
            "root".into(),
            "wheel".into(),
            "5".into(),
            "Jan  3 14:23".into(),
            "a".into(),
        ],
        [
            "drwxr-xr-x".to_string(),
            "12".into(),
            "bob".into(),
            "staff".into(),
            "4096".into(),
            "Jan  3 2024".into(),
            "dir".into(),
        ],
    ];
    assert_eq!(
        long_grid(&rows, 42),
        "total 42\n-rw-r--r--  1 root wheel    5 Jan  3 14:23 a\ndrwxr-xr-x 12 bob  staff 4096 Jan  3 2024 dir\n"
    );
}

#[test]
fn owner_falls_back_to_decimal_id() {
    assert_eq!(name_or_number(Some("alice".into()), 7), "alice");
    assert_eq!(name_or_number(None, 0), "0");
    assert_eq!(name_or_number(None, 1000), "1000");
}

#[test]
fn local_time_patterns() {
    let t = local_time(2025, 12, 24, 9, 5);
    assert_eq!(format_local(&t, Some(2025)), "Dec 24 09:05");
    assert_eq!(format_local(&t, Some(2026)), "Dec 24 2025");
}

#[test]
fn permissions_ignore_bits_above_the_nine() {
    let mut a = entry("f", "file");
    a.mode = 0o100755;
    let mut b = entry("f", "file");
    b.mode = 0o107755;
    assert_eq!(permissions_string(&a), permissions_string(&b));
    assert_eq!(permissions_string(&a), "-rwxr-xr-x");
}

#[test]
fn column_widths_of_joined_rows_are_the_larger() {
    let row = |a: &str, b: &str| -> [String; 7] {
        [a.into(), b.into(), "".into(), "".into(), "".into(), "".into(), "".into()]
    };
    let first = [row("abcd", "1")];
    let second = [row("ab", "123")];
    let joined = [row("abcd", "1"), row("ab", "123")];
    assert_eq!(column_widths(&first), [4, 1, 0, 0, 0, 0, 0]);
    assert_eq!(column_widths(&second), [2, 3, 0, 0, 0, 0, 0]);
    assert_eq!(column_widths(&joined), [4, 3, 0, 0, 0, 0, 0]);
}

#[test]
fn years_outside_four_digits_are_signed() {
    let t = local_time(12345, 6, 7, 8, 9);
    assert_eq!(format_local(&t, Some(2026)), "Jun  7 +12345");
    let t = local_time(42, 6, 17, 8, 9);
    assert_eq!(format_local(&t, Some(2026)), "Jun 17 0042");
}

#[test]
fn unknown_current_year_shows_the_year() {
    let t = local_time(2025, 12, 24, 9, 5);
    assert_eq!(format_local(&t, None), "Dec 24 2025");
}
