//! One listed file: its name, kind, and the metadata the formatters print.

use vstd::prelude::*;

verus! {

/// A file as the listing shows it.
pub struct FileEntry {
    pub name: String,
    pub is_dir: bool,
    pub is_symlink: bool,
    pub is_executable: bool,
    pub is_hidden: bool,
    pub size: u64,
    pub mode: u32,
    pub nlink: u64,
    pub uid: u32,
    pub gid: u32,
    /// Modification time, in whole seconds since the Unix epoch.
    pub modified: i64,
    /// Allocated size in 512-byte blocks.
    pub blocks: u64,
}

/// What a `symlink_metadata` call reports about a file (the link itself, not
/// its target), as plain values.
pub struct FileStat {
    pub is_dir: bool,
    pub is_symlink: bool,
    pub size: u64,
    pub mode: u32,
    pub nlink: u64,
    pub uid: u32,
    pub gid: u32,
    /// Allocated size in 512-byte blocks.
    pub blocks: u64,
    /// Modification time in whole seconds since the Unix epoch, when the
    /// platform reports one.
    pub modified: Option<i64>,
}

#[verifier::external_type_specification]
#[verifier::external_body]
pub struct ExIoError(std::io::Error);

/// The text after the last `/` of `path` (all of it when there is none).
pub open spec fn last_segment(path: Seq<char>) -> Seq<char>
    decreases path.len(),
{
    if path.len() == 0 || path.last() == '/' {
        Seq::empty()
    } else {
        last_segment(path.drop_last()).push(path.last())
    }
}

/// The last segment is no longer than the path, and a slash stands just before it
/// when it is shorter.
pub proof fn lemma_last_segment_len(path: Seq<char>)
    ensures
        last_segment(path).len() <= path.len(),
        last_segment(path).len() < path.len() ==> path[path.len() - last_segment(path).len() - 1]
            == '/',
    decreases path.len(),
{
    if path.len() > 0 && path.last() != '/' {
        lemma_last_segment_len(path.drop_last());
    }
}

/// The file name of a path, as `Path::file_name` gives it on Unix: the last
/// segment that is neither empty nor `.` (repeated and trailing `/` and
/// non-leading `.` components are dropped), and none when that segment is `..`
/// or when there is no such segment (as for `/`, `.` or the empty path).
pub open spec fn path_file_name(path: Seq<char>) -> Option<Seq<char>>
    decreases path.len(),
{
    let seg = last_segment(path);
    if seg.len() > 0 && seg != seq!['.'] {
        if seg == seq!['.', '.'] {
            None
        } else {
            Some(seg)
        }
    } else if seg.len() >= path.len() {
        None
    } else {
        proof {
            lemma_last_segment_len(path);
        }
        path_file_name(path.take(path.len() - seg.len() - 1))
    }
}

/// `std::path::Path::file_name` on a path given as a string. The component is
/// a slice of the string, so the lossy conversion gives it back unchanged. On
/// Unix `/` alone separates components; `Path` ignores repeated separators and
/// a trailing one, and drops `.` components except a leading one (`std`
/// documents these, and that `foo.txt/.` gives `foo.txt`, `/usr/bin/` gives
/// `bin`, and a path ending in `..` or the root gives `None`).
#[verifier::external_body]
fn file_name_of(path: &str) -> (r: Option<String>)
    ensures
        match r {
            Some(s) => path_file_name(path@) == Some(s@),
            None => path_file_name(path@) is None,
        },
{
    match std::path::Path::new(path).file_name() {
        Some(n) => Some(n.to_string_lossy().into_owned()),
        None => None,
    }
}

/// The name an entry is listed under: the path's final component, or the
/// whole path when it has none (such as `/` or `..`).
pub open spec fn entry_name(path: Seq<char>) -> Seq<char> {
    match path_file_name(path) {
        Some(name) => name,
        None => path,
    }
}

/// Names starting with a dot are hidden.
pub open spec fn is_hidden_name(name: Seq<char>) -> bool {
    name.len() > 0 && name[0] == '.'
}

/// Whether any execute bit (owner, group or others) is set in `mode`.
pub open spec fn any_exec_bit(mode: u32) -> bool {
    mode & 0o111u32 != 0u32
}

/// `entry` is what the listing makes of the file at `path` with metadata `st`.
pub open spec fn entry_of(entry: FileEntry, path: Seq<char>, st: FileStat) -> bool {
    &&& entry.name@ == entry_name(path)
    &&& entry.is_dir == st.is_dir
    &&& entry.is_symlink == st.is_symlink
    &&& entry.is_executable == (!st.is_dir && any_exec_bit(st.mode))
    &&& entry.is_hidden == is_hidden_name(entry.name@)
    &&& entry.size == st.size
    &&& entry.mode == st.mode
    &&& entry.nlink == st.nlink
    &&& entry.uid == st.uid
    &&& entry.gid == st.gid
    &&& entry.blocks == st.blocks
    &&& entry.modified == match st.modified {
        Some(t) => t,
        None => 0,
    }
}

/// Whether `name` starts with a dot.
fn starts_with_dot(name: &str) -> (r: bool)
    ensures
        r == is_hidden_name(name@),
{
    if name.is_empty() {
        false
    } else {
        name.get_char(0) == '.'
    }
}

impl FileEntry {
    /// The entry for the file at `path`, from the result of reading its
    /// metadata (without following a final symlink): a read error is
    /// passed on unchanged.
    pub fn from_path(path: &str, stat: std::io::Result<FileStat>) -> (r: std::io::Result<FileEntry>)
        ensures
            match stat {
                Ok(st) => match r {
                    Ok(entry) => entry_of(entry, path@, st),
                    Err(_) => false,
                },
                Err(e) => r == Err::<FileEntry, std::io::Error>(e),
            },
    {
        let st = match stat {
            Ok(st) => st,
            Err(e) => {
                return Err(e);
            },
        };
        let name = match file_name_of(path) {
            Some(n) => n,
            None => path.to_owned(),
        };
        let is_hidden = starts_with_dot(name.as_str());
        let is_executable = !st.is_dir && (st.mode & 0o111) != 0;
        Ok(FileEntry {
            name,
            is_dir: st.is_dir,
            is_symlink: st.is_symlink,
            is_executable,
            is_hidden,
            size: st.size,
            mode: st.mode,
            nlink: st.nlink,
            uid: st.uid,
            gid: st.gid,
            modified: match st.modified {
                Some(t) => t,
                None => 0,
            },
            blocks: st.blocks,
        })
    }
}

} // verus!
