//! Planning atomic restricted writes: readers see either the whole old
//! file or the whole new one, because the new contents go to a temporary
//! sibling first and are renamed over the target.

use vstd::prelude::*;

use crate::path::{components_of, join_text, joined, parent_text, parts, Component, Part};
use crate::text::{push_decimal, push_str, string_of};

verus! {

/// Unix mode bits for a file (e.g. `0o600`). A distinct type from
/// [`DirMode`] so the two cannot be transposed.
#[derive(Debug, Clone, Copy, PartialEq, Eq, Structural)]
pub struct FileMode(pub u32);

/// Unix mode bits for a directory (e.g. `0o700`).
#[derive(Debug, Clone, Copy, PartialEq, Eq, Structural)]
pub struct DirMode(pub u32);

/// The final component of a path when it is a plain name
/// (`std::path::Path::file_name`).
pub open spec fn file_name_of(t: Seq<char>) -> Option<Seq<char>> {
    let ps = parts(t);
    if ps.len() > 0 && ps.last() is Normal {
        Some(ps.last()->Normal_0)
    } else {
        None
    }
}

/// The final component of path text `t`, when it is a plain name.
pub fn file_name(t: &str) -> (r: Option<String>)
    ensures
        match r {
            Some(n) => file_name_of(t@) == Some(n@),
            None => file_name_of(t@) is None,
        },
{
    let cs = components_of(t);
    let n = cs.len();
    proof {
        assert(cs@.map_values(|c: Component| c@).len() == n);
    }
    if n == 0 {
        return None;
    }
    proof {
        assert(cs@.map_values(|c: Component| c@).last() == cs@[n - 1]@);
    }
    match &cs[n - 1] {
        Component::Normal(s) => Some(s.clone()),
        _ => None,
    }
}

/// Why an atomic write cannot be planned.
#[derive(Debug)]
pub enum WritePlanError {
    /// The path has no parent directory.
    NoParent(String),
    /// The path has no file-name component.
    NoFileName(String),
}

impl WritePlanError {
    /// The user-facing message.
    pub fn message(&self) -> (m: String)
        ensures
            m@ == match *self {
                WritePlanError::NoParent(p) => p@ + " has no parent directory"@,
                WritePlanError::NoFileName(p) => p@ + " has no file name"@,
            },
    {
        let mut out: Vec<char> = Vec::new();
        match self {
            WritePlanError::NoParent(p) => {
                push_str(&mut out, p.as_str());
                push_str(&mut out, " has no parent directory");
            },
            WritePlanError::NoFileName(p) => {
                push_str(&mut out, p.as_str());
                push_str(&mut out, " has no file name");
            },
        }
        string_of(&out)
    }
}

/// The directory an atomic write of `path` creates (with the directory
/// mode) before writing.
pub fn write_parent(path: &str) -> (r: Result<String, WritePlanError>)
    ensures
        match r {
            Ok(p) => parent_text(path@) == Some(p@),
            Err(WritePlanError::NoParent(p)) => parent_text(path@) is None && p@ == path@,
            Err(_) => false,
        },
{
    match crate::path::parent_string(path) {
        Some(p) => Ok(p),
        None => Err(WritePlanError::NoParent(path.to_owned())),
    }
}

/// The temporary sibling the contents go to first:
/// `<parent>/<file name>.tmp.<pid>`.
pub open spec fn temp_path(parent: Seq<char>, name: Seq<char>, pid: nat) -> Seq<char> {
    joined(parent, name + ".tmp."@ + crate::text::decimal(pid))
}

/// The temporary path for writing `path` whose parent is `parent`, as
/// process `pid`.
pub fn write_temp_path(path: &str, parent: &str, pid: u32) -> (r: Result<String, WritePlanError>)
    ensures
        match r {
            Ok(t) => file_name_of(path@) matches Some(n) && t@ == temp_path(parent@, n, pid as nat),
            Err(WritePlanError::NoFileName(p)) => file_name_of(path@) is None && p@ == path@,
            Err(_) => false,
        },
{
    match file_name(path) {
        Some(n) => {
            let mut tmp: Vec<char> = Vec::new();
            push_str(&mut tmp, n.as_str());
            push_str(&mut tmp, ".tmp.");
            push_decimal(&mut tmp, pid as u64);
            let name = string_of(&tmp);
            Ok(join_text(parent, name.as_str()))
        },
        None => Err(WritePlanError::NoFileName(path.to_owned())),
    }
}

/// Whether an existing directory's permissions must be changed: its
/// permission bits differ from the wanted mode.
pub fn needs_chmod(current_mode: u32, wanted: DirMode) -> (b: bool)
    ensures
        b == ((current_mode & 0o777u32) != wanted.0),
{
    (current_mode & 0o777u32) != wanted.0
}

} // verus!
