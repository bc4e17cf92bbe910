//! Paths of included files. A path is held as text. What the directory of a
//! path is, and how a path is joined to a directory, is left to `std::path`,
//! which follows the platform that the library is built for.

use vstd::prelude::*;
use crate::text::text_of;

verus! {

/// The directory that the path `path` lies in, as `std::path::Path::parent`
/// gives it; `None` where it gives none.
pub uninterp spec fn parent_of(path: Seq<char>) -> Option<Seq<char>>;

/// The path `path` as seen from the directory `base`, as
/// `std::path::Path::join` gives it.
pub uninterp spec fn joined(base: Seq<char>, path: Seq<char>) -> Seq<char>;

/// The directory that includes are seen from, where the including file lies
/// in `parent`: that directory, or `.` where there is none.
pub open spec fn base_of(parent: Option<Seq<char>>) -> Seq<char> {
    match parent {
        Some(dir) => dir,
        None => "."@,
    }
}

/// The path that an include in the file `current` means by `target`: `target`
/// as seen from the directory of `current`, or from `.` where `current` has
/// no directory.
pub open spec fn resolved(current: Seq<char>, target: Seq<char>) -> Seq<char> {
    joined(base_of(parent_of(current)), target)
}

/// Calls `std::path::Path::parent` on `path`, and hands back as text the
/// path it returns. The result depends on the text of `path` alone; what it
/// is, is not stated here.
#[verifier::external_body]
fn parent_dir(path: &str) -> (dir: Option<String>)
    ensures
        text_of(dir) == parent_of(path@),
{
    match std::path::Path::new(path).parent() {
        Some(dir) => Some(dir.to_string_lossy().into_owned()),
        None => None,
    }
}

/// Calls `std::path::Path::join` on `base` with `path`, and hands back as
/// text the path it returns. The result depends on the two texts alone; what
/// it is, is not stated here.
#[verifier::external_body]
fn join_path(base: &str, path: &str) -> (whole: String)
    ensures
        whole@ == joined(base@, path@),
{
    std::path::Path::new(base).join(path).to_string_lossy().into_owned()
}

/// The directory that includes are seen from, where the including file lies
/// in `parent`: that directory, or `.` where there is none.
pub fn base_dir(parent: Option<String>) -> (dir: String)
    ensures
        dir@ == base_of(text_of(parent)),
{
    match parent {
        Some(dir) => dir,
        None => ".".to_owned(),
    }
}

/// The path that an include in the file `current` means by `target`.
pub fn resolve(current: &str, target: &str) -> (path: String)
    ensures
        path@ == resolved(current@, target@),
{
    let base = base_dir(parent_dir(current));
    join_path(base.as_str(), target)
}

} // verus!
