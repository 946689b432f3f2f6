//! Paths of source files, resolved against a working directory.
use crate::diagnostic_source::{plain_path, plain_relative};
use vstd::prelude::*;

verus! {

/// Calls `std::path::Path::is_relative`: whether the path depends on the current
/// directory. Which paths are relative depends on the platform, so the contract
/// states only what holds on all of them: the empty path and a plain relative path
/// are relative.
#[verifier::external_body]
fn path_is_relative(path: &str) -> (r: bool)
    ensures
        path@.len() == 0 ==> r,
        plain_relative(path@) ==> r,
{
    std::path::Path::new(path).is_relative()
}

/// Calls `std::path::Path::join`, with the result turned back into text. The
/// separator it puts between the parts depends on the platform, so the contract
/// states only what holds on all of them: a plain relative path joined onto a plain
/// path is that path, one separator (`/` or `\\`), and the relative path.
#[verifier::external_body]
fn path_join(base: &str, path: &str) -> (r: String)
    ensures
        plain_path(base@) && plain_relative(path@) ==> joined(base@, path@, r@),
{
    std::path::Path::new(base).join(path).to_string_lossy().into_owned()
}

/// `r` is `base`, one separator and `path`.
pub open spec fn joined(base: Seq<char>, path: Seq<char>, r: Seq<char>) -> bool {
    &&& r.len() == base.len() + 1 + path.len()
    &&& r.subrange(0, base.len() as int) == base
    &&& (r[base.len() as int] == '/' || r[base.len() as int] == '\\')
    &&& r.subrange(base.len() as int + 1, r.len() as int) == path
}

/// Resolves `path` against the working directory `cwd`: a relative path is joined
/// onto it, any other path is kept as it is. A plain relative path under a plain
/// working directory becomes the directory, one separator and the path.
pub fn resolve_path(path: &str, cwd: &str) -> (r: String)
    ensures
        plain_path(cwd@) && plain_relative(path@) ==> joined(cwd@, path@, r@),
{
    if path_is_relative(path) {
        path_join(cwd, path)
    } else {
        String::from_str(path)
    }
}

} // verus!
