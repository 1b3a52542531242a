//! Trusted filesystem and environment access.
//!
//! Every function here performs a call whose result depends on the state of
//! the machine (the filesystem or the environment), so no contract pins the
//! results; the verified callers state what holds whatever comes back.

use vstd::prelude::*;

verus! {

/// Relies on std's `Path::exists`: whether the path points at an existing
/// filesystem entity.  The result depends on the disk, so nothing is
/// promised of it.
#[verifier::external_body]
pub fn path_exists(p: &str) -> bool {
    std::path::Path::new(p).exists()
}

/// Relies on std's `Path::is_dir`: whether the path points at an existing
/// directory.
#[verifier::external_body]
pub fn path_is_dir(p: &str) -> bool {
    std::path::Path::new(p).is_dir()
}

/// Relies on home::home_dir: the current user's home directory, when the
/// environment provides one.
#[verifier::external_body]
pub fn home_dir_string() -> Option<String> {
    home::home_dir().map(|p| p.to_string_lossy().into_owned())
}

/// Relies on walkdir::WalkDir, DirEntry::path and DirEntry::file_name: every
/// entry under `root` between depth 1 and `max_depth`, in walk order, as a
/// (path, file name) pair; an entry the walk could not read is `None`.
#[verifier::external_body]
pub fn walk_dir_entries(root: &str, max_depth: usize) -> Vec<Option<(String, String)>> {
    walkdir::WalkDir::new(root).min_depth(1).max_depth(max_depth).into_iter().map(
        |e| match e {
            Ok(d) => Some(
                (
                    d.path().to_string_lossy().into_owned(),
                    d.file_name().to_string_lossy().into_owned(),
                ),
            ),
            Err(_) => None,
        },
    ).collect()
}

} // verus!
