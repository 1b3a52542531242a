//! Data types shared across the library.

use vstd::prelude::*;

verus! {

/// Discovered application bundle with basic metadata.
///
/// The `running` flag is relative to the process snapshot taken at discovery
/// time; it is not refreshed afterwards.
#[derive(Clone, Debug)]
pub struct AppInfo {
    pub path: String,
    pub name: String,
    pub bundle_id: Option<String>,
    pub running: bool,
}

/// Kind of background task a progress update belongs to.
#[derive(Clone, Debug, PartialEq, Eq)]
pub enum TaskKind {
    Idle,
    RefreshApps,
    /// Index of the application whose related artifacts are being resolved.
    RefreshRelated(usize),
    /// Index of the application being uninstalled.
    Uninstall(usize),
}

/// Progress update message produced by a background operation.
///
/// The fractional progress is the exact rational `progress_num /
/// progress_den`; a consumer that wants a float divides at the edge.
#[derive(Clone, Debug)]
pub struct ProgressUpdate {
    pub kind: TaskKind,
    pub progress_num: usize,
    pub progress_den: usize,
    pub message: String,
    pub finished: bool,
    pub error: Option<String>,
}

impl ProgressUpdate {
    /// A valid progress fraction lies in `[0, 1]`.
    pub open spec fn wf(&self) -> bool {
        &&& self.progress_den >= 1
        &&& self.progress_num <= self.progress_den
    }
}

/// One running process, as seen in a point-in-time snapshot.
#[derive(Clone, Debug)]
pub struct ProcessInfo {
    pub name: String,
    pub exe: Option<String>,
    pub cmd: Vec<String>,
}

/// A root directory became unreadable while it was being walked; the
/// enclosing discovery call fails as a whole.
#[derive(Clone, Debug)]
pub struct ScanError {
    pub root: String,
}

/// A bundle's metadata descriptor is present but cannot be parsed.  Discovery
/// absorbs this per bundle and degrades the record to name-only identity.
#[derive(Clone, Debug)]
pub struct MetadataReadError {
    pub path: String,
}

} // verus!
