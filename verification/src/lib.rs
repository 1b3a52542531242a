//! Application inventory and removal library.
//!
//! Discovers installed application bundles, decides whether an application is
//! currently running from a process snapshot, resolves the filesystem
//! artifacts an application left behind, and sequences a staged uninstall
//! that distinguishes privileged from unprivileged targets and reports
//! progress to the caller.

pub mod discovery;
pub mod fsio;
pub mod matcher;
pub mod metadata;
pub mod paths;
pub mod progress;
pub mod procs;
pub mod resolve;
pub mod text;
pub mod types;
pub mod uninstall;

pub use discovery::{find_app_bundles_progress, scan_apps_in_dir};
pub use matcher::is_app_running;
pub use metadata::read_info_from_app;
pub use paths::{candidate_app_dirs, common_paths_for_bundle_id};
pub use procs::is_app_running_simple;
pub use resolve::find_related_paths;
pub use types::{AppInfo, MetadataReadError, ProcessInfo, ProgressUpdate, ScanError, TaskKind};
