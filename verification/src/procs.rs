//! Process snapshot acquisition.

use vstd::prelude::*;

use crate::matcher::{is_app_running, spec_is_running, view_opt};
use crate::types::ProcessInfo;

verus! {

/// Relies on sysinfo's System::new_all, System::refresh_all,
/// System::processes, and Process::name / Process::exe / Process::cmd: a
/// point-in-time view of every running process, reduced to plain values.
/// What is running depends on the machine, so nothing is promised of it.
#[verifier::external_body]
pub fn process_snapshot() -> Vec<ProcessInfo> {
    let mut sys = sysinfo::System::new_all();
    sys.refresh_all();
    sys.processes().values().map(
        |p| ProcessInfo {
            name: p.name().to_string_lossy().into_owned(),
            exe: p.exe().map(|e| e.to_string_lossy().into_owned()),
            cmd: p.cmd().iter().map(|c| c.to_string_lossy().into_owned()).collect(),
        },
    ).collect()
}

/// Running check against a fresh process snapshot.  The verdict is the
/// layered matcher's, evaluated on whatever snapshot the machine returned.
pub fn is_app_running_simple(bundle_id: Option<&str>, app_name: Option<&str>) -> (r: bool)
    ensures
        exists|procs: Seq<ProcessInfo>|
            r == spec_is_running(view_opt(bundle_id), view_opt(app_name), procs),
{
    let procs = process_snapshot();
    let r = is_app_running(&procs, bundle_id, app_name);
    proof {
        assert(r == spec_is_running(view_opt(bundle_id), view_opt(app_name), procs@));
    }
    r
}

} // verus!
