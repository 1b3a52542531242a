use app_uninstaller::matcher::is_app_running;
use app_uninstaller::types::ProcessInfo;

fn proc_named(name: &str) -> ProcessInfo {
    ProcessInfo { name: name.to_string(), exe: None, cmd: Vec::new() }
}

fn proc_full(name: &str, exe: Option<&str>, cmd: &[&str]) -> ProcessInfo {
    ProcessInfo {
        name: name.to_string(),
        exe: exe.map(|e| e.to_string()),
        cmd: cmd.iter().map(|c| c.to_string()).collect(),
    }
}

#[test]
fn name_equality_matches_case_insensitively() {
    let procs = vec![proc_named("FireFox")];
    assert!(is_app_running(&procs, None, Some("firefox")));
    assert!(is_app_running(&procs, None, Some("FIREFOX")));
}

#[test]
fn name_with_app_suffix_matches() {
    let procs = vec![proc_named("Widget.app")];
    assert!(is_app_running(&procs, None, Some("Widget")));
}

#[test]
fn no_identity_never_matches() {
    let procs = vec![proc_named("anything")];
    assert!(!is_app_running(&procs, None, None));
}

#[test]
fn unrelated_process_does_not_match() {
    let procs = vec![proc_full(
        "sshd",
        Some("/usr/sbin/sshd"),
        &["/usr/sbin/sshd", "-D"],
    )];
    assert!(!is_app_running(&procs, Some("com.acme.widget"), Some("Widget")));
}

#[test]
fn identifier_last_component_matches_process_name() {
    let procs = vec![proc_named("widget")];
    assert!(is_app_running(&procs, Some("com.acme.widget"), None));
}

#[test]
fn executable_path_inside_bundle_matches() {
    let procs = vec![proc_full(
        "helper",
        Some("/Applications/Widget.app/Contents/MacOS/helper"),
        &[],
    )];
    assert!(is_app_running(&procs, None, Some("Widget")));
}

#[test]
fn executable_path_contains_identifier() {
    let procs = vec![proc_full(
        "helper",
        Some("/private/tmp/com.acme.widget/daemon"),
        &[],
    )];
    assert!(is_app_running(&procs, Some("com.acme.widget"), None));
}

#[test]
fn command_line_contains_identifier_substring() {
    // The identifier is unambiguous enough for raw substring matching,
    // with or without a display name present.
    let procs = vec![proc_full(
        "launcher",
        None,
        &["launcher", "--bundle=com.acme.widget/session"],
    )];
    assert!(is_app_running(&procs, Some("com.acme.widget"), None));
    assert!(is_app_running(&procs, Some("com.acme.widget"), Some("Widget")));
}

#[test]
fn display_name_must_be_bounded_token_in_command_line() {
    // "Notes" inside the longer token "NotesBackupTool" must not match...
    let procs = vec![proc_full("backup", None, &["run", "NotesBackupTool"])];
    assert!(!is_app_running(&procs, None, Some("Notes")));
    // ...but a standalone token must.
    let procs2 = vec![proc_full("runner", None, &["open", "notes", "now"])];
    assert!(is_app_running(&procs2, None, Some("Notes")));
}

#[test]
fn display_name_app_path_in_command_line_matches() {
    let procs = vec![proc_full(
        "open",
        None,
        &["open", "/Applications/Notes.app/Contents/MacOS/Notes-helper"],
    )];
    assert!(is_app_running(&procs, None, Some("Notes")));
}

#[test]
fn command_line_token_at_string_edges_matches() {
    let head = vec![proc_full("sh", None, &["notes", "--flag"])];
    assert!(is_app_running(&head, None, Some("Notes")));
    let tail = vec![proc_full("sh", None, &["--open", "notes"])];
    assert!(is_app_running(&tail, None, Some("Notes")));
}

#[test]
fn identifier_last_component_app_path_matches() {
    let procs = vec![proc_full(
        "sh",
        None,
        &["run", "/opt/bundles/widget.app"],
    )];
    assert!(is_app_running(&procs, Some("com.acme.widget"), None));
}

#[test]
fn empty_snapshot_matches_nothing() {
    let procs: Vec<ProcessInfo> = Vec::new();
    assert!(!is_app_running(&procs, Some("com.acme.widget"), Some("Widget")));
}
