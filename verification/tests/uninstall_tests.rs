use app_uninstaller::discovery::{
    discovery_done_event, discovery_start_event, related_progress_events,
};
use app_uninstaller::types::{AppInfo, ProgressUpdate, TaskKind};
use app_uninstaller::uninstall::{selected_artifacts, start, DisposeOutcome};

fn strings(v: &[&str]) -> Vec<String> {
    v.iter().map(|s| s.to_string()).collect()
}

fn widget_app(running: bool) -> AppInfo {
    AppInfo {
        path: "/Applications/Widget.app".to_string(),
        name: "Widget".to_string(),
        bundle_id: Some("com.acme.widget".to_string()),
        running,
    }
}

fn frac(e: &ProgressUpdate) -> (usize, usize) {
    (e.progress_num, e.progress_den)
}

#[test]
fn selection_shorter_than_artifacts_selects_the_rest() {
    let paths = strings(&["/a", "/b", "/c", "/d"]);
    let sel = vec![true, false];
    // Indices 2 and 3 carry no flag, so they are selected by default.
    assert_eq!(selected_artifacts(&paths, &sel), strings(&["/a", "/c", "/d"]));
    assert_eq!(selected_artifacts(&paths, &Vec::new()), paths);
}

#[test]
fn scenario_not_running_removes_bundle_and_selected_artifact() {
    let app = widget_app(false);
    let artifacts = strings(&[
        "/Users/me/Library/Application Support/com.acme.widget",
        "/Users/me/Documents/widget-notes",
    ]);
    let selection = vec![true, false];
    let (mut task, evs) = start(7, &app, &artifacts, &selection, false);
    assert_eq!(evs.len(), 1);
    assert_eq!(evs[0].message, "Starting uninstall of Widget...");
    assert!(!evs[0].finished);

    let mut stream: Vec<ProgressUpdate> = Vec::new();
    let mut targets: Vec<String> = Vec::new();
    while let Some(t) = task.next_target() {
        targets.push(t);
        stream.extend(task.record(DisposeOutcome::Removed));
    }
    // The bundle goes first, then the one selected artifact; the unselected
    // artifact is never requested.
    assert_eq!(
        targets,
        strings(&[
            "/Applications/Widget.app",
            "/Users/me/Library/Application Support/com.acme.widget",
        ])
    );
    // Exactly two non-terminal success events plus one terminal success.
    assert_eq!(stream.len(), 3);
    assert_eq!(stream[0].message, "Moved /Applications/Widget.app to Trash");
    assert_eq!(frac(&stream[0]), (1, 2));
    assert!(!stream[0].finished && stream[0].error.is_none());
    assert_eq!(
        stream[1].message,
        "Removed /Users/me/Library/Application Support/com.acme.widget"
    );
    assert_eq!(frac(&stream[1]), (2, 2));
    assert!(!stream[1].finished && stream[1].error.is_none());
    assert_eq!(stream[2].message, "Uninstall complete; refreshing app list");
    assert_eq!(frac(&stream[2]), (2, 2));
    assert!(stream[2].finished && stream[2].error.is_none());
    assert!(task.finished());
    assert!(task.wants_refresh());
}

#[test]
fn scenario_running_aborts_without_touching_anything() {
    let app = widget_app(true);
    let artifacts = strings(&["/Users/me/Library/Application Support/com.acme.widget"]);
    let (task, evs) = start(0, &app, &artifacts, &vec![true], true);
    // One announcement, then exactly one terminal failure event.
    assert_eq!(evs.len(), 2);
    assert!(!evs[0].finished);
    assert!(evs[1].finished);
    assert_eq!(evs[1].message, "App is running. Abort uninstall.");
    assert_eq!(evs[1].error.as_deref(), Some("App is running"));
    assert_eq!(frac(&evs[1]), (2, 2));
    // No filesystem mutation is ever requested.
    assert_eq!(task.next_target(), None);
    assert!(task.finished());
    assert!(!task.wants_refresh());
}

#[test]
fn scenario_protected_failure_aborts_before_unprivileged_work() {
    let app = widget_app(false);
    let protected = "/Library/Application Support/com.acme.widget";
    let unprivileged = "/Users/me/Library/Caches/com.acme.widget";
    let artifacts = strings(&[unprivileged, protected]);
    let (mut task, _evs) = start(1, &app, &artifacts, &vec![true, true], false);

    assert_eq!(task.next_target().as_deref(), Some("/Applications/Widget.app"));
    let evs1 = task.record(DisposeOutcome::Removed);
    assert_eq!(evs1.len(), 1);

    // Protected artifacts come before unprivileged ones, so the privilege
    // prompt surfaces early.
    assert_eq!(task.next_target().as_deref(), Some(protected));
    let evs2 = task.record(DisposeOutcome::DisposalFailed("permission denied".to_string()));
    assert_eq!(evs2.len(), 1);
    assert!(evs2[0].finished);
    assert_eq!(
        evs2[0].message,
        "Aborting uninstall due to failure on /Library/Application Support/com.acme.widget: permission denied"
    );
    assert_eq!(evs2[0].error.as_deref(), Some("permission denied"));
    assert_eq!(frac(&evs2[0]), (3, 3));

    // The unprivileged artifact is never requested.
    assert_eq!(task.next_target(), None);
    assert!(task.finished());
    assert!(!task.wants_refresh());
}

#[test]
fn scenario_unprivileged_failure_is_absorbed() {
    let app = widget_app(false);
    let u1 = "/Users/me/Library/Caches/com.acme.widget";
    let u2 = "/Users/me/Library/Logs/Widget";
    let artifacts = strings(&[u1, u2]);
    let (mut task, _evs) = start(2, &app, &artifacts, &vec![true, true], false);

    assert_eq!(task.next_target().as_deref(), Some("/Applications/Widget.app"));
    task.record(DisposeOutcome::Removed);

    assert_eq!(task.next_target().as_deref(), Some(u1));
    let evs_fail = task.record(DisposeOutcome::DisposalFailed("locked".to_string()));
    assert_eq!(evs_fail.len(), 1);
    assert!(!evs_fail[0].finished);
    assert_eq!(
        evs_fail[0].message,
        "Failed to remove /Users/me/Library/Caches/com.acme.widget: locked"
    );
    assert_eq!(evs_fail[0].error.as_deref(), Some("locked"));

    // The pass continues to the next unprivileged artifact.
    assert_eq!(task.next_target().as_deref(), Some(u2));
    let evs_ok = task.record(DisposeOutcome::Removed);
    assert_eq!(evs_ok.len(), 2);
    assert!(!evs_ok[0].finished && evs_ok[0].error.is_none());
    assert_eq!(evs_ok[0].message, "Removed /Users/me/Library/Logs/Widget");
    assert!(evs_ok[1].finished && evs_ok[1].error.is_none());
    assert_eq!(frac(&evs_ok[1]), (3, 3));
    assert!(task.wants_refresh());
}

#[test]
fn unknown_path_kind_is_fatal_for_the_bundle() {
    let app = widget_app(false);
    let artifacts: Vec<String> = Vec::new();
    let (mut task, _evs) = start(3, &app, &artifacts, &Vec::new(), false);
    assert_eq!(task.next_target().as_deref(), Some("/Applications/Widget.app"));
    let evs = task.record(DisposeOutcome::UnknownPathKind);
    assert_eq!(evs.len(), 1);
    assert!(evs[0].finished);
    assert_eq!(
        evs[0].message,
        "Failed to remove bundle: Unknown path type: /Applications/Widget.app"
    );
    assert!(task.finished());
    assert!(!task.wants_refresh());
}

#[test]
fn empty_selection_set_still_removes_the_bundle() {
    let app = widget_app(false);
    let artifacts = strings(&["/Users/me/Library/Caches/com.acme.widget"]);
    let (mut task, _evs) = start(4, &app, &artifacts, &vec![false], false);
    assert_eq!(task.next_target().as_deref(), Some("/Applications/Widget.app"));
    let evs = task.record(DisposeOutcome::Removed);
    // With nothing selected the pass completes right after the bundle.
    assert_eq!(evs.len(), 2);
    assert_eq!(frac(&evs[0]), (1, 1));
    assert!(evs[1].finished);
    assert_eq!(task.next_target(), None);
}

#[test]
fn discovery_frame_events() {
    let start_ev = discovery_start_event();
    assert_eq!(start_ev.kind, TaskKind::RefreshApps);
    assert_eq!(frac(&start_ev), (0, 1));
    assert!(!start_ev.finished);

    let ok = discovery_done_event(None);
    assert!(ok.finished && ok.error.is_none());
    assert_eq!(ok.message, "Done.");
    assert_eq!(frac(&ok), (1, 1));

    let failed = discovery_done_event(Some("scan failed".to_string()));
    assert!(failed.finished);
    assert_eq!(failed.message, "Failed.");
    assert_eq!(failed.error.as_deref(), Some("scan failed"));
}

#[test]
fn related_progress_stream_is_monotone_and_ends_terminal() {
    let evs = related_progress_events(5, 2);
    // Fewer than four findings still pace over four steps: events at
    // 0/4 .. 4/4, then the terminal event.
    assert_eq!(evs.len(), 6);
    for e in &evs {
        assert_eq!(e.kind, TaskKind::RefreshRelated(5));
        assert!(e.progress_num <= e.progress_den);
    }
    for w in evs.windows(2) {
        assert!(
            w[0].progress_num * w[1].progress_den <= w[1].progress_num * w[0].progress_den
        );
    }
    assert!(evs.last().unwrap().finished);
    assert_eq!(frac(evs.last().unwrap()), (1, 1));
    assert!(evs[..evs.len() - 1].iter().all(|e| !e.finished));
}
