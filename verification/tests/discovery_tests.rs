use app_uninstaller::discovery::{has_bundle_ext, make_record, records_from_entries};
use app_uninstaller::types::ProcessInfo;

#[test]
fn bundle_extension_detection() {
    assert!(has_bundle_ext("Widget.app"));
    assert!(has_bundle_ext("a.app"));
    assert!(!has_bundle_ext(".app"));
    assert!(!has_bundle_ext("Widget.APP"));
    assert!(!has_bundle_ext("Widget.txt"));
}

#[test]
fn records_are_built_per_bundle_entry() {
    let entries = vec![
        Some(("/Applications/Widget.app".to_string(), "Widget.app".to_string())),
        Some(("/Applications/readme.txt".to_string(), "readme.txt".to_string())),
        Some(("/Applications/Other.app".to_string(), "Other.app".to_string())),
    ];
    let identities = vec![
        (Some("com.acme.widget".to_string()), Some("Widget".to_string())),
        (None, None),
        (None, None),
    ];
    let procs = vec![ProcessInfo { name: "widget".to_string(), exe: None, cmd: Vec::new() }];
    let recs = records_from_entries(&entries, &identities, &procs);
    assert_eq!(recs.len(), 2);
    assert_eq!(recs[0].path, "/Applications/Widget.app");
    assert_eq!(recs[0].name, "Widget");
    assert_eq!(recs[0].bundle_id.as_deref(), Some("com.acme.widget"));
    // A process named like the folded display name counts as running.
    assert!(recs[0].running);
    assert_eq!(recs[1].path, "/Applications/Other.app");
    // With no metadata name, the display name falls back to the file name.
    assert_eq!(recs[1].name, "Other.app");
    assert_eq!(recs[1].bundle_id, None);
    assert!(!recs[1].running);
}

#[test]
fn record_name_falls_back_to_last_path_component() {
    let procs: Vec<ProcessInfo> = Vec::new();
    let rec = make_record(&"/Applications/Deep/Tool.app".to_string(), None, None, &procs);
    assert_eq!(rec.name, "Tool.app");
    assert_eq!(rec.path, "/Applications/Deep/Tool.app");
    assert!(!rec.running);
}
