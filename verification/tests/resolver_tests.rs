use app_uninstaller::paths::{
    candidate_app_dirs_with_home, categorize_counts, common_paths_with_home, is_protected_path,
};
use app_uninstaller::resolve::{filter_by_flags, scan_matches, scan_roots_with_home, sort_dedup};
use app_uninstaller::text::{contains_str, ends_with_str, le_str, starts_with_str};

fn strings(v: &[&str]) -> Vec<String> {
    v.iter().map(|s| s.to_string()).collect()
}

#[test]
fn candidate_dirs_with_and_without_home() {
    let home = "/Users/me".to_string();
    let dirs = candidate_app_dirs_with_home(Some(&home));
    assert_eq!(dirs, strings(&["/Applications", "/Users/me/Applications"]));
    let dirs_none = candidate_app_dirs_with_home(None);
    assert_eq!(dirs_none, strings(&["/Applications", ""]));
}

#[test]
fn common_paths_for_identifier() {
    let home = "/Users/me".to_string();
    let paths = common_paths_with_home(Some(&home), "com.acme.widget");
    assert_eq!(
        paths,
        strings(&[
            "/Users/me/Library/Application Support/com.acme.widget",
            "/Users/me/Library/Caches/com.acme.widget",
            "/Users/me/Library/Preferences/com.acme.widget.plist",
            "/Users/me/Library/Containers/com.acme.widget",
            "/Library/Application Support/com.acme.widget",
            "/Library/Preferences/com.acme.widget.plist",
        ])
    );
}

#[test]
fn common_paths_without_home_are_system_only() {
    let paths = common_paths_with_home(None, "com.acme.widget");
    assert_eq!(
        paths,
        strings(&[
            "/Library/Application Support/com.acme.widget",
            "/Library/Preferences/com.acme.widget.plist",
        ])
    );
}

#[test]
fn scan_roots_are_the_eight_candidates() {
    let home = "/Users/me".to_string();
    let roots = scan_roots_with_home(&home);
    assert_eq!(
        roots,
        strings(&[
            "/Users/me/Library/Application Support",
            "/Users/me/Library/Caches",
            "/Users/me/Library/Preferences",
            "/Users/me/Library/Containers",
            "/Users/me/Library/Logs",
            "/Users/me/Library/LaunchAgents",
            "/Library/Receipts",
            "/private/var/db/receipts",
        ])
    );
}

#[test]
fn scan_matches_filters_by_folded_file_name() {
    let entries = vec![
        Some((
            "/L/Application Support/com.acme.widget".to_string(),
            "com.acme.widget".to_string(),
        )),
        Some(("/L/Caches/other".to_string(), "other".to_string())),
        None,
        Some(("/L/Logs/Widget-run.log".to_string(), "Widget-run.log".to_string())),
    ];
    let hits = scan_matches(&entries, Some("com.acme.widget"), "Widget");
    // The folded file name "com.acme.widget" holds both the identifier and
    // the folded display name, so its path is pushed once per key; the
    // pipeline deduplicates later.
    assert_eq!(
        hits,
        strings(&[
            "/L/Application Support/com.acme.widget",
            "/L/Application Support/com.acme.widget",
            "/L/Logs/Widget-run.log",
        ])
    );
}

#[test]
fn scan_matches_can_hit_one_entry_twice() {
    // An entry whose name holds both the identifier and the display name is
    // pushed once per key; deduplication happens later in the pipeline.
    let entries = vec![Some((
        "/L/com.acme.widget-Widget".to_string(),
        "com.acme.widget-Widget".to_string(),
    ))];
    let hits = scan_matches(&entries, Some("com.acme.widget"), "Widget");
    assert_eq!(hits.len(), 2);
    let merged = sort_dedup(&hits);
    assert_eq!(merged, strings(&["/L/com.acme.widget-Widget"]));
}

#[test]
fn sort_dedup_sorts_and_removes_duplicates() {
    let v = strings(&["/b", "/a", "/c", "/a", "/b"]);
    let r = sort_dedup(&v);
    assert_eq!(r, strings(&["/a", "/b", "/c"]));
}

#[test]
fn resolution_is_deterministic_on_fixed_observations() {
    // Two passes over identical observations return identical sequences.
    let v = strings(&["/z", "/m", "/z", "/a"]);
    let first = sort_dedup(&v);
    let second = sort_dedup(&v);
    assert_eq!(first, second);
    let keep = vec![true, false, true];
    assert_eq!(filter_by_flags(&first, &keep), filter_by_flags(&second, &keep));
}

#[test]
fn gone_path_is_excluded_on_re_resolve() {
    // Every kept path had a true existence flag; flipping one flag to
    // false, as after deleting the file, excludes exactly that path.
    let paths = strings(&["/a", "/b", "/c"]);
    let all = filter_by_flags(&paths, &vec![true, true, true]);
    assert_eq!(all, paths);
    let after_delete = filter_by_flags(&paths, &vec![true, false, true]);
    assert_eq!(after_delete, strings(&["/a", "/c"]));
    assert!(!after_delete.contains(&"/b".to_string()));
}

#[test]
fn resolve_with_no_identity_is_empty() {
    // With neither an identifier nor a display name, no source contributes.
    let r = app_uninstaller::resolve::find_related_paths(None, None);
    assert!(r.is_empty());
}

#[test]
fn protected_path_classification() {
    assert!(is_protected_path("/Library/Application Support/x"));
    assert!(is_protected_path("/Applications/Widget.app"));
    assert!(is_protected_path("/private/var/db/receipts/x.plist"));
    assert!(is_protected_path("/usr/local/bin/widget"));
    assert!(is_protected_path("/etc/widget.conf"));
    assert!(!is_protected_path("/Users/me/Library/Caches/com.acme.widget"));
    assert!(!is_protected_path("relative/path"));
}

#[test]
fn category_counts_by_path_shape() {
    let paths = strings(&[
        "/Users/me/Library/Preferences/com.acme.widget.plist",
        "/private/var/db/receipts/com.acme.widget.bom",
        "/Users/me/Library/Caches/com.acme.widget",
        "/Users/me/Library/Application Support/com.acme.widget",
        "/Users/me/Library/Containers/com.acme.widget",
        "/Users/me/Library/Logs/Widget",
        "/Users/me/Library/LaunchAgents/com.acme.widget.plist",
        "/Users/me/Documents/widget-notes",
    ]);
    let c = categorize_counts(&paths);
    // The launch-agent entry ends in ".plist", so it counts under
    // preferences as well; membership is not exclusive.
    assert_eq!(c.preferences, 2);
    assert_eq!(c.receipts, 1);
    assert_eq!(c.caches, 1);
    assert_eq!(c.app_support, 1);
    assert_eq!(c.containers, 1);
    assert_eq!(c.logs, 1);
    assert_eq!(c.launch_agents, 1);
    assert_eq!(c.other, 1);
}

#[test]
fn text_predicates_behave_like_std() {
    assert!(contains_str("/Applications/Widget.app/", "/widget.app/".to_lowercase().as_str()) == false);
    assert!(contains_str("/applications/widget.app/", "/widget.app/"));
    assert!(starts_with_str("/Library/Caches", "/Library"));
    assert!(!starts_with_str("/Users/Library", "/Library"));
    assert!(ends_with_str("com.acme.widget.plist", ".plist"));
    assert!(!ends_with_str("plist", "...plist"));
    assert!(le_str("abc", "abd"));
    assert!(le_str("abc", "abc"));
    assert!(!le_str("b", "aaaa"));
    assert!(le_str("abc", "abcd"));
}
