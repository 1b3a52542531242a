//! Well-known path construction and path classification.

use vstd::prelude::*;
use vstd::string::StringExecFns;

use crate::fsio::home_dir_string;
use crate::text::{
    contains_seq, contains_str, ends_with_seq, ends_with_str, lower_of, starts_with_seq,
    starts_with_str, to_lower,
};

verus! {

/// View of an optional owned string.
pub open spec fn view_opt_string(s: Option<&String>) -> Option<Seq<char>> {
    match s {
        Some(x) => Some(x@),
        None => None,
    }
}

/// The two canonical application root directories, system-wide first.  With
/// no home directory the per-user entry degrades to the empty path, which
/// never exists and is skipped by discovery.
pub open spec fn spec_candidate_app_dirs(home: Option<Seq<char>>) -> Seq<Seq<char>> {
    match home {
        Some(h) => seq!["/Applications"@, h + "/Applications"@],
        None => seq!["/Applications"@, Seq::<char>::empty()],
    }
}

pub fn candidate_app_dirs_with_home(home: Option<&String>) -> (r: Vec<String>)
    ensures
        r.deep_view() == spec_candidate_app_dirs(view_opt_string(home)),
{
    let mut r: Vec<String> = Vec::new();
    r.push(String::from_str("/Applications"));
    match home {
        Some(h) => r.push(h.clone().concat("/Applications")),
        None => r.push(String::new()),
    }
    proof {
        assert(r.deep_view() =~~= spec_candidate_app_dirs(view_opt_string(home)));
    }
    r
}

/// The list of application directories to scan (system and user
/// Applications), for whatever home directory the environment reports.
pub fn candidate_app_dirs() -> (r: Vec<String>)
    ensures
        exists|h: Option<Seq<char>>| r.deep_view() == spec_candidate_app_dirs(h),
        r@.len() == 2,
{
    let home = home_dir_string();
    let home_ref = home.as_ref();
    let r = candidate_app_dirs_with_home(home_ref);
    proof {
        assert(r.deep_view() == spec_candidate_app_dirs(view_opt_string(home_ref)));
        assert(spec_candidate_app_dirs(view_opt_string(home_ref)).len() == 2);
        assert(r@.len() == r.deep_view().len());
    }
    r
}

/// The deterministic per-identifier artifact paths: the user's
/// application-support, caches, preferences and containers entries, then the
/// system-wide application-support and preferences entries.
pub open spec fn spec_common_paths(home: Option<Seq<char>>, bid: Seq<char>) -> Seq<Seq<char>> {
    let sys = seq![
        "/Library/Application Support/"@ + bid,
        "/Library/Preferences/"@ + bid + ".plist"@,
    ];
    match home {
        Some(h) => seq![
            h + "/Library/Application Support/"@ + bid,
            h + "/Library/Caches/"@ + bid,
            h + "/Library/Preferences/"@ + bid + ".plist"@,
            h + "/Library/Containers/"@ + bid,
        ] + sys,
        None => sys,
    }
}

pub fn common_paths_with_home(home: Option<&String>, bid: &str) -> (r: Vec<String>)
    ensures
        r.deep_view() == spec_common_paths(view_opt_string(home), bid@),
{
    let mut r: Vec<String> = Vec::new();
    if let Some(h) = home {
        r.push(h.clone().concat("/Library/Application Support/").concat(bid));
        r.push(h.clone().concat("/Library/Caches/").concat(bid));
        r.push(h.clone().concat("/Library/Preferences/").concat(bid).concat(".plist"));
        r.push(h.clone().concat("/Library/Containers/").concat(bid));
    }
    r.push(String::from_str("/Library/Application Support/").concat(bid));
    r.push(String::from_str("/Library/Preferences/").concat(bid).concat(".plist"));
    proof {
        assert(r.deep_view() =~~= spec_common_paths(view_opt_string(home), bid@));
    }
    r
}

/// The per-identifier artifact paths, for whatever home directory the
/// environment reports.
pub fn common_paths_for_bundle_id(bid: &str) -> (r: Vec<String>)
    ensures
        exists|h: Option<Seq<char>>| r.deep_view() == spec_common_paths(h, bid@),
{
    let home = home_dir_string();
    let home_ref = home.as_ref();
    let r = common_paths_with_home(home_ref, bid);
    proof {
        assert(r.deep_view() == spec_common_paths(view_opt_string(home_ref), bid@));
    }
    r
}

/// A path whose root lies under a system-owned location; removing such an
/// artifact is likely to require elevated privilege, so its failures are
/// fatal to an uninstall.  On current systems protected locations can also
/// be mounted under the system-volume data prefixes, which is why those
/// stand in the list beside their plain forms.
pub open spec fn spec_is_protected(p: Seq<char>) -> bool {
    ||| starts_with_seq(p, "/Library"@)
    ||| starts_with_seq(p, "/System"@)
    ||| starts_with_seq(p, "/System/Volumes"@)
    ||| starts_with_seq(p, "/System/Volumes/Data"@)
    ||| starts_with_seq(p, "/Applications"@)
    ||| starts_with_seq(p, "/private"@)
    ||| starts_with_seq(p, "/usr"@)
    ||| starts_with_seq(p, "/bin"@)
    ||| starts_with_seq(p, "/sbin"@)
    ||| starts_with_seq(p, "/var"@)
    ||| starts_with_seq(p, "/opt"@)
    ||| starts_with_seq(p, "/etc"@)
}

pub fn is_protected_path(p: &str) -> (r: bool)
    ensures
        r == spec_is_protected(p@),
{
    starts_with_str(p, "/Library") || starts_with_str(p, "/System") || starts_with_str(
        p,
        "/System/Volumes",
    ) || starts_with_str(p, "/System/Volumes/Data") || starts_with_str(p, "/Applications")
        || starts_with_str(p, "/private") || starts_with_str(p, "/usr") || starts_with_str(
        p,
        "/bin",
    ) || starts_with_str(p, "/sbin") || starts_with_str(p, "/var") || starts_with_str(p, "/opt")
        || starts_with_str(p, "/etc")
}

/// Category predicates inferred from path shape.  A path may fall in more
/// than one category; one in none of them counts as "other".
pub open spec fn spec_is_preferences(p: Seq<char>) -> bool {
    contains_seq(lower_of(p), "/library/preferences"@) || ends_with_seq(p, ".plist"@)
}

pub open spec fn spec_is_receipts(p: Seq<char>) -> bool {
    starts_with_seq(lower_of(p), "/private/var/db/receipts"@) || contains_seq(
        lower_of(p),
        "/library/receipts"@,
    )
}

pub open spec fn spec_is_caches(p: Seq<char>) -> bool {
    contains_seq(lower_of(p), "/library/caches"@)
}

pub open spec fn spec_is_app_support(p: Seq<char>) -> bool {
    contains_seq(lower_of(p), "/library/application support"@)
}

pub open spec fn spec_is_containers(p: Seq<char>) -> bool {
    contains_seq(lower_of(p), "/library/containers"@)
}

pub open spec fn spec_is_logs(p: Seq<char>) -> bool {
    contains_seq(lower_of(p), "/library/logs"@)
}

pub open spec fn spec_is_launch_agents(p: Seq<char>) -> bool {
    contains_seq(lower_of(p), "/library/launchagents"@)
}

pub open spec fn spec_is_other(p: Seq<char>) -> bool {
    !spec_is_preferences(p) && !spec_is_receipts(p) && !spec_is_caches(p) && !spec_is_app_support(
        p,
    ) && !spec_is_containers(p) && !spec_is_logs(p) && !spec_is_launch_agents(p)
}

/// How many artifacts of each category a path list holds.
pub struct CategoryCounts {
    pub preferences: usize,
    pub receipts: usize,
    pub caches: usize,
    pub app_support: usize,
    pub containers: usize,
    pub logs: usize,
    pub launch_agents: usize,
    pub other: usize,
}

/// How many of the first `n` paths satisfy `pred`.
pub open spec fn count_matching(
    paths: Seq<Seq<char>>,
    pred: spec_fn(Seq<char>) -> bool,
) -> nat
    decreases paths.len(),
{
    if paths.len() == 0 {
        0
    } else {
        count_matching(paths.drop_last(), pred) + if pred(paths.last()) {
            1nat
        } else {
            0
        }
    }
}

pub proof fn lemma_count_matching_le_len(paths: Seq<Seq<char>>, pred: spec_fn(Seq<char>) -> bool)
    ensures
        count_matching(paths, pred) <= paths.len(),
    decreases paths.len(),
{
    if paths.len() > 0 {
        lemma_count_matching_le_len(paths.drop_last(), pred);
    }
}

impl CategoryCounts {
    pub open spec fn matches(&self, paths: Seq<Seq<char>>) -> bool {
        &&& self.preferences == count_matching(paths, |p: Seq<char>| spec_is_preferences(p))
        &&& self.receipts == count_matching(paths, |p: Seq<char>| spec_is_receipts(p))
        &&& self.caches == count_matching(paths, |p: Seq<char>| spec_is_caches(p))
        &&& self.app_support == count_matching(paths, |p: Seq<char>| spec_is_app_support(p))
        &&& self.containers == count_matching(paths, |p: Seq<char>| spec_is_containers(p))
        &&& self.logs == count_matching(paths, |p: Seq<char>| spec_is_logs(p))
        &&& self.launch_agents == count_matching(paths, |p: Seq<char>| spec_is_launch_agents(p))
        &&& self.other == count_matching(paths, |p: Seq<char>| spec_is_other(p))
    }
}

fn is_preferences_path(p: &str) -> (r: bool)
    ensures
        r == spec_is_preferences(p@),
{
    let low = to_lower(p);
    contains_str(low.as_str(), "/library/preferences") || ends_with_str(p, ".plist")
}

fn is_receipts_path(p: &str) -> (r: bool)
    ensures
        r == spec_is_receipts(p@),
{
    let low = to_lower(p);
    starts_with_str(low.as_str(), "/private/var/db/receipts") || contains_str(
        low.as_str(),
        "/library/receipts",
    )
}

/// Count the artifacts of each category in a path list, as presented beside
/// an artifact listing.
pub fn categorize_counts(paths: &Vec<String>) -> (r: CategoryCounts)
    ensures
        r.matches(paths.deep_view()),
{
    let ghost dv = paths.deep_view();
    let mut r = CategoryCounts {
        preferences: 0,
        receipts: 0,
        caches: 0,
        app_support: 0,
        containers: 0,
        logs: 0,
        launch_agents: 0,
        other: 0,
    };
    proof {
        assert(dv.subrange(0, 0) =~~= Seq::<Seq<char>>::empty());
    }
    let mut i: usize = 0;
    while i < paths.len()
        invariant
            i <= paths@.len(),
            dv == paths.deep_view(),
            dv.len() == paths@.len(),
            r.matches(dv.subrange(0, i as int)),
        decreases paths.len() - i,
    {
        proof {
            lemma_count_matching_le_len(
                dv.subrange(0, i as int),
                |p: Seq<char>| spec_is_preferences(p),
            );
            lemma_count_matching_le_len(dv.subrange(0, i as int), |p: Seq<char>| spec_is_receipts(p));
            lemma_count_matching_le_len(dv.subrange(0, i as int), |p: Seq<char>| spec_is_caches(p));
            lemma_count_matching_le_len(
                dv.subrange(0, i as int),
                |p: Seq<char>| spec_is_app_support(p),
            );
            lemma_count_matching_le_len(
                dv.subrange(0, i as int),
                |p: Seq<char>| spec_is_containers(p),
            );
            lemma_count_matching_le_len(dv.subrange(0, i as int), |p: Seq<char>| spec_is_logs(p));
            lemma_count_matching_le_len(
                dv.subrange(0, i as int),
                |p: Seq<char>| spec_is_launch_agents(p),
            );
            lemma_count_matching_le_len(dv.subrange(0, i as int), |p: Seq<char>| spec_is_other(p));
            assert(dv.subrange(0, i + 1).drop_last() =~~= dv.subrange(0, i as int));
            assert(dv.subrange(0, i + 1).last() == dv[i as int]);
        }
        let p = &paths[i];
        let low = to_lower(p.as_str());
        let mut counted = false;
        if is_preferences_path(p.as_str()) {
            r.preferences = r.preferences + 1;
            counted = true;
        }
        if is_receipts_path(p.as_str()) {
            r.receipts = r.receipts + 1;
            counted = true;
        }
        if contains_str(low.as_str(), "/library/caches") {
            r.caches = r.caches + 1;
            counted = true;
        }
        if contains_str(low.as_str(), "/library/application support") {
            r.app_support = r.app_support + 1;
            counted = true;
        }
        if contains_str(low.as_str(), "/library/containers") {
            r.containers = r.containers + 1;
            counted = true;
        }
        if contains_str(low.as_str(), "/library/logs") {
            r.logs = r.logs + 1;
            counted = true;
        }
        if contains_str(low.as_str(), "/library/launchagents") {
            r.launch_agents = r.launch_agents + 1;
            counted = true;
        }
        if !counted {
            r.other = r.other + 1;
        }
        i += 1;
    }
    proof {
        assert(dv.subrange(0, dv.len() as int) =~~= dv);
    }
    r
}

} // verus!
