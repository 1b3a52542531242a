//! Bundle discovery.
//!
//! Enumerates the immediate children of the two canonical application root
//! directories, extracts identity for each bundle, evaluates running state
//! against one process snapshot taken at the start, and returns records
//! sorted by display name, together with the coarse progress events of the
//! run.  A per-root read failure fails the whole discovery call: the caller
//! sees either a complete inventory or a hard error.

use vstd::prelude::*;
use vstd::string::StringExecFns;

use crate::fsio::{path_exists, path_is_dir, walk_dir_entries};
use crate::matcher::{is_app_running, spec_is_running};
use crate::metadata::read_info_from_app;
use crate::paths::candidate_app_dirs;
use crate::procs::process_snapshot;
use crate::progress::{
    events_kind, events_monotone, events_no_error, events_wf, lemma_equal_den_monotone,
    no_terminal, terminal_last,
};
use crate::text::{after_last_spec, after_last_str, ends_with_seq, ends_with_str, lex_le};
use crate::types::{AppInfo, ProcessInfo, ProgressUpdate, ScanError, TaskKind};

verus! {

/// File names with the bundle extension.
pub open spec fn spec_has_bundle_ext(name: Seq<char>) -> bool {
    name.len() > 4 && ends_with_seq(name, ".app"@)
}

pub fn has_bundle_ext(name: &str) -> (r: bool)
    ensures
        r == spec_has_bundle_ext(name@),
{
    name.unicode_len() > 4 && ends_with_str(name, ".app")
}

/// Build one application record from a bundle path, its extracted identity,
/// and the shared process snapshot.  The display name falls back to the last
/// path component when the metadata gave none; the running flag is the
/// layered matcher's verdict on the extracted identity.
pub fn make_record(
    path: &String,
    bid: Option<String>,
    name: Option<String>,
    procs: &Vec<ProcessInfo>,
) -> (r: AppInfo)
    ensures
        r.path@ == path@,
        r.bundle_id == bid,
        r.name@ == match name {
            Some(n) => n@,
            None => after_last_spec(path@, '/'),
        },
        r.running == spec_is_running(
            match bid {
                Some(b) => Some(b@),
                None => None,
            },
            match name {
                Some(n) => Some(n@),
                None => None,
            },
            procs@,
        ),
{
    let bid_ref: Option<&str> = match &bid {
        Some(b) => Some(b.as_str()),
        None => None,
    };
    let name_ref: Option<&str> = match &name {
        Some(n) => Some(n.as_str()),
        None => None,
    };
    let running = is_app_running(procs, bid_ref, name_ref);
    let display = match name {
        Some(n) => n,
        None => String::from_str(after_last_str(path.as_str(), '/')),
    };
    AppInfo { path: path.clone(), name: display, bundle_id: bid, running }
}

/// View of an optional owned string.
pub open spec fn opt_string_view(s: Option<String>) -> Option<Seq<char>> {
    match s {
        Some(x) => Some(x@),
        None => None,
    }
}

/// `r` is the record `make_record` builds for a bundle at `path` whose
/// extracted identity is `id`, against the snapshot `procs`.
pub open spec fn is_record_for(
    r: AppInfo,
    path: String,
    id: (Option<String>, Option<String>),
    procs: Seq<ProcessInfo>,
) -> bool {
    &&& r.path@ == path@
    &&& r.bundle_id == id.0
    &&& r.name@ == match id.1 {
        Some(n) => n@,
        None => after_last_spec(path@, '/'),
    }
    &&& r.running == spec_is_running(opt_string_view(id.0), opt_string_view(id.1), procs)
}

/// `v` holds exactly one record per walk entry whose file name has the
/// bundle extension, in walk order, each shaped by `make_record` from that
/// entry's path and its extracted identity; an unreadable entry admits no
/// record list at all.
pub open spec fn spec_records_of(
    entries: Seq<Option<(String, String)>>,
    ids: Seq<(Option<String>, Option<String>)>,
    procs: Seq<ProcessInfo>,
    v: Seq<AppInfo>,
) -> bool
    decreases entries.len(),
{
    if entries.len() == 0 || ids.len() == 0 {
        v.len() == 0
    } else {
        match entries.last() {
            None => false,
            Some(pf) => {
                if spec_has_bundle_ext(pf.1@) {
                    &&& v.len() > 0
                    &&& is_record_for(v.last(), pf.0, ids.last(), procs)
                    &&& spec_records_of(entries.drop_last(), ids.drop_last(), procs, v.drop_last())
                } else {
                    spec_records_of(entries.drop_last(), ids.drop_last(), procs, v)
                }
            },
        }
    }
}

/// `recs` is what scanning one root can yield: the records of some walk,
/// every entry readable, one record per bundle entry in walk order.  An
/// absent or empty root yields the empty sequence.
pub open spec fn spec_root_scan(recs: Seq<AppInfo>, procs: Seq<ProcessInfo>) -> bool {
    exists|entries: Seq<Option<(String, String)>>, ids: Seq<(Option<String>, Option<String>)>|
        spec_records_of(entries, ids, procs, recs)
}

/// Build the records for a directory's walk entries, one per bundle entry,
/// given the identity extracted for each entry.
pub fn records_from_entries(
    entries: &Vec<Option<(String, String)>>,
    identities: &Vec<(Option<String>, Option<String>)>,
    procs: &Vec<ProcessInfo>,
) -> (r: Vec<AppInfo>)
    requires
        entries@.len() == identities@.len(),
        forall|i: int| 0 <= i < entries@.len() ==> entries@[i] is Some,
    ensures
        spec_records_of(entries@, identities@, procs@, r@),
{
    let mut r: Vec<AppInfo> = Vec::new();
    proof {
        assert(entries@.subrange(0, 0) =~= Seq::<Option<(String, String)>>::empty());
        assert(identities@.subrange(0, 0) =~= Seq::<(Option<String>, Option<String>)>::empty());
    }
    let mut i: usize = 0;
    while i < entries.len()
        invariant
            i <= entries@.len(),
            entries@.len() == identities@.len(),
            forall|j: int| 0 <= j < entries@.len() ==> entries@[j] is Some,
            spec_records_of(
                entries@.subrange(0, i as int),
                identities@.subrange(0, i as int),
                procs@,
                r@,
            ),
        decreases entries.len() - i,
    {
        let ghost pre = r@;
        match &entries[i] {
            None => {
                proof {
                    assert(false);
                }
            },
            Some(pf) => {
                if has_bundle_ext(pf.1.as_str()) {
                    let id = &identities[i];
                    let bid: Option<String> = match &id.0 {
                        Some(b) => Some(b.clone()),
                        None => None,
                    };
                    let name: Option<String> = match &id.1 {
                        Some(n) => Some(n.clone()),
                        None => None,
                    };
                    proof {
                        assert(bid == identities@[i as int].0);
                        assert(name == identities@[i as int].1);
                    }
                    r.push(make_record(&pf.0, bid, name, procs));
                }
            },
        }
        proof {
            assert(entries@.subrange(0, i + 1).drop_last() =~= entries@.subrange(0, i as int));
            assert(identities@.subrange(0, i + 1).drop_last() =~= identities@.subrange(
                0,
                i as int,
            ));
            assert(entries@.subrange(0, i + 1).last() == entries@[i as int]);
            assert(identities@.subrange(0, i + 1).last() == identities@[i as int]);
            if entries@[i as int] matches Some(pf) && spec_has_bundle_ext(pf.1@) {
                assert(r@.drop_last() =~= pre);
            }
        }
        i += 1;
    }
    proof {
        assert(entries@.subrange(0, entries@.len() as int) =~= entries@);
        assert(identities@.subrange(0, identities@.len() as int) =~= identities@);
    }
    r
}

/// Scan one directory's immediate children for bundles and build their
/// records: one per child with the bundle extension, against the shared
/// snapshot.  Any unreadable entry fails the whole scan with a `ScanError`
/// naming the directory.
pub fn scan_apps_in_dir(procs: &Vec<ProcessInfo>, dir: &str) -> (r: Result<Vec<AppInfo>, ScanError>)
    ensures
        r matches Err(e) ==> e.root@ == dir@,
        r matches Ok(v) ==> spec_root_scan(v@, procs@),
{
    let entries = walk_dir_entries(dir, 1);
    let mut identities: Vec<(Option<String>, Option<String>)> = Vec::new();
    let mut i: usize = 0;
    while i < entries.len()
        invariant
            i <= entries@.len(),
            identities@.len() == i,
            forall|j: int| 0 <= j < i ==> entries@[j] is Some,
        decreases entries.len() - i,
    {
        match &entries[i] {
            None => {
                return Err(ScanError { root: String::from_str(dir) });
            },
            Some(pf) => {
                if has_bundle_ext(pf.1.as_str()) {
                    let id = match read_info_from_app(pf.0.as_str()) {
                        Ok(t) => t,
                        Err(_) => (None, None),
                    };
                    identities.push(id);
                } else {
                    identities.push((None, None));
                }
            },
        }
        i += 1;
    }
    let v = records_from_entries(&entries, &identities, procs);
    proof {
        assert(spec_records_of(entries@, identities@, procs@, v@));
        assert(spec_root_scan(v@, procs@));
    }
    Ok(v)
}

/// Records in ascending display-name order.
pub open spec fn sorted_by_name(s: Seq<AppInfo>) -> bool {
    forall|i: int, j: int| 0 <= i <= j < s.len() ==> lex_le(s[i].name@, s[j].name@)
}

/// Insert a record into a name-sorted vector, keeping it sorted.
fn insert_record_sorted(out: &mut Vec<AppInfo>, x: AppInfo)
    requires
        sorted_by_name(old(out)@),
    ensures
        sorted_by_name(final (out)@),
        final (out)@.to_multiset() == old(out)@.to_multiset().insert(x),
{
    broadcast use vstd::seq_lib::group_to_multiset_ensures;

    let ghost vo = out@;
    let n: usize = out.len();
    let mut pos: usize = 0;
    while pos < n && crate::text::le_str(out[pos].name.as_str(), x.name.as_str())
        invariant
            pos <= n,
            n == out@.len(),
            vo == out@,
            sorted_by_name(vo),
            forall|j: int| 0 <= j < pos ==> lex_le(vo[j].name@, x.name@),
        decreases n - pos,
    {
        pos += 1;
    }
    proof {
        if pos < n {
            crate::text::lemma_lex_le_total(vo[pos as int].name@, x.name@);
        }
    }
    out.insert(pos, x);
    proof {
        assert(out@ =~= vo.insert(pos as int, x));
        assert(sorted_by_name(out@)) by {
            assert forall|i: int, j: int| 0 <= i <= j < out@.len() implies lex_le(
                out@[i].name@,
                out@[j].name@,
            ) by {
                let k = pos as int;
                if i == j {
                    crate::text::lemma_lex_le_total(out@[i].name@, out@[i].name@);
                } else if j < k {
                    assert(out@[i] == vo[i] && out@[j] == vo[j]);
                } else if i > k {
                    assert(out@[i] == vo[i - 1] && out@[j] == vo[j - 1]);
                } else if i < k && j == k {
                    assert(out@[i] == vo[i] && out@[j] == x);
                } else if i == k && j > k {
                    assert(out@[i] == x && out@[j] == vo[j - 1]);
                    if k < vo.len() {
                        crate::text::lemma_lex_le_trans(x.name@, vo[k].name@, vo[j - 1].name@);
                    }
                } else {
                    assert(out@[i] == vo[i] && out@[j] == vo[j - 1]);
                }
            }
        }
    }
}

/// Sort records by display name.  The result holds exactly the input
/// records.
pub fn sort_records(v: Vec<AppInfo>) -> (r: Vec<AppInfo>)
    ensures
        sorted_by_name(r@),
        r@.to_multiset() == v@.to_multiset(),
{
    broadcast use vstd::seq_lib::group_to_multiset_ensures;

    let ghost orig = v@;
    let mut v = v;
    let mut r: Vec<AppInfo> = Vec::new();
    proof {
        assert(r@.to_multiset().add(v@.to_multiset()) =~= orig.to_multiset()) by {
            assert(r@.to_multiset().len() == 0);
            assert(r@.to_multiset() =~= vstd::multiset::Multiset::<AppInfo>::empty());
        }
    }
    while v.len() > 0
        invariant
            sorted_by_name(r@),
            r@.to_multiset().add(v@.to_multiset()) == orig.to_multiset(),
        decreases v.len(),
    {
        let ghost vpre = v@;
        let ghost rpre = r@;
        let x = match v.pop() {
            Some(x) => x,
            None => {
                proof {
                    assert(false);
                }
                unreached()
            },
        };
        insert_record_sorted(&mut r, x);
        proof {
            assert(vpre =~= v@.push(x));
            vstd::seq_lib::to_multiset_build(v@, x);
            assert(vpre.to_multiset() == v@.to_multiset().insert(x));
            assert(r@.to_multiset() == rpre.to_multiset().insert(x));
            assert(r@.to_multiset().add(v@.to_multiset()) =~= orig.to_multiset());
        }
    }
    proof {
        assert(v@.to_multiset() =~= vstd::multiset::Multiset::<AppInfo>::empty());
        assert(r@.to_multiset() =~= orig.to_multiset());
    }
    r
}

/// The inventory is what the two candidate roots' scans yield against one
/// shared snapshot, reordered only by the final sort by display name.
pub open spec fn spec_discovered(apps: Seq<AppInfo>, procs: Seq<ProcessInfo>) -> bool {
    exists|r1: Seq<AppInfo>, r2: Seq<AppInfo>|
        apps.to_multiset() == (r1 + r2).to_multiset() && spec_root_scan(r1, procs)
            && spec_root_scan(r2, procs)
}

/// The inventory is a discovery outcome for some process snapshot.
pub open spec fn spec_inventory(apps: Seq<AppInfo>) -> bool {
    exists|procs: Seq<ProcessInfo>| spec_discovered(apps, procs)
}

/// Discover the application inventory: scan the candidate roots, in fixed
/// order and skipping absent ones, against one process snapshot taken at
/// the start, and return the records sorted by display name, with the
/// coarse progress events of the run.  Every event is non-terminal and
/// error-free with a fraction below 1; the caller frames the run with its
/// own start and terminal events.
pub fn find_app_bundles_progress() -> (r: Result<(Vec<AppInfo>, Vec<ProgressUpdate>), ScanError>)
    ensures
        r matches Ok(t) ==> sorted_by_name(t.0@) && spec_inventory(t.0@) && events_monotone(t.1@)
            && events_wf(t.1@) && no_terminal(t.1@) && events_no_error(t.1@) && events_kind(
            t.1@,
            TaskKind::RefreshApps,
        ),
{
    let candidates = candidate_app_dirs();
    let total: usize = candidates.len();
    let den: usize = 20 * total;
    let procs = process_snapshot();
    let mut res: Vec<AppInfo> = Vec::new();
    let mut events: Vec<ProgressUpdate> = Vec::new();
    let ghost mut part1: Seq<AppInfo> = Seq::empty();
    let ghost mut part2: Seq<AppInfo> = Seq::empty();
    let mut idx: usize = 0;
    while idx < total
        invariant
            total == 2,
            den == 40,
            idx <= total,
            candidates@.len() == total,
            idx >= 1 ==> spec_root_scan(part1, procs@),
            idx >= 2 ==> spec_root_scan(part2, procs@),
            res@ == (if idx == 0 {
                Seq::<AppInfo>::empty()
            } else if idx == 1 {
                part1
            } else {
                part1 + part2
            }),
            forall|k: int|
                0 <= k < events@.len() ==> (#[trigger] events@[k]).progress_den == 40 && events@[
                    k].progress_num <= 18 * idx && events@[k].progress_num <= 40 && !events@[
                    k].finished && events@[k].error is None && events@[k].kind
                    == TaskKind::RefreshApps,
            forall|k1: int, k2: int|
                0 <= k1 <= k2 < events@.len() ==> (#[trigger] events@[k1]).progress_num <= (
                #[trigger] events@[k2]).progress_num,
        decreases total - idx,
    {
        let dir = &candidates[idx];
        events.push(
            ProgressUpdate {
                kind: TaskKind::RefreshApps,
                progress_num: 20 * idx,
                progress_den: den,
                message: String::from_str("Scanning ").concat(dir.as_str()),
                finished: false,
                error: None,
            },
        );
        let ghost mut root_recs: Seq<AppInfo> = Seq::empty();
        if path_exists(dir.as_str()) && path_is_dir(dir.as_str()) {
            match scan_apps_in_dir(&procs, dir.as_str()) {
                Ok(mut v) => {
                    proof {
                        root_recs = v@;
                    }
                    res.append(&mut v);
                },
                Err(e) => {
                    return Err(e);
                },
            }
        }
        proof {
            assert(spec_records_of(
                Seq::<Option<(String, String)>>::empty(),
                Seq::<(Option<String>, Option<String>)>::empty(),
                procs@,
                Seq::<AppInfo>::empty(),
            ));
            assert(spec_root_scan(Seq::<AppInfo>::empty(), procs@));
            assert(spec_root_scan(root_recs, procs@));
            if idx == 0 {
                part1 = root_recs;
            } else {
                part2 = root_recs;
            }
        }
        events.push(
            ProgressUpdate {
                kind: TaskKind::RefreshApps,
                progress_num: 18 * (idx + 1),
                progress_den: den,
                message: String::from_str("Scanned ").concat(dir.as_str()),
                finished: false,
                error: None,
            },
        );
        idx += 1;
    }
    proof {
        assert(res@ == part1 + part2);
    }
    let sorted = sort_records(res);
    events.push(
        ProgressUpdate {
            kind: TaskKind::RefreshApps,
            progress_num: 19 * total,
            progress_den: den,
            message: String::from_str("Finalizing..."),
            finished: false,
            error: None,
        },
    );
    proof {
        lemma_equal_den_monotone(events@, 40);
        assert(sorted@.to_multiset() == (part1 + part2).to_multiset());
        assert(spec_discovered(sorted@, procs@));
        assert(spec_inventory(sorted@));
    }
    Ok((sorted, events))
}

/// The event with which a discovery run is announced.
pub fn discovery_start_event() -> (e: ProgressUpdate)
    ensures
        e.kind == TaskKind::RefreshApps,
        e.progress_num == 0,
        e.progress_den == 1,
        !e.finished,
        e.error is None,
{
    ProgressUpdate {
        kind: TaskKind::RefreshApps,
        progress_num: 0,
        progress_den: 1,
        message: String::from_str("Scanning /Applications and ~/Applications..."),
        finished: false,
        error: None,
    }
}

/// The terminal event that closes a discovery run, at progress 1 whether it
/// succeeded or failed.
pub fn discovery_done_event(error: Option<String>) -> (e: ProgressUpdate)
    ensures
        e.kind == TaskKind::RefreshApps,
        e.progress_num == 1,
        e.progress_den == 1,
        e.finished,
        e.error == error,
        e.message@ == if error is Some {
            "Failed."@
        } else {
            "Done."@
        },
{
    let message = if error.is_some() {
        String::from_str("Failed.")
    } else {
        String::from_str("Done.")
    };
    ProgressUpdate {
        kind: TaskKind::RefreshApps,
        progress_num: 1,
        progress_den: 1,
        message,
        finished: true,
        error,
    }
}

/// The paced event stream with which a resolve run reports activity: one
/// event per simulated step, then a terminal event at progress 1.
pub fn related_progress_events(idx: usize, found: usize) -> (evs: Vec<ProgressUpdate>)
    requires
        found < usize::MAX,
    ensures
        events_monotone(evs@),
        events_wf(evs@),
        terminal_last(evs@),
        events_no_error(evs@),
        events_kind(evs@, TaskKind::RefreshRelated(idx)),
{
    let steps: usize = if found > 4 {
        found
    } else {
        4
    };
    let mut evs: Vec<ProgressUpdate> = Vec::new();
    let mut i: usize = 0;
    while i <= steps
        invariant
            i <= steps + 1,
            4 <= steps < usize::MAX,
            evs@.len() == i,
            forall|k: int|
                0 <= k < evs@.len() ==> (#[trigger] evs@[k]).progress_num == k && evs@[
                    k].progress_den == steps && !evs@[k].finished && evs@[k].error is None && evs@[
                    k].kind == TaskKind::RefreshRelated(idx),
        decreases steps + 1 - i,
    {
        evs.push(
            ProgressUpdate {
                kind: TaskKind::RefreshRelated(idx),
                progress_num: i,
                progress_den: steps,
                message: String::from_str("Finding related files..."),
                finished: false,
                error: None,
            },
        );
        i += 1;
    }
    let ghost pre = evs@;
    evs.push(
        ProgressUpdate {
            kind: TaskKind::RefreshRelated(idx),
            progress_num: 1,
            progress_den: 1,
            message: String::from_str("Related files loaded"),
            finished: true,
            error: None,
        },
    );
    proof {
        let last = evs@.len() - 1;
        assert(forall|k: int| 0 <= k < last ==> evs@[k] == pre[k]);
        assert forall|a: int, b: int| 0 <= a <= b < evs@.len() implies crate::progress::frac_le(
            evs@[a],
            evs@[b],
        ) by {
            if b < last {
                vstd::arithmetic::mul::lemma_mul_inequality(
                    evs@[a].progress_num as int,
                    evs@[b].progress_num as int,
                    steps as int,
                );
            } else if a < last {
                assert(evs@[a].progress_num <= steps);
            }
        }
    }
    evs
}

} // verus!
