//! Related-artifact resolver.
//!
//! Combines deterministic well-known paths with a bounded-depth fan-out scan
//! over candidate library roots, then deduplicates, sorts, and keeps only
//! paths that exist at resolution time.  The resolver never mutates the
//! filesystem; it is advisory, and its result must pass a human selection
//! step before any deletion.

use vstd::prelude::*;
use vstd::string::StringExecFns;

use crate::fsio::{home_dir_string, path_exists, path_is_dir, walk_dir_entries};
use crate::matcher::view_opt;
use crate::paths::{common_paths_with_home, spec_common_paths};
use crate::text::{
    contains_chars, contains_seq, le_str, lemma_lex_le_antisym, lemma_lex_le_total,
    lemma_lex_le_trans, lex_le, lower_chars, lower_of,
};

verus! {

/// Strict lexicographic order.
pub open spec fn lex_lt(a: Seq<char>, b: Seq<char>) -> bool {
    lex_le(a, b) && a != b
}

/// Non-strict pairwise sortedness.
pub open spec fn sorted_le(s: Seq<Seq<char>>) -> bool {
    forall|i: int, j: int| 0 <= i <= j < s.len() ==> lex_le(s[i], s[j])
}

/// Pairwise strict sortedness: sorted and free of duplicates.
pub open spec fn strictly_sorted(s: Seq<Seq<char>>) -> bool {
    forall|i: int, j: int| 0 <= i < j < s.len() ==> lex_lt(s[i], s[j])
}

proof fn lemma_subrange_contains<A>(s: Seq<A>, n: int, x: A)
    requires
        0 <= n <= s.len(),
    ensures
        s.subrange(0, n).contains(x) <==> exists|w: int| 0 <= w < n && s[w] == x,
{
    let sub = s.subrange(0, n);
    if sub.contains(x) {
        let w = choose|w: int| 0 <= w < sub.len() && sub[w] == x;
        assert(s[w] == x);
    }
    if exists|w: int| 0 <= w < n && s[w] == x {
        let w = choose|w: int| 0 <= w < n && s[w] == x;
        assert(sub[w] == x);
    }
}

proof fn lemma_insert_contains<A>(s: Seq<A>, k: int, a: A)
    requires
        0 <= k <= s.len(),
    ensures
        forall|y: A| #[trigger] s.insert(k, a).contains(y) <==> (s.contains(y) || y == a),
{
    let t = s.insert(k, a);
    assert(t[k] == a);
    assert forall|y: A| #[trigger] t.contains(y) implies (s.contains(y) || y == a) by {
        let w = choose|w: int| 0 <= w < t.len() && t[w] == y;
        if w < k {
            assert(s[w] == y);
        } else if w > k {
            assert(s[w - 1] == y);
        }
    }
    assert forall|y: A| s.contains(y) implies #[trigger] t.contains(y) by {
        let w = choose|w: int| 0 <= w < s.len() && s[w] == y;
        if w < k {
            assert(t[w] == y);
        } else {
            assert(t[w + 1] == y);
        }
    }
}

/// Insert `x` into a sorted vector, keeping it sorted.
fn insert_sorted(out: &mut Vec<String>, x: String)
    requires
        sorted_le(old(out).deep_view()),
    ensures
        sorted_le(final (out).deep_view()),
        exists|k: int|
            0 <= k <= old(out)@.len() && final (out).deep_view() == old(out).deep_view().insert(
                k,
                x@,
            ),
{
    let ghost dvo = out.deep_view();
    let n: usize = out.len();
    let mut pos: usize = 0;
    while pos < n && le_str(out[pos].as_str(), x.as_str())
        invariant
            pos <= n,
            n == out@.len(),
            dvo == out.deep_view(),
            sorted_le(dvo),
            forall|j: int| 0 <= j < pos ==> lex_le(dvo[j], x@),
        decreases n - pos,
    {
        pos += 1;
    }
    proof {
        assert(pos < n ==> !lex_le(dvo[pos as int], x@));
        if pos < n {
            lemma_lex_le_total(dvo[pos as int], x@);
        }
    }
    out.insert(pos, x);
    proof {
        let dvn = out.deep_view();
        assert(dvn =~~= dvo.insert(pos as int, x@)) by {
            assert(out@ == old(out)@.insert(pos as int, x));
            assert(dvn.len() == dvo.len() + 1);
            assert forall|w: int| 0 <= w < dvn.len() implies dvn[w] == dvo.insert(pos as int, x@)[w] by {
                if w < pos {
                    assert(out@[w] == old(out)@[w]);
                } else if w == pos {
                    assert(out@[w] == x);
                } else {
                    assert(out@[w] == old(out)@[w - 1]);
                }
            }
        }
        assert(sorted_le(dvn)) by {
            assert forall|i: int, j: int| 0 <= i <= j < dvn.len() implies lex_le(dvn[i], dvn[j]) by {
                let k = pos as int;
                if i == j {
                    lemma_lex_le_total(dvn[i], dvn[i]);
                } else if j < k {
                    assert(dvn[i] == dvo[i] && dvn[j] == dvo[j]);
                } else if i > k {
                    assert(dvn[i] == dvo[i - 1] && dvn[j] == dvo[j - 1]);
                } else if i < k && j == k {
                    assert(dvn[i] == dvo[i] && dvn[j] == x@);
                } else if i == k && j > k {
                    assert(dvn[i] == x@ && dvn[j] == dvo[j - 1]);
                    if k < dvo.len() {
                        assert(lex_le(x@, dvo[k]));
                        assert(lex_le(dvo[k], dvo[j - 1]));
                        lemma_lex_le_trans(x@, dvo[k], dvo[j - 1]);
                    }
                } else {
                    // i < k < j: both sides map into the old vector around x
                    assert(dvn[i] == dvo[i] && dvn[j] == dvo[j - 1]);
                    assert(lex_le(dvo[i], dvo[j - 1]));
                }
            }
        }
    }
}

/// Sort a path list and remove duplicate paths.  The result holds exactly
/// the paths of the input, each once, in ascending lexicographic order.
pub fn sort_dedup(v: &Vec<String>) -> (r: Vec<String>)
    ensures
        strictly_sorted(r.deep_view()),
        forall|x: Seq<char>|
            #[trigger] r.deep_view().contains(x) <==> v.deep_view().contains(x),
{
    let ghost dv = v.deep_view();
    let mut sorted: Vec<String> = Vec::new();
    proof {
        assert(dv.subrange(0, 0) =~~= Seq::<Seq<char>>::empty());
    }
    let mut i: usize = 0;
    while i < v.len()
        invariant
            i <= v@.len(),
            dv == v.deep_view(),
            dv.len() == v@.len(),
            sorted_le(sorted.deep_view()),
            forall|x: Seq<char>|
                #[trigger] sorted.deep_view().contains(x) <==> dv.subrange(0, i as int).contains(
                    x,
                ),
        decreases v.len() - i,
    {
        let ghost pre = sorted.deep_view();
        insert_sorted(&mut sorted, v[i].clone());
        proof {
            let k = choose|k: int|
                0 <= k <= pre.len() && sorted.deep_view() == pre.insert(k, dv[i as int]);
            lemma_insert_contains(pre, k, dv[i as int]);
            assert forall|x: Seq<char>| #[trigger]
                sorted.deep_view().contains(x) <==> dv.subrange(0, i + 1).contains(x) by {
                assert(sorted.deep_view().contains(x) <==> (pre.contains(x) || x == dv[i as int]));
                lemma_subrange_contains(dv, i as int, x);
                lemma_subrange_contains(dv, i + 1, x);
                if exists|w: int| 0 <= w < i + 1 && dv[w] == x {
                    let w = choose|w: int| 0 <= w < i + 1 && dv[w] == x;
                    if w < i {
                        assert(exists|w2: int| 0 <= w2 < i && dv[w2] == x);
                    }
                }
            }
        }
        i += 1;
    }
    proof {
        assert(dv.subrange(0, dv.len() as int) =~~= dv);
    }
    // Drop adjacent duplicates; equal paths are adjacent once sorted.
    let ghost sdv = sorted.deep_view();
    let mut r: Vec<String> = Vec::new();
    proof {
        assert(sdv.subrange(0, 0) =~~= Seq::<Seq<char>>::empty());
    }
    let mut j: usize = 0;
    while j < sorted.len()
        invariant
            j <= sorted@.len(),
            sdv == sorted.deep_view(),
            sdv.len() == sorted@.len(),
            sorted_le(sdv),
            strictly_sorted(r.deep_view()),
            forall|k: int| #![trigger r.deep_view()[k]]
                0 <= k < r.deep_view().len() ==> exists|w: int|
                    0 <= w < j && r.deep_view()[k] == sdv[w],
            forall|x: Seq<char>|
                #[trigger] r.deep_view().contains(x) <==> sdv.subrange(0, j as int).contains(x),
        decreases sorted.len() - j,
    {
        let rlen = r.len();
        let dup = if rlen == 0 {
            false
        } else {
            r[rlen - 1] == sorted[j]
        };
        let ghost rdv = r.deep_view();
        let ghost x = sdv[j as int];
        if !dup {
            r.push(sorted[j].clone());
            proof {
                assert(r.deep_view() =~~= rdv.push(x));
                assert(strictly_sorted(r.deep_view())) by {
                    assert forall|i1: int, j1: int|
                        0 <= i1 < j1 < r.deep_view().len() implies lex_lt(
                        r.deep_view()[i1],
                        r.deep_view()[j1],
                    ) by {
                        if j1 == rdv.len() {
                            let y = rdv[i1];
                            let w = choose|w: int| 0 <= w < j && rdv[i1] == sdv[w];
                            assert(lex_le(y, x));
                            if y == x {
                                // an earlier element equal to the new one
                                // would have to equal the last kept element
                                if i1 < rdv.len() - 1 {
                                    assert(lex_lt(rdv[i1], rdv[rdv.len() - 1]));
                                    let w2 = choose|w2: int|
                                        0 <= w2 < j && rdv[rdv.len() - 1] == sdv[w2];
                                    assert(lex_le(rdv[rdv.len() - 1], x));
                                    lemma_lex_le_antisym(rdv[rdv.len() - 1], x);
                                    assert(false);
                                } else {
                                    assert(rdv[i1] == rdv[rdv.len() - 1]);
                                    assert(rdv[rdv.len() - 1] != x);
                                    assert(false);
                                }
                            }
                        }
                    }
                }
            }
        }
        proof {
            assert forall|y: Seq<char>| #[trigger]
                r.deep_view().contains(y) <==> sdv.subrange(0, j + 1).contains(y) by {
                lemma_subrange_contains(sdv, j as int, y);
                lemma_subrange_contains(sdv, j + 1, y);
                if exists|w: int| 0 <= w < j + 1 && sdv[w] == y {
                    let w = choose|w: int| 0 <= w < j + 1 && sdv[w] == y;
                    if w < j {
                        assert(exists|w2: int| 0 <= w2 < j && sdv[w2] == y);
                        assert(rdv.contains(y));
                        if !dup {
                            let k = choose|k: int| 0 <= k < rdv.len() && rdv[k] == y;
                            assert(r.deep_view()[k] == y);
                        }
                    } else {
                        assert(y == x);
                        if dup {
                            assert(rdv[rlen - 1] == x);
                            assert(rdv.contains(y));
                        } else {
                            assert(r.deep_view()[rdv.len() as int] == y);
                        }
                    }
                }
                if r.deep_view().contains(y) {
                    let k = choose|k: int|
                        0 <= k < r.deep_view().len() && r.deep_view()[k] == y;
                    if k < rdv.len() {
                        assert(rdv[k] == y);
                        assert(rdv.contains(y));
                        let w = choose|w: int| 0 <= w < j && sdv[w] == y;
                        assert(exists|w2: int| 0 <= w2 < j + 1 && sdv[w2] == y);
                    } else {
                        assert(y == x);
                        assert(exists|w2: int| 0 <= w2 < j + 1 && sdv[w2] == y);
                    }
                }
            }
            assert forall|k: int| #![trigger r.deep_view()[k]]
                0 <= k < r.deep_view().len() implies exists|w: int|
                0 <= w < j + 1 && r.deep_view()[k] == sdv[w] by {
                if k < rdv.len() {
                    let w = choose|w: int| 0 <= w < j && rdv[k] == sdv[w];
                    assert(r.deep_view()[k] == sdv[w]);
                } else {
                    assert(r.deep_view()[k] == sdv[j as int]);
                }
            }
        }
        j += 1;
    }
    proof {
        assert(sdv.subrange(0, sdv.len() as int) =~~= sdv);
    }
    r
}

/// The paths a single walk entry contributes: its path once per key (the
/// identifier, then the display name) whose folded form occurs in the
/// entry's folded file name.  An unreadable entry contributes nothing.
pub open spec fn spec_entry_hits(
    e: Option<(String, String)>,
    bid: Option<Seq<char>>,
    name: Seq<char>,
) -> Seq<Seq<char>> {
    match e {
        None => Seq::empty(),
        Some(pf) => {
            let by_bid: Seq<Seq<char>> = if bid is Some && contains_seq(
                lower_of(pf.1@),
                lower_of(bid->0),
            ) {
                seq![pf.0@]
            } else {
                Seq::empty()
            };
            let by_name: Seq<Seq<char>> = if contains_seq(lower_of(pf.1@), lower_of(name)) {
                seq![pf.0@]
            } else {
                Seq::empty()
            };
            by_bid + by_name
        },
    }
}

/// All paths the walk entries contribute, in walk order.
pub open spec fn spec_scan_hits(
    entries: Seq<Option<(String, String)>>,
    bid: Option<Seq<char>>,
    name: Seq<char>,
) -> Seq<Seq<char>>
    decreases entries.len(),
{
    if entries.len() == 0 {
        Seq::empty()
    } else {
        spec_scan_hits(entries.drop_last(), bid, name) + spec_entry_hits(
            entries.last(),
            bid,
            name,
        )
    }
}

/// Select the walk entries whose file name correlates with the identifier or
/// the display name.  Unreadable entries are skipped, so one unreadable
/// entry does not abort the scan.
pub fn scan_matches(
    entries: &Vec<Option<(String, String)>>,
    bundle_id: Option<&str>,
    name: &str,
) -> (r: Vec<String>)
    ensures
        r.deep_view() == spec_scan_hits(entries@, view_opt(bundle_id), name@),
{
    let ghost bid_v = view_opt(bundle_id);
    let bid_low: Option<Vec<char>> = match bundle_id {
        Some(b) => Some(lower_chars(b)),
        None => None,
    };
    let name_low = lower_chars(name);
    let mut r: Vec<String> = Vec::new();
    proof {
        assert(entries@.subrange(0, 0) =~= Seq::<Option<(String, String)>>::empty());
    }
    let mut i: usize = 0;
    while i < entries.len()
        invariant
            i <= entries@.len(),
            bid_v == view_opt(bundle_id),
            (bid_low is Some <==> bid_v is Some),
            bid_low is Some ==> bid_low->0@ == lower_of(bid_v->0),
            name_low@ == lower_of(name@),
            r.deep_view() == spec_scan_hits(entries@.subrange(0, i as int), bid_v, name@),
        decreases entries.len() - i,
    {
        let ghost pre = r.deep_view();
        if let Some(pf) = &entries[i] {
            let fl = lower_chars(pf.1.as_str());
            if let Some(b) = &bid_low {
                if contains_chars(&fl, b) {
                    r.push(pf.0.clone());
                }
            }
            if contains_chars(&fl, &name_low) {
                r.push(pf.0.clone());
            }
        }
        proof {
            assert(entries@.subrange(0, i + 1).drop_last() =~= entries@.subrange(0, i as int));
            assert(entries@.subrange(0, i + 1).last() == entries@[i as int]);
            assert(r.deep_view() =~~= pre + spec_entry_hits(entries@[i as int], bid_v, name@));
        }
        i += 1;
    }
    proof {
        assert(entries@.subrange(0, entries@.len() as int) =~= entries@);
    }
    r
}

/// The paths of `paths` whose paired flag is true, in order.
pub open spec fn spec_filter_flags(paths: Seq<Seq<char>>, keep: Seq<bool>) -> Seq<Seq<char>>
    decreases paths.len(),
{
    if paths.len() == 0 || keep.len() == 0 {
        Seq::empty()
    } else {
        spec_filter_flags(paths.drop_last(), keep.drop_last()) + if keep.last() {
            seq![paths.last()]
        } else {
            Seq::empty()
        }
    }
}

/// Extending both lists by one element extends the filtered result by that
/// element exactly when its flag is true.
pub proof fn lemma_filter_flags_push(paths: Seq<Seq<char>>, keep: Seq<bool>, p: Seq<char>, k: bool)
    requires
        paths.len() == keep.len(),
    ensures
        spec_filter_flags(paths.push(p), keep.push(k)) == spec_filter_flags(paths, keep) + if k {
            seq![p]
        } else {
            Seq::<Seq<char>>::empty()
        },
{
    assert(paths.push(p).drop_last() =~~= paths);
    assert(keep.push(k).drop_last() =~= keep);
    assert(paths.push(p).last() == p);
    assert(keep.push(k).last() == k);
}

/// Every retained path stands in the input at a position whose flag is true:
/// the existence filter never invents a path.
pub proof fn lemma_filter_flags_elem(paths: Seq<Seq<char>>, keep: Seq<bool>, k: int)
    requires
        paths.len() == keep.len(),
        0 <= k < spec_filter_flags(paths, keep).len(),
    ensures
        exists|w: int|
            0 <= w < paths.len() && spec_filter_flags(paths, keep)[k] == paths[w] && keep[w],
    decreases paths.len(),
{
    let f = spec_filter_flags(paths, keep);
    let fp = spec_filter_flags(paths.drop_last(), keep.drop_last());
    if k < fp.len() {
        assert(f[k] == fp[k]);
        lemma_filter_flags_elem(paths.drop_last(), keep.drop_last(), k);
        let w = choose|w: int|
            0 <= w < paths.drop_last().len() && fp[k] == paths.drop_last()[w]
                && keep.drop_last()[w];
        assert(f[k] == paths[w] && keep[w]);
    } else {
        assert(keep.last());
        assert(f[k] == paths.last());
        assert(f[k] == paths[paths.len() - 1] && keep[keep.len() - 1]);
    }
}

/// Filtering a strictly sorted path list keeps it strictly sorted.
pub proof fn lemma_filter_flags_strict(paths: Seq<Seq<char>>, keep: Seq<bool>)
    requires
        paths.len() == keep.len(),
        strictly_sorted(paths),
    ensures
        strictly_sorted(spec_filter_flags(paths, keep)),
    decreases paths.len(),
{
    if paths.len() > 0 {
        let f = spec_filter_flags(paths, keep);
        let fp = spec_filter_flags(paths.drop_last(), keep.drop_last());
        assert(strictly_sorted(paths.drop_last())) by {
            assert(forall|i: int, j: int|
                0 <= i < j < paths.drop_last().len() ==> paths.drop_last()[i] == paths[i]
                    && paths.drop_last()[j] == paths[j]);
        }
        lemma_filter_flags_strict(paths.drop_last(), keep.drop_last());
        assert forall|i: int, j: int|
            0 <= i < j < spec_filter_flags(paths, keep).len() implies lex_lt(
            spec_filter_flags(paths, keep)[i],
            spec_filter_flags(paths, keep)[j],
        ) by {
            if j < fp.len() {
                assert(f[i] == fp[i] && f[j] == fp[j]);
            } else {
                assert(keep.last() && f[j] == paths.last());
                assert(f[i] == fp[i]);
                lemma_filter_flags_elem(paths.drop_last(), keep.drop_last(), i);
                let w = choose|w: int|
                    0 <= w < paths.drop_last().len() && fp[i] == paths.drop_last()[w]
                        && keep.drop_last()[w];
                assert(f[i] == paths[w]);
                assert(lex_lt(paths[w], paths[paths.len() - 1]));
            }
        }
    }
}

/// A path whose flag is false is excluded from the filtered result: once a
/// path is gone from disk, re-resolving excludes it.
pub proof fn lemma_gone_path_excluded(paths: Seq<Seq<char>>, keep: Seq<bool>, i: int)
    requires
        paths.len() == keep.len(),
        strictly_sorted(paths),
        0 <= i < paths.len(),
        !keep[i],
    ensures
        !spec_filter_flags(paths, keep).contains(paths[i]),
{
    let f = spec_filter_flags(paths, keep);
    if f.contains(paths[i]) {
        let k = choose|k: int| 0 <= k < f.len() && f[k] == paths[i];
        lemma_filter_flags_elem(paths, keep, k);
        let w = choose|w: int| 0 <= w < paths.len() && f[k] == paths[w] && keep[w];
        if w < i {
            assert(lex_lt(paths[w], paths[i]));
        } else if w > i {
            assert(lex_lt(paths[i], paths[w]));
        }
        assert(false);
    }
}

/// Keep the paths whose paired flag is true.
pub fn filter_by_flags(paths: &Vec<String>, keep: &Vec<bool>) -> (r: Vec<String>)
    requires
        paths@.len() == keep@.len(),
    ensures
        r.deep_view() == spec_filter_flags(paths.deep_view(), keep@),
{
    let ghost dv = paths.deep_view();
    let mut r: Vec<String> = Vec::new();
    proof {
        assert(dv.subrange(0, 0) =~~= Seq::<Seq<char>>::empty());
        assert(keep@.subrange(0, 0) =~= Seq::<bool>::empty());
    }
    let mut i: usize = 0;
    while i < paths.len()
        invariant
            i <= paths@.len(),
            dv == paths.deep_view(),
            dv.len() == paths@.len(),
            paths@.len() == keep@.len(),
            r.deep_view() == spec_filter_flags(
                dv.subrange(0, i as int),
                keep@.subrange(0, i as int),
            ),
        decreases paths.len() - i,
    {
        let ghost pre = r.deep_view();
        if keep[i] {
            r.push(paths[i].clone());
        }
        proof {
            assert(dv.subrange(0, i + 1).drop_last() =~~= dv.subrange(0, i as int));
            assert(keep@.subrange(0, i + 1).drop_last() =~= keep@.subrange(0, i as int));
            assert(dv.subrange(0, i + 1).last() == dv[i as int]);
            assert(keep@.subrange(0, i + 1).last() == keep@[i as int]);
            if keep@[i as int] {
                assert(r.deep_view() =~~= pre + seq![dv[i as int]]);
            } else {
                assert(r.deep_view() =~~= pre + Seq::<Seq<char>>::empty());
            }
        }
        i += 1;
    }
    proof {
        assert(dv.subrange(0, dv.len() as int) =~~= dv);
        assert(keep@.subrange(0, keep@.len() as int) =~= keep@);
    }
    r
}

/// One existence flag per path, as the disk reports it at this moment.
fn existence_flags(paths: &Vec<String>) -> (r: Vec<bool>)
    ensures
        r@.len() == paths@.len(),
{
    let mut r: Vec<bool> = Vec::new();
    let mut i: usize = 0;
    while i < paths.len()
        invariant
            i <= paths@.len(),
            r@.len() == i,
        decreases paths.len() - i,
    {
        r.push(path_exists(paths[i].as_str()));
        i += 1;
    }
    r
}

/// The eight candidate roots of the fan-out scan: six per-user library
/// directories and two system-wide receipt directories.
pub open spec fn spec_scan_roots(h: Seq<char>) -> Seq<Seq<char>> {
    seq![
        h + "/Library/Application Support"@,
        h + "/Library/Caches"@,
        h + "/Library/Preferences"@,
        h + "/Library/Containers"@,
        h + "/Library/Logs"@,
        h + "/Library/LaunchAgents"@,
        "/Library/Receipts"@,
        "/private/var/db/receipts"@,
    ]
}

pub fn scan_roots_with_home(home: &String) -> (r: Vec<String>)
    ensures
        r.deep_view() == spec_scan_roots(home@),
{
    let mut r: Vec<String> = Vec::new();
    r.push(home.clone().concat("/Library/Application Support"));
    r.push(home.clone().concat("/Library/Caches"));
    r.push(home.clone().concat("/Library/Preferences"));
    r.push(home.clone().concat("/Library/Containers"));
    r.push(home.clone().concat("/Library/Logs"));
    r.push(home.clone().concat("/Library/LaunchAgents"));
    r.push(String::from_str("/Library/Receipts"));
    r.push(String::from_str("/private/var/db/receipts"));
    proof {
        assert(r.deep_view() =~~= spec_scan_roots(home@));
    }
    r
}

/// `result` is a faithful resolution outcome for the given identity, over
/// the home directory the environment reported and the walk entries the
/// fan-out scan saw: the per-identifier well-known paths (when an
/// identifier is present) united with the scan hits (when a display name is
/// present), deduplicated and sorted into `merged`, then reduced by one
/// existence flag per path.
pub open spec fn spec_resolution(
    result: Seq<Seq<char>>,
    bid: Option<Seq<char>>,
    name: Option<Seq<char>>,
    home: Option<Seq<char>>,
    entries: Seq<Option<(String, String)>>,
    merged: Seq<Seq<char>>,
    keep: Seq<bool>,
) -> bool {
    let cands = (match bid {
        Some(b) => spec_common_paths(home, b),
        None => Seq::<Seq<char>>::empty(),
    }) + (match name {
        Some(n) => spec_scan_hits(entries, bid, n),
        None => Seq::<Seq<char>>::empty(),
    });
    &&& strictly_sorted(merged)
    &&& (forall|x: Seq<char>| merged.contains(x) <==> cands.contains(x))
    &&& keep.len() == merged.len()
    &&& result == spec_filter_flags(merged, keep)
}

/// Resolve the candidate artifacts for one application: the deterministic
/// per-identifier paths united with the fan-out scan hits, deduplicated,
/// sorted, and reduced to paths that exist at this moment.  Never mutates
/// the filesystem.  With neither an identifier nor a display name no source
/// contributes and the result is empty.
pub fn find_related_paths(bundle_id: Option<&str>, app_name: Option<&str>) -> (r: Vec<String>)
    ensures
        strictly_sorted(r.deep_view()),
        exists|
            home: Option<Seq<char>>,
            entries: Seq<Option<(String, String)>>,
            merged: Seq<Seq<char>>,
            keep: Seq<bool>,
        |
            spec_resolution(
                r.deep_view(),
                view_opt(bundle_id),
                view_opt(app_name),
                home,
                entries,
                merged,
                keep,
            ),
        bundle_id is None && app_name is None ==> r@.len() == 0,
{
    let ghost bid_v = view_opt(bundle_id);
    let ghost an_v = view_opt(app_name);
    let mut candidates: Vec<String> = Vec::new();
    let home = home_dir_string();
    let home_ref = home.as_ref();
    let ghost home_v = crate::paths::view_opt_string(home_ref);
    if let Some(bid) = bundle_id {
        let mut cp = common_paths_with_home(home_ref, bid);
        let ghost cpv = cp.deep_view();
        candidates.append(&mut cp);
        proof {
            assert(candidates.deep_view() =~~= cpv);
        }
    }
    let ghost common_part: Seq<Seq<char>> = match bid_v {
        Some(b) => spec_common_paths(home_v, b),
        None => Seq::<Seq<char>>::empty(),
    };
    proof {
        assert(candidates.deep_view() =~~= common_part);
    }
    let mut all_entries: Vec<Option<(String, String)>> = Vec::new();
    if let Some(name) = app_name {
        let home_str: String = match home {
            Some(h) => h,
            None => String::from_str("/Users/unknown"),
        };
        let roots = scan_roots_with_home(&home_str);
        let mut ri: usize = 0;
        while ri < roots.len()
            decreases roots.len() - ri,
        {
            let root = &roots[ri];
            if path_exists(root.as_str()) && path_is_dir(root.as_str()) {
                let mut es = walk_dir_entries(root.as_str(), 2);
                all_entries.append(&mut es);
            }
            ri += 1;
        }
        let mut hits = scan_matches(&all_entries, bundle_id, name);
        let ghost hv = hits.deep_view();
        candidates.append(&mut hits);
        proof {
            assert(candidates.deep_view() =~~= common_part + hv);
        }
    }
    let ghost scan_part: Seq<Seq<char>> = match an_v {
        Some(n) => spec_scan_hits(all_entries@, bid_v, n),
        None => Seq::<Seq<char>>::empty(),
    };
    proof {
        assert(candidates.deep_view() =~~= common_part + scan_part);
    }
    let merged = sort_dedup(&candidates);
    let keep = existence_flags(&merged);
    let r = filter_by_flags(&merged, &keep);
    proof {
        lemma_filter_flags_strict(merged.deep_view(), keep@);
        assert(keep@.len() == merged.deep_view().len());
        assert(spec_resolution(
            r.deep_view(),
            bid_v,
            an_v,
            home_v,
            all_entries@,
            merged.deep_view(),
            keep@,
        ));
        if bundle_id is None && app_name is None {
            let m = merged.deep_view();
            assert(m.len() == 0) by {
                if m.len() > 0 {
                    assert(m.contains(m[0]));
                    assert((common_part + scan_part).contains(m[0]));
                }
            }
            assert(m =~~= Seq::<Seq<char>>::empty());
            assert(r.deep_view().len() == 0);
            assert(r@.len() == r.deep_view().len());
        }
    }
    r
}

/// Resolution is deterministic on fixed observations: two strictly sorted
/// sequences holding the same paths are equal, so two resolve passes over an
/// unchanged filesystem return identical results.
pub proof fn lemma_strictly_sorted_unique(a: Seq<Seq<char>>, b: Seq<Seq<char>>)
    requires
        strictly_sorted(a),
        strictly_sorted(b),
        forall|x: Seq<char>| a.contains(x) <==> b.contains(x),
    ensures
        a == b,
    decreases a.len(),
{
    if a.len() == 0 {
        if b.len() > 0 {
            assert(b.contains(b[0]));
            assert(a.contains(b[0]));
            assert(false);
        }
        assert(a =~= b);
    } else {
        assert(a.contains(a[0]));
        assert(b.contains(a[0]));
        let w = choose|w: int| 0 <= w < b.len() && b[w] == a[0];
        assert(b.contains(b[0]));
        assert(a.contains(b[0]));
        let v = choose|v: int| 0 <= v < a.len() && a[v] == b[0];
        if w > 0 {
            assert(lex_lt(b[0], b[w]));
            if v > 0 {
                assert(lex_lt(a[0], a[v]));
                lemma_lex_le_antisym(a[0], b[0]);
            }
            assert(false);
        }
        assert(a[0] == b[0]);
        let at = a.drop_first();
        let bt = b.drop_first();
        assert(strictly_sorted(at)) by {
            assert(forall|i: int, j: int|
                0 <= i < j < at.len() ==> at[i] == a[i + 1] && at[j] == a[j + 1]);
        }
        assert(strictly_sorted(bt)) by {
            assert(forall|i: int, j: int|
                0 <= i < j < bt.len() ==> bt[i] == b[i + 1] && bt[j] == b[j + 1]);
        }
        assert forall|x: Seq<char>| at.contains(x) <==> bt.contains(x) by {
            if at.contains(x) {
                let k = choose|k: int| 0 <= k < at.len() && at[k] == x;
                assert(a[k + 1] == x);
                assert(a.contains(x));
                assert(lex_lt(a[0], a[k + 1]));
                let m = choose|m: int| 0 <= m < b.len() && b[m] == x;
                assert(m > 0);
                assert(bt[m - 1] == x);
            }
            if bt.contains(x) {
                let k = choose|k: int| 0 <= k < bt.len() && bt[k] == x;
                assert(b[k + 1] == x);
                assert(b.contains(x));
                assert(lex_lt(b[0], b[k + 1]));
                let m = choose|m: int| 0 <= m < a.len() && a[m] == x;
                assert(m > 0);
                assert(at[m - 1] == x);
            }
        }
        lemma_strictly_sorted_unique(at, bt);
        assert(a =~= b) by {
            assert(a.len() == b.len());
            assert(forall|i: int| 1 <= i < a.len() ==> a[i] == at[i - 1] && b[i] == bt[i - 1]);
        }
    }
}

} // verus!
