//! Running-state matcher.
//!
//! Decides whether an application is currently executing, given a process
//! snapshot and the application's identifier and display name.  No single
//! field is authoritative, so the matcher layers three heuristics per
//! process: exact-ish name equality, executable-path containment, and
//! command-line containment (bounded-token for the display name, raw
//! substring for the identifier).

use vstd::prelude::*;

use crate::text::{
    after_last_spec, after_last_str, chars_of, contains_chars, contains_seq, ends_with_chars,
    ends_with_seq, eq_chars, extend_chars, join_spaces, join_with_spaces, lower_chars, lower_of,
    starts_with_chars, starts_with_seq,
};
use crate::types::ProcessInfo;

verus! {

/// View of an optional borrowed string.
pub open spec fn view_opt(s: Option<&str>) -> Option<Seq<char>> {
    match s {
        Some(x) => Some(x@),
        None => None,
    }
}

/// Lowercase folding of an optional key.
pub open spec fn lower_opt(s: Option<Seq<char>>) -> Option<Seq<char>> {
    match s {
        Some(x) => Some(lower_of(x)),
        None => None,
    }
}

/// The last dot-separated component of an optional identifier.
pub open spec fn last_component_opt(s: Option<Seq<char>>) -> Option<Seq<char>> {
    match s {
        Some(x) => Some(after_last_spec(x, '.')),
        None => None,
    }
}

/// `hay` contains `key` in one of the common application-bundle path shapes.
pub open spec fn spec_app_path_match(hay: Seq<char>, key: Seq<char>) -> bool {
    ||| contains_seq(hay, "/"@ + key + ".app/"@)
    ||| contains_seq(hay, "/"@ + key + ".app"@)
    ||| ends_with_seq(hay, "/"@ + key)
}

/// The display name occurs in the command line as a bounded token: inside an
/// `.app` path, or delimited by spaces, start-of-string, or end-of-string.
pub open spec fn spec_cmd_name_match(cl: Seq<char>, an: Seq<char>) -> bool {
    ||| contains_seq(cl, "/"@ + an + ".app"@)
    ||| contains_seq(cl, " "@ + an + " "@)
    ||| starts_with_seq(cl, an + " "@)
    ||| ends_with_seq(cl, " "@ + an)
}

/// The lowercased, space-joined command line of a process.
pub open spec fn spec_cmdline(p: ProcessInfo) -> Seq<char> {
    lower_of(join_spaces(p.cmd.deep_view()))
}

/// Layer 1: the process name equals the display name or the identifier's
/// last component, optionally with an `.app` suffix.
pub open spec fn spec_layer_name(
    p: ProcessInfo,
    an_l: Option<Seq<char>>,
    last_l: Option<Seq<char>>,
) -> bool {
    let nl = lower_of(p.name@);
    ||| (an_l is Some && (nl == an_l->0 || nl == an_l->0 + ".app"@))
    ||| (last_l is Some && (nl == last_l->0 || nl == last_l->0 + ".app"@))
}

/// Layer 2: the executable path contains a key in an app-bundle shape, or
/// the identifier as a raw substring.
pub open spec fn spec_layer_exe(
    p: ProcessInfo,
    an_l: Option<Seq<char>>,
    bid_l: Option<Seq<char>>,
    last_l: Option<Seq<char>>,
) -> bool {
    &&& p.exe is Some
    &&& {
        let el = lower_of(p.exe->0@);
        ||| (an_l is Some && spec_app_path_match(el, an_l->0))
        ||| (bid_l is Some && contains_seq(el, bid_l->0))
        ||| (last_l is Some && spec_app_path_match(el, last_l->0))
    }
}

/// Layer 3: the joined command line contains the identifier as a raw
/// substring, the display name as a bounded token, or an `.app` path built
/// from the identifier's last component.
pub open spec fn spec_layer_cmd(
    p: ProcessInfo,
    an_l: Option<Seq<char>>,
    bid_l: Option<Seq<char>>,
    last_l: Option<Seq<char>>,
) -> bool {
    let cl = spec_cmdline(p);
    ||| (bid_l is Some && contains_seq(cl, bid_l->0))
    ||| (an_l is Some && spec_cmd_name_match(cl, an_l->0))
    ||| (last_l is Some && contains_seq(cl, "/"@ + last_l->0 + ".app"@))
}

/// One process matches if any layer accepts it.
pub open spec fn spec_proc_matches(
    p: ProcessInfo,
    bid_l: Option<Seq<char>>,
    an_l: Option<Seq<char>>,
    last_l: Option<Seq<char>>,
) -> bool {
    ||| spec_layer_name(p, an_l, last_l)
    ||| spec_layer_exe(p, an_l, bid_l, last_l)
    ||| spec_layer_cmd(p, an_l, bid_l, last_l)
}

/// The application is running if some process in the snapshot matches.
/// Absence of both identifier and display name yields false.
pub open spec fn spec_is_running(
    bid: Option<Seq<char>>,
    name: Option<Seq<char>>,
    procs: Seq<ProcessInfo>,
) -> bool {
    exists|i: int|
        0 <= i < procs.len() && spec_proc_matches(
            procs[i],
            lower_opt(bid),
            lower_opt(name),
            lower_opt(last_component_opt(bid)),
        )
}

/// Precomputed character patterns for one lowercased key.
struct KeyPats {
    key: Vec<char>,
    key_app: Vec<char>,
    slash_key: Vec<char>,
    slash_key_app: Vec<char>,
    slash_key_app_slash: Vec<char>,
    space_key_space: Vec<char>,
    key_space: Vec<char>,
    space_key: Vec<char>,
}

impl KeyPats {
    spec fn wf(&self, k: Seq<char>) -> bool {
        &&& self.key@ == k
        &&& self.key_app@ == k + ".app"@
        &&& self.slash_key@ == "/"@ + k
        &&& self.slash_key_app@ == "/"@ + k + ".app"@
        &&& self.slash_key_app_slash@ == "/"@ + k + ".app/"@
        &&& self.space_key_space@ == " "@ + k + " "@
        &&& self.key_space@ == k + " "@
        &&& self.space_key@ == " "@ + k
    }

    fn build(key: Vec<char>) -> (r: KeyPats)
        ensures
            r.wf(key@),
    {
        let dot_app = chars_of(".app");
        let slash = chars_of("/");
        let space = chars_of(" ");

        let mut key_app = key.clone();
        extend_chars(&mut key_app, &dot_app);

        let mut slash_key = slash.clone();
        extend_chars(&mut slash_key, &key);

        let mut slash_key_app = slash_key.clone();
        extend_chars(&mut slash_key_app, &dot_app);

        let mut slash_key_app_slash = slash_key_app.clone();
        extend_chars(&mut slash_key_app_slash, &slash);
        proof {
            assert(slash_key_app_slash@ =~= "/"@ + key@ + ".app/"@) by {
                assert((("/"@ + key@) + ".app"@) + "/"@ =~= "/"@ + key@ + (".app"@ + "/"@));
                assert(".app"@ + "/"@ =~= ".app/"@) by {
                    reveal_strlit(".app");
                    reveal_strlit("/");
                    reveal_strlit(".app/");
                }
            }
        }

        let mut space_key_space = space.clone();
        extend_chars(&mut space_key_space, &key);
        extend_chars(&mut space_key_space, &space);

        let mut key_space = key.clone();
        extend_chars(&mut key_space, &space);

        let mut space_key = space.clone();
        extend_chars(&mut space_key, &key);

        KeyPats {
            key,
            key_app,
            slash_key,
            slash_key_app,
            slash_key_app_slash,
            space_key_space,
            key_space,
            space_key,
        }
    }
}

/// The exec patterns agree with the optional spec key.
spec fn opt_pats_wf(pats: &Option<KeyPats>, k: Option<Seq<char>>) -> bool {
    &&& (pats is Some <==> k is Some)
    &&& (pats is Some ==> pats->0.wf(k->0))
}

spec fn opt_chars_wf(v: &Option<Vec<char>>, k: Option<Seq<char>>) -> bool {
    &&& (v is Some <==> k is Some)
    &&& (v is Some ==> v->0@ == k->0)
}

/// Layer-2 path shapes for one key against a lowercased haystack.
fn app_path_match(hay: &Vec<char>, pats: &KeyPats, Ghost(k): Ghost<Seq<char>>) -> (r: bool)
    requires
        pats.wf(k),
    ensures
        r == spec_app_path_match(hay@, k),
{
    contains_chars(hay, &pats.slash_key_app_slash) || contains_chars(hay, &pats.slash_key_app)
        || ends_with_chars(hay, &pats.slash_key)
}

fn proc_matches(
    p: &ProcessInfo,
    an: &Option<KeyPats>,
    bid: &Option<Vec<char>>,
    last: &Option<KeyPats>,
    Ghost(an_l): Ghost<Option<Seq<char>>>,
    Ghost(bid_l): Ghost<Option<Seq<char>>>,
    Ghost(last_l): Ghost<Option<Seq<char>>>,
) -> (r: bool)
    requires
        opt_pats_wf(an, an_l),
        opt_chars_wf(bid, bid_l),
        opt_pats_wf(last, last_l),
    ensures
        r == spec_proc_matches(*p, bid_l, an_l, last_l),
{
    // Layer 1: exact-ish process-name matches, preferred to avoid false
    // positives.
    let nl = lower_chars(p.name.as_str());
    if let Some(pats) = an {
        if eq_chars(&nl, &pats.key) || eq_chars(&nl, &pats.key_app) {
            return true;
        }
    }
    if let Some(pats) = last {
        if eq_chars(&nl, &pats.key) || eq_chars(&nl, &pats.key_app) {
            return true;
        }
    }
    // Layer 2: the executable path, which often resides inside an app
    // bundle.
    if let Some(exe) = &p.exe {
        let el = lower_chars(exe.as_str());
        if let Some(pats) = an {
            if app_path_match(&el, pats, Ghost(an_l->0)) {
                return true;
            }
        }
        if let Some(b) = bid {
            if contains_chars(&el, b) {
                return true;
            }
        }
        if let Some(pats) = last {
            if app_path_match(&el, pats, Ghost(last_l->0)) {
                return true;
            }
        }
    }
    // Layer 3: precise fragments of the joined command line.
    let joined = join_with_spaces(&p.cmd);
    let cl = lower_chars(joined.as_str());
    if let Some(b) = bid {
        if contains_chars(&cl, b) {
            return true;
        }
    }
    if let Some(pats) = an {
        if contains_chars(&cl, &pats.slash_key_app) || contains_chars(&cl, &pats.space_key_space)
            || starts_with_chars(&cl, &pats.key_space) || ends_with_chars(&cl, &pats.space_key) {
            return true;
        }
    }
    if let Some(pats) = last {
        if contains_chars(&cl, &pats.slash_key_app) {
            return true;
        }
    }
    false
}

/// Whether the application named by `bundle_id` / `app_name` is running in
/// the given process snapshot.  Returns false only if every layer fails for
/// every process; never fails.
pub fn is_app_running(
    procs: &Vec<ProcessInfo>,
    bundle_id: Option<&str>,
    app_name: Option<&str>,
) -> (r: bool)
    ensures
        r == spec_is_running(view_opt(bundle_id), view_opt(app_name), procs@),
{
    let ghost bid_raw = view_opt(bundle_id);
    let ghost an_raw = view_opt(app_name);
    let ghost bid_l = lower_opt(bid_raw);
    let ghost an_l = lower_opt(an_raw);
    let ghost last_l = lower_opt(last_component_opt(bid_raw));

    let an: Option<KeyPats> = match app_name {
        Some(n) => Some(KeyPats::build(lower_chars(n))),
        None => None,
    };
    let bid: Option<Vec<char>> = match bundle_id {
        Some(b) => Some(lower_chars(b)),
        None => None,
    };
    let last: Option<KeyPats> = match bundle_id {
        Some(b) => Some(KeyPats::build(lower_chars(after_last_str(b, '.')))),
        None => None,
    };

    let mut i: usize = 0;
    while i < procs.len()
        invariant
            i <= procs@.len(),
            bid_raw == view_opt(bundle_id),
            an_raw == view_opt(app_name),
            bid_l == lower_opt(bid_raw),
            an_l == lower_opt(an_raw),
            last_l == lower_opt(last_component_opt(bid_raw)),
            opt_pats_wf(&an, an_l),
            opt_chars_wf(&bid, bid_l),
            opt_pats_wf(&last, last_l),
            forall|j: int| 0 <= j < i ==> !spec_proc_matches(procs@[j], bid_l, an_l, last_l),
        decreases procs.len() - i,
    {
        if proc_matches(&procs[i], &an, &bid, &last, Ghost(an_l), Ghost(bid_l), Ghost(last_l)) {
            proof {
                assert(spec_proc_matches(
                    procs@[i as int],
                    lower_opt(bid_raw),
                    lower_opt(an_raw),
                    lower_opt(last_component_opt(bid_raw)),
                ));
                assert(spec_is_running(bid_raw, an_raw, procs@));
            }
            return true;
        }
        i += 1;
    }
    proof {
        assert(!spec_is_running(bid_raw, an_raw, procs@)) by {
            if spec_is_running(bid_raw, an_raw, procs@) {
                let w = choose|w: int|
                    0 <= w < procs@.len() && spec_proc_matches(procs@[w], bid_l, an_l, last_l);
                assert(!spec_proc_matches(procs@[w], bid_l, an_l, last_l));
            }
        }
    }
    false
}

/// A target with a display name is reported running whenever some process's
/// name equals the name, or the name with an `.app` suffix, after lowercase
/// folding of both sides.
pub proof fn lemma_name_match_running(
    procs: Seq<ProcessInfo>,
    bid: Option<Seq<char>>,
    name: Seq<char>,
    i: int,
)
    requires
        0 <= i < procs.len(),
        lower_of(procs[i].name@) == lower_of(name) || lower_of(procs[i].name@) == lower_of(name)
            + ".app"@,
    ensures
        spec_is_running(bid, Some(name), procs),
{
    assert(spec_layer_name(procs[i], lower_opt(Some(name)), lower_opt(last_component_opt(bid))));
    assert(spec_proc_matches(
        procs[i],
        lower_opt(bid),
        lower_opt(Some(name)),
        lower_opt(last_component_opt(bid)),
    ));
}

/// A target is reported not running when no process matches any layer.
pub proof fn lemma_no_layer_not_running(
    procs: Seq<ProcessInfo>,
    bid: Option<Seq<char>>,
    name: Option<Seq<char>>,
)
    requires
        forall|i: int|
            0 <= i < procs.len() ==> !spec_proc_matches(
                procs[i],
                lower_opt(bid),
                lower_opt(name),
                lower_opt(last_component_opt(bid)),
            ),
    ensures
        !spec_is_running(bid, name, procs),
{
}

/// A target with an identifier is reported running whenever some process's
/// folded command line contains the folded identifier as a raw substring,
/// whether or not a display name is present.
pub proof fn lemma_cmdline_id_running(
    procs: Seq<ProcessInfo>,
    bid: Seq<char>,
    name: Option<Seq<char>>,
    i: int,
)
    requires
        0 <= i < procs.len(),
        contains_seq(spec_cmdline(procs[i]), lower_of(bid)),
    ensures
        spec_is_running(Some(bid), name, procs),
{
    assert(spec_layer_cmd(
        procs[i],
        lower_opt(name),
        lower_opt(Some(bid)),
        lower_opt(last_component_opt(Some(bid))),
    ));
    assert(spec_proc_matches(
        procs[i],
        lower_opt(Some(bid)),
        lower_opt(name),
        lower_opt(last_component_opt(Some(bid))),
    ));
}

/// A display name is matched in a command line when it appears as a
/// standalone token delimited by spaces.
pub proof fn lemma_cmdline_token_running(
    procs: Seq<ProcessInfo>,
    bid: Option<Seq<char>>,
    name: Seq<char>,
    i: int,
)
    requires
        0 <= i < procs.len(),
        contains_seq(spec_cmdline(procs[i]), " "@ + lower_of(name) + " "@),
    ensures
        spec_is_running(bid, Some(name), procs),
{
    assert(spec_cmd_name_match(spec_cmdline(procs[i]), lower_of(name)));
    assert(spec_layer_cmd(
        procs[i],
        lower_opt(Some(name)),
        lower_opt(bid),
        lower_opt(last_component_opt(bid)),
    ));
    assert(spec_proc_matches(
        procs[i],
        lower_opt(bid),
        lower_opt(Some(name)),
        lower_opt(last_component_opt(bid)),
    ));
}

} // verus!
