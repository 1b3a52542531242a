//! Removal orchestrator.
//!
//! A single forward pass over (bundle, selected artifacts), driven as a
//! state machine: the caller asks for the next target, performs the
//! disposal through the trash-or-delete capability, and reports the outcome
//! back.  The running-state guard is the single cancellation point; a
//! bundle or protected-artifact failure aborts the whole pass, an
//! unprivileged failure is absorbed per item.  Every call returns the
//! progress events to stream, and a terminal event always carries
//! progress 1.

use vstd::prelude::*;
use vstd::string::StringExecFns;

use crate::paths::{is_protected_path, spec_is_protected};
use crate::resolve::{lemma_filter_flags_push, spec_filter_flags};
use crate::progress::{
    events_kind, events_monotone, events_wf, lemma_equal_den_monotone, no_terminal, terminal_last,
};
use crate::types::{AppInfo, ProgressUpdate, TaskKind};

verus! {

/// What the trash-or-delete capability reports for one target.
#[derive(Clone, Debug)]
pub enum DisposeOutcome {
    /// Moved to the reversible holding area, or deleted by the fallback.
    Removed,
    /// Both the reversible move and the irreversible fallback failed; the
    /// string describes the failure.
    DisposalFailed(String),
    /// The target is neither a regular file nor a directory.
    UnknownPathKind,
}

/// The artifacts whose selection flag is true.  An artifact whose flag is
/// absent (index beyond the selection array) is selected by default.
pub open spec fn spec_selected(paths: Seq<Seq<char>>, sel: Seq<bool>) -> Seq<Seq<char>>
    decreases paths.len(),
{
    if paths.len() == 0 {
        Seq::empty()
    } else {
        let last = paths.len() - 1;
        spec_selected(paths.drop_last(), sel) + if last >= sel.len() || sel[last] {
            seq![paths.last()]
        } else {
            Seq::empty()
        }
    }
}

pub proof fn lemma_selected_len(paths: Seq<Seq<char>>, sel: Seq<bool>)
    ensures
        spec_selected(paths, sel).len() <= paths.len(),
    decreases paths.len(),
{
    if paths.len() > 0 {
        lemma_selected_len(paths.drop_last(), sel);
    }
}

/// With an empty selection array every flag is absent, so everything is
/// selected: the default rule in its pure form.
pub proof fn lemma_selection_default(paths: Seq<Seq<char>>)
    ensures
        spec_selected(paths, Seq::<bool>::empty()) == paths,
    decreases paths.len(),
{
    if paths.len() == 0 {
        assert(spec_selected(paths, Seq::<bool>::empty()) =~~= paths);
    } else {
        lemma_selection_default(paths.drop_last());
        assert(spec_selected(paths, Seq::<bool>::empty()) =~~= paths.drop_last() + seq![
            paths.last(),
        ]);
        assert(paths.drop_last() + seq![paths.last()] =~~= paths);
    }
}

/// Filter the artifact list by the caller's selection.
pub fn selected_artifacts(paths: &Vec<String>, sel: &Vec<bool>) -> (r: Vec<String>)
    ensures
        r.deep_view() == spec_selected(paths.deep_view(), sel@),
{
    let ghost dv = paths.deep_view();
    let mut r: Vec<String> = Vec::new();
    proof {
        assert(dv.subrange(0, 0) =~~= Seq::<Seq<char>>::empty());
    }
    let mut i: usize = 0;
    while i < paths.len()
        invariant
            i <= paths@.len(),
            dv == paths.deep_view(),
            dv.len() == paths@.len(),
            r.deep_view() == spec_selected(dv.subrange(0, i as int), sel@),
        decreases paths.len() - i,
    {
        let ghost pre = r.deep_view();
        if i >= sel.len() || sel[i] {
            r.push(paths[i].clone());
        }
        proof {
            assert(dv.subrange(0, i + 1).drop_last() =~~= dv.subrange(0, i as int));
            assert(dv.subrange(0, i + 1).last() == dv[i as int]);
            if i >= sel@.len() || sel@[i as int] {
                assert(r.deep_view() =~~= pre + seq![dv[i as int]]);
            } else {
                assert(r.deep_view() =~~= pre + Seq::<Seq<char>>::empty());
            }
        }
        i += 1;
    }
    proof {
        assert(dv.subrange(0, dv.len() as int) =~~= dv);
    }
    r
}

/// The protected members of a path list, in order.
pub open spec fn spec_protected_of(paths: Seq<Seq<char>>) -> Seq<Seq<char>>
    decreases paths.len(),
{
    if paths.len() == 0 {
        Seq::empty()
    } else {
        spec_protected_of(paths.drop_last()) + if spec_is_protected(paths.last()) {
            seq![paths.last()]
        } else {
            Seq::empty()
        }
    }
}

/// The unprivileged members of a path list, in order.
pub open spec fn spec_unprivileged_of(paths: Seq<Seq<char>>) -> Seq<Seq<char>>
    decreases paths.len(),
{
    if paths.len() == 0 {
        Seq::empty()
    } else {
        spec_unprivileged_of(paths.drop_last()) + if !spec_is_protected(paths.last()) {
            seq![paths.last()]
        } else {
            Seq::empty()
        }
    }
}

pub proof fn lemma_partition_lens(paths: Seq<Seq<char>>)
    ensures
        spec_protected_of(paths).len() + spec_unprivileged_of(paths).len() == paths.len(),
    decreases paths.len(),
{
    if paths.len() > 0 {
        lemma_partition_lens(paths.drop_last());
    }
}

/// Split a path list into protected and unprivileged parts, keeping order.
pub fn partition_protected(paths: &Vec<String>) -> (r: (Vec<String>, Vec<String>))
    ensures
        r.0.deep_view() == spec_protected_of(paths.deep_view()),
        r.1.deep_view() == spec_unprivileged_of(paths.deep_view()),
{
    let ghost dv = paths.deep_view();
    let mut prot: Vec<String> = Vec::new();
    let mut unpriv: Vec<String> = Vec::new();
    proof {
        assert(dv.subrange(0, 0) =~~= Seq::<Seq<char>>::empty());
    }
    let mut i: usize = 0;
    while i < paths.len()
        invariant
            i <= paths@.len(),
            dv == paths.deep_view(),
            dv.len() == paths@.len(),
            prot.deep_view() == spec_protected_of(dv.subrange(0, i as int)),
            unpriv.deep_view() == spec_unprivileged_of(dv.subrange(0, i as int)),
        decreases paths.len() - i,
    {
        let ghost pp = prot.deep_view();
        let ghost up = unpriv.deep_view();
        if is_protected_path(paths[i].as_str()) {
            prot.push(paths[i].clone());
        } else {
            unpriv.push(paths[i].clone());
        }
        proof {
            assert(dv.subrange(0, i + 1).drop_last() =~~= dv.subrange(0, i as int));
            assert(dv.subrange(0, i + 1).last() == dv[i as int]);
            if spec_is_protected(dv[i as int]) {
                assert(prot.deep_view() =~~= pp + seq![dv[i as int]]);
                assert(unpriv.deep_view() =~~= up + Seq::<Seq<char>>::empty());
            } else {
                assert(prot.deep_view() =~~= pp + Seq::<Seq<char>>::empty());
                assert(unpriv.deep_view() =~~= up + seq![dv[i as int]]);
            }
        }
        i += 1;
    }
    proof {
        assert(dv.subrange(0, dv.len() as int) =~~= dv);
    }
    (prot, unpriv)
}

/// Where a single forward uninstall pass stands.
#[derive(Clone, Copy, Debug, PartialEq, Eq)]
pub enum UninstallPhase {
    /// The bundle itself is the next target.
    Bundle,
    /// Protected artifacts are being removed; any failure here is fatal.
    Protected,
    /// Unprivileged artifacts are being removed; failures are absorbed.
    Unprivileged,
    /// Terminal success; the caller should re-run discovery.
    Done,
    /// Terminal failure; no further target is touched.
    Aborted,
}

/// Field shape shared by every event of one uninstall pass.
pub open spec fn hist_event_ok(e: ProgressUpdate, idx: usize, total: usize) -> bool {
    &&& e.kind == TaskKind::Uninstall(idx)
    &&& e.progress_den == total
    &&& e.progress_num <= total
}

pub open spec fn nums_nondecr(h: Seq<ProgressUpdate>) -> bool {
    forall|i: int, j: int|
        0 <= i <= j < h.len() ==> (#[trigger] h[i]).progress_num <= (#[trigger] h[j]).progress_num
}

/// History of a pass that is still under way: well-shaped, monotone, no
/// terminal event yet, and no fraction beyond the steps completed.
pub open spec fn history_active(h: Seq<ProgressUpdate>, idx: usize, total: usize, s: usize) -> bool {
    &&& forall|i: int|
        0 <= i < h.len() ==> hist_event_ok(#[trigger] h[i], idx, total) && !h[i].finished && h[
            i].progress_num <= s
    &&& nums_nondecr(h)
}

/// History of a pass that has ended: exactly one terminal event, last, at
/// progress 1.
pub open spec fn history_closed(h: Seq<ProgressUpdate>, idx: usize, total: usize) -> bool {
    &&& forall|i: int| 0 <= i < h.len() ==> hist_event_ok(#[trigger] h[i], idx, total)
    &&& nums_nondecr(h)
    &&& h.len() > 0
    &&& h.last().finished
    &&& h.last().progress_num == total
    &&& forall|i: int| 0 <= i < h.len() - 1 ==> !(#[trigger] h[i]).finished
}

proof fn lemma_extend_active(
    h: Seq<ProgressUpdate>,
    e: Seq<ProgressUpdate>,
    idx: usize,
    total: usize,
    s_old: usize,
    s_new: usize,
)
    requires
        history_active(h, idx, total, s_old),
        s_old <= s_new,
        forall|i: int|
            0 <= i < e.len() ==> hist_event_ok(#[trigger] e[i], idx, total) && !e[i].finished
                && s_old <= e[i].progress_num <= s_new,
        nums_nondecr(e),
    ensures
        history_active(h + e, idx, total, s_new),
{
    let c = h + e;
    assert forall|i: int|
        0 <= i < c.len() implies hist_event_ok(#[trigger] c[i], idx, total) && !c[i].finished && c[
        i].progress_num <= s_new by {
        if i < h.len() {
            assert(c[i] == h[i]);
        } else {
            assert(c[i] == e[i - h.len()]);
        }
    }
    assert forall|i: int, j: int|
        0 <= i <= j < c.len() implies (#[trigger] c[i]).progress_num <= (
    #[trigger] c[j]).progress_num by {
        if j < h.len() {
            assert(c[i] == h[i] && c[j] == h[j]);
        } else if i >= h.len() {
            assert(c[i] == e[i - h.len()] && c[j] == e[j - h.len()]);
        } else {
            assert(c[i] == h[i] && c[j] == e[j - h.len()]);
            assert(h[i].progress_num <= s_old);
            assert(e[j - h.len()].progress_num >= s_old);
        }
    }
}

proof fn lemma_close_history(
    h: Seq<ProgressUpdate>,
    e: Seq<ProgressUpdate>,
    idx: usize,
    total: usize,
    s_old: usize,
)
    requires
        history_active(h, idx, total, s_old),
        e.len() > 0,
        forall|i: int|
            0 <= i < e.len() ==> hist_event_ok(#[trigger] e[i], idx, total) && e[i].progress_num
                >= s_old,
        nums_nondecr(e),
        e.last().finished,
        e.last().progress_num == total,
        forall|i: int| 0 <= i < e.len() - 1 ==> !(#[trigger] e[i]).finished,
    ensures
        history_closed(h + e, idx, total),
{
    let c = h + e;
    assert forall|i: int| 0 <= i < c.len() implies hist_event_ok(#[trigger] c[i], idx, total) by {
        if i < h.len() {
            assert(c[i] == h[i]);
        } else {
            assert(c[i] == e[i - h.len()]);
        }
    }
    assert forall|i: int, j: int|
        0 <= i <= j < c.len() implies (#[trigger] c[i]).progress_num <= (
    #[trigger] c[j]).progress_num by {
        if j < h.len() {
            assert(c[i] == h[i] && c[j] == h[j]);
        } else if i >= h.len() {
            assert(c[i] == e[i - h.len()] && c[j] == e[j - h.len()]);
        } else {
            assert(c[i] == h[i] && c[j] == e[j - h.len()]);
            assert(h[i].progress_num <= s_old);
            assert(e[j - h.len()].progress_num >= s_old);
        }
    }
    assert(c.last() == e.last());
    assert forall|i: int| 0 <= i < c.len() - 1 implies !(#[trigger] c[i]).finished by {
        if i < h.len() {
            assert(c[i] == h[i]);
        } else {
            assert(c[i] == e[i - h.len()]);
            assert(i - h.len() < e.len() - 1);
        }
    }
}

/// One uninstall pass over a bundle and its selected artifacts.
pub struct UninstallTask {
    pub idx: usize,
    pub app_name: String,
    pub bundle_path: String,
    pub protected: Vec<String>,
    pub unprivileged: Vec<String>,
    /// Position inside the current phase's list.
    pub pos: usize,
    /// Targets removed so far, the bundle included.
    pub steps_done: usize,
    /// 1 for the bundle plus one per selected artifact.
    pub total: usize,
    pub phase: UninstallPhase,
    /// Every event emitted so far.
    pub history: Ghost<Seq<ProgressUpdate>>,
    /// Every target removed so far, in removal order.
    pub removed: Ghost<Seq<Seq<char>>>,
    /// One flag per unprivileged artifact handled so far: whether its
    /// disposal succeeded.
    pub unpriv_results: Ghost<Seq<bool>>,
}

impl UninstallTask {
    /// The pass still has a target to dispose of.
    pub open spec fn active(&self) -> bool {
        self.phase == UninstallPhase::Bundle || self.phase == UninstallPhase::Protected
            || self.phase == UninstallPhase::Unprivileged
    }

    /// Removals happen in strict order: the bundle first, then the
    /// protected artifacts as an unbroken prefix, then those unprivileged
    /// artifacts whose disposal succeeded, in list order.  In particular an
    /// aborted pass has touched no unprivileged artifact.
    pub open spec fn removal_log_wf(&self) -> bool {
        match self.phase {
            UninstallPhase::Bundle => self.removed@ == Seq::<Seq<char>>::empty()
                && self.unpriv_results@ == Seq::<bool>::empty(),
            UninstallPhase::Protected => self.removed@ == seq![self.bundle_path@]
                + self.protected.deep_view().subrange(0, self.pos as int) && self.unpriv_results@
                == Seq::<bool>::empty(),
            UninstallPhase::Unprivileged => self.unpriv_results@.len() == self.pos
                && self.removed@ == seq![self.bundle_path@] + self.protected.deep_view()
                + spec_filter_flags(
                self.unprivileged.deep_view().subrange(0, self.pos as int),
                self.unpriv_results@,
            ),
            UninstallPhase::Done => self.unpriv_results@.len() == self.unprivileged@.len()
                && self.removed@ == seq![self.bundle_path@] + self.protected.deep_view()
                + spec_filter_flags(self.unprivileged.deep_view(), self.unpriv_results@),
            UninstallPhase::Aborted => self.removed@ == Seq::<Seq<char>>::empty() || (exists|
                k: int,
            |
                0 <= k <= self.protected.deep_view().len() && self.removed@ == seq![
                    self.bundle_path@,
                ] + self.protected.deep_view().subrange(0, k)),
        }
    }

    pub open spec fn wf(&self) -> bool {
        &&& self.total == 1 + self.protected@.len() + self.unprivileged@.len()
        &&& self.steps_done <= self.total
        &&& match self.phase {
            UninstallPhase::Bundle => self.steps_done == 0,
            UninstallPhase::Protected => self.pos < self.protected@.len() && self.steps_done == 1
                + self.pos,
            UninstallPhase::Unprivileged => self.pos < self.unprivileged@.len()
                && self.steps_done <= 1 + self.protected@.len() + self.pos,
            UninstallPhase::Done => true,
            UninstallPhase::Aborted => true,
        }
        &&& self.removal_log_wf()
        &&& if self.active() {
            history_active(self.history@, self.idx, self.total, self.steps_done)
        } else {
            history_closed(self.history@, self.idx, self.total)
        }
    }

    /// The path the caller should dispose of next, if any.
    pub fn next_target(&self) -> (t: Option<String>)
        requires
            self.wf(),
        ensures
            t is Some <==> self.active(),
            self.phase == UninstallPhase::Bundle ==> t->0@ == self.bundle_path@,
            self.phase == UninstallPhase::Protected ==> t->0@ == self.protected.deep_view()[
                self.pos as int],
            self.phase == UninstallPhase::Unprivileged ==> t->0@ == self.unprivileged.deep_view()[
                self.pos as int],
    {
        match self.phase {
            UninstallPhase::Bundle => Some(self.bundle_path.clone()),
            UninstallPhase::Protected => Some(self.protected[self.pos].clone()),
            UninstallPhase::Unprivileged => Some(self.unprivileged[self.pos].clone()),
            UninstallPhase::Done => None,
            UninstallPhase::Aborted => None,
        }
    }

    /// The pass has reached a terminal state.
    pub fn finished(&self) -> (r: bool)
        ensures
            r == !self.active(),
    {
        match self.phase {
            UninstallPhase::Done => true,
            UninstallPhase::Aborted => true,
            _ => false,
        }
    }

    /// On success the caller should re-run discovery to refresh the
    /// inventory; the effect is returned rather than performed here.
    pub fn wants_refresh(&self) -> (r: bool)
        ensures
            r == (self.phase == UninstallPhase::Done),
    {
        match self.phase {
            UninstallPhase::Done => true,
            _ => false,
        }
    }
}

/// The announcement event of one uninstall pass.
pub open spec fn is_start_event(e: ProgressUpdate, idx: usize, total: usize, name: Seq<char>) -> bool {
    &&& e.kind == TaskKind::Uninstall(idx)
    &&& e.progress_num == 0
    &&& e.progress_den == total
    &&& e.message@ == "Starting uninstall of "@ + name + "..."@
    &&& !e.finished
    &&& e.error is None
}

/// The terminal event of a pass refused at the running-state guard.
pub open spec fn is_running_abort_event(e: ProgressUpdate, idx: usize, total: usize) -> bool {
    &&& e.kind == TaskKind::Uninstall(idx)
    &&& e.progress_num == total
    &&& e.progress_den == total
    &&& e.message@ == "App is running. Abort uninstall."@
    &&& e.finished
    &&& e.error matches Some(m) && m@ == "App is running"@
}

/// Begin an uninstall pass.  The caller supplies the guard verdict from a
/// fresh process snapshot; when the application is running the pass aborts
/// immediately, with no target to dispose of and exactly one terminal
/// failure event after the announcement.
pub fn start(
    idx: usize,
    app: &AppInfo,
    artifacts: &Vec<String>,
    selection: &Vec<bool>,
    running: bool,
) -> (r: (UninstallTask, Vec<ProgressUpdate>))
    requires
        artifacts@.len() < usize::MAX,
    ensures
        r.0.wf(),
        r.0.idx == idx,
        r.0.app_name@ == app.name@,
        r.0.bundle_path@ == app.path@,
        r.0.protected.deep_view() == spec_protected_of(
            spec_selected(artifacts.deep_view(), selection@),
        ),
        r.0.unprivileged.deep_view() == spec_unprivileged_of(
            spec_selected(artifacts.deep_view(), selection@),
        ),
        r.0.total == 1 + r.0.protected@.len() + r.0.unprivileged@.len(),
        r.0.history@ == r.1@,
        r.0.removed@ == Seq::<Seq<char>>::empty(),
        running ==> r.0.phase == UninstallPhase::Aborted && r.1@.len() == 2 && is_start_event(
            r.1@[0],
            idx,
            r.0.total,
            app.name@,
        ) && is_running_abort_event(r.1@[1], idx, r.0.total),
        !running ==> r.0.phase == UninstallPhase::Bundle && r.0.steps_done == 0 && r.1@.len() == 1
            && is_start_event(r.1@[0], idx, r.0.total, app.name@),
{
    let picked = selected_artifacts(artifacts, selection);
    let (protected, unprivileged) = partition_protected(&picked);
    proof {
        lemma_selected_len(artifacts.deep_view(), selection@);
        lemma_partition_lens(picked.deep_view());
        assert(protected.deep_view().len() == protected@.len());
        assert(unprivileged.deep_view().len() == unprivileged@.len());
        assert(picked.deep_view().len() == picked@.len());
        assert(artifacts.deep_view().len() == artifacts@.len());
    }
    let total: usize = 1 + protected.len() + unprivileged.len();
    let mut events: Vec<ProgressUpdate> = Vec::new();
    events.push(
        ProgressUpdate {
            kind: TaskKind::Uninstall(idx),
            progress_num: 0,
            progress_den: total,
            message: String::from_str("Starting uninstall of ").concat(app.name.as_str()).concat(
                "...",
            ),
            finished: false,
            error: None,
        },
    );
    let phase = if running {
        events.push(
            ProgressUpdate {
                kind: TaskKind::Uninstall(idx),
                progress_num: total,
                progress_den: total,
                message: String::from_str("App is running. Abort uninstall."),
                finished: true,
                error: Some(String::from_str("App is running")),
            },
        );
        UninstallPhase::Aborted
    } else {
        UninstallPhase::Bundle
    };
    let task = UninstallTask {
        idx,
        app_name: app.name.clone(),
        bundle_path: app.path.clone(),
        protected,
        unprivileged,
        pos: 0,
        steps_done: 0,
        total,
        phase,
        history: Ghost(events@),
        removed: Ghost(Seq::empty()),
        unpriv_results: Ghost(Seq::empty()),
    };
    (task, events)
}

/// The failure text the pass reports for one disposal outcome.
pub open spec fn spec_outcome_detail(o: DisposeOutcome, path: Seq<char>) -> Seq<char> {
    match o {
        DisposeOutcome::Removed => Seq::empty(),
        DisposeOutcome::DisposalFailed(s) => s@,
        DisposeOutcome::UnknownPathKind => "Unknown path type: "@ + path,
    }
}

fn outcome_detail(o: &DisposeOutcome, path: &String) -> (r: String)
    ensures
        r@ == spec_outcome_detail(*o, path@),
{
    match o {
        DisposeOutcome::Removed => String::new(),
        DisposeOutcome::DisposalFailed(s) => s.clone(),
        DisposeOutcome::UnknownPathKind => String::from_str("Unknown path type: ").concat(
            path.as_str(),
        ),
    }
}

/// The non-terminal event for a bundle moved out of the way.
pub open spec fn is_bundle_removed_event(
    e: ProgressUpdate,
    idx: usize,
    total: usize,
    path: Seq<char>,
) -> bool {
    &&& e.kind == TaskKind::Uninstall(idx)
    &&& e.progress_num == 1
    &&& e.progress_den == total
    &&& e.message@ == "Moved "@ + path + " to Trash"@
    &&& !e.finished
    &&& e.error is None
}

/// The terminal event for a bundle that could not be removed; no artifact
/// is touched after it.
pub open spec fn is_bundle_failed_event(
    e: ProgressUpdate,
    idx: usize,
    total: usize,
    detail: Seq<char>,
) -> bool {
    &&& e.kind == TaskKind::Uninstall(idx)
    &&& e.progress_num == total
    &&& e.progress_den == total
    &&& e.message@ == "Failed to remove bundle: "@ + detail
    &&& e.finished
    &&& e.error matches Some(m) && m@ == detail
}

/// The non-terminal event for one removed artifact, at step `step` of the
/// pass.
pub open spec fn is_removed_event(
    e: ProgressUpdate,
    idx: usize,
    total: usize,
    step: usize,
    path: Seq<char>,
) -> bool {
    &&& e.kind == TaskKind::Uninstall(idx)
    &&& e.progress_num == step
    &&& e.progress_den == total
    &&& e.message@ == "Removed "@ + path
    &&& !e.finished
    &&& e.error is None
}

/// The terminal event for a protected artifact whose disposal failed: the
/// whole pass stops, naming the failing path.
pub open spec fn is_protected_failed_event(
    e: ProgressUpdate,
    idx: usize,
    total: usize,
    path: Seq<char>,
    detail: Seq<char>,
) -> bool {
    &&& e.kind == TaskKind::Uninstall(idx)
    &&& e.progress_num == total
    &&& e.progress_den == total
    &&& e.message@ == "Aborting uninstall due to failure on "@ + path + ": "@ + detail
    &&& e.finished
    &&& e.error matches Some(m) && m@ == detail
}

/// The non-terminal event for an unprivileged artifact whose disposal
/// failed: the pass carries the error and continues.
pub open spec fn is_unprivileged_failed_event(
    e: ProgressUpdate,
    idx: usize,
    total: usize,
    step: usize,
    path: Seq<char>,
    detail: Seq<char>,
) -> bool {
    &&& e.kind == TaskKind::Uninstall(idx)
    &&& e.progress_num == step
    &&& e.progress_den == total
    &&& e.message@ == "Failed to remove "@ + path + ": "@ + detail
    &&& !e.finished
    &&& e.error matches Some(m) && m@ == detail
}

/// The terminal success event, at progress 1.
pub open spec fn is_done_event(e: ProgressUpdate, idx: usize, total: usize) -> bool {
    &&& e.kind == TaskKind::Uninstall(idx)
    &&& e.progress_num == total
    &&& e.progress_den == total
    &&& e.message@ == "Uninstall complete; refreshing app list"@
    &&& e.finished
    &&& e.error is None
}

/// Where a pass stands after the bundle was removed.
pub open spec fn advanced_from_bundle(o: UninstallTask, n: UninstallTask) -> bool {
    if o.protected@.len() > 0 {
        n.phase == UninstallPhase::Protected && n.pos == 0
    } else if o.unprivileged@.len() > 0 {
        n.phase == UninstallPhase::Unprivileged && n.pos == 0
    } else {
        n.phase == UninstallPhase::Done
    }
}

/// Where a pass stands after a protected artifact was removed.
pub open spec fn advanced_from_protected(o: UninstallTask, n: UninstallTask) -> bool {
    if o.pos + 1 < o.protected@.len() {
        n.phase == UninstallPhase::Protected && n.pos == o.pos + 1
    } else if o.unprivileged@.len() > 0 {
        n.phase == UninstallPhase::Unprivileged && n.pos == 0
    } else {
        n.phase == UninstallPhase::Done
    }
}

/// Where a pass stands after an unprivileged artifact was handled, removed
/// or not.
pub open spec fn advanced_from_unprivileged(o: UninstallTask, n: UninstallTask) -> bool {
    if o.pos + 1 < o.unprivileged@.len() {
        n.phase == UninstallPhase::Unprivileged && n.pos == o.pos + 1
    } else {
        n.phase == UninstallPhase::Done
    }
}

impl UninstallTask {
    fn done_event(idx: usize, total: usize) -> (e: ProgressUpdate)
        ensures
            is_done_event(e, idx, total),
    {
        ProgressUpdate {
            kind: TaskKind::Uninstall(idx),
            progress_num: total,
            progress_den: total,
            message: String::from_str("Uninstall complete; refreshing app list"),
            finished: true,
            error: None,
        }
    }

    /// Report the disposal outcome of the current target and step the pass.
    /// A bundle or protected-artifact failure aborts the pass with a
    /// terminal event; an unprivileged failure emits a non-terminal error
    /// event and continues; whenever the pass completes, the last returned
    /// event is the terminal success event.
    pub fn record(&mut self, outcome: DisposeOutcome) -> (evs: Vec<ProgressUpdate>)
        requires
            old(self).wf(),
            old(self).active(),
        ensures
            final (self).wf(),
            final (self).idx == old(self).idx,
            final (self).app_name == old(self).app_name,
            final (self).bundle_path == old(self).bundle_path,
            final (self).protected == old(self).protected,
            final (self).unprivileged == old(self).unprivileged,
            final (self).total == old(self).total,
            final (self).history@ == old(self).history@ + evs@,
            evs@.len() == if final (self).phase == UninstallPhase::Done {
                2int
            } else {
                1
            },
            final (self).phase == UninstallPhase::Done ==> is_done_event(
                evs@[1],
                old(self).idx,
                old(self).total,
            ),
            old(self).phase == UninstallPhase::Bundle ==> match outcome {
                DisposeOutcome::Removed => {
                    &&& final (self).steps_done == 1
                    &&& final (self).removed@ == old(self).removed@.push(old(self).bundle_path@)
                    &&& is_bundle_removed_event(
                        evs@[0],
                        old(self).idx,
                        old(self).total,
                        old(self).bundle_path@,
                    )
                    &&& advanced_from_bundle(*old(self), *final (self))
                },
                _ => {
                    &&& final (self).phase == UninstallPhase::Aborted
                    &&& final (self).steps_done == 0
                    &&& final (self).removed@ == old(self).removed@
                    &&& is_bundle_failed_event(
                        evs@[0],
                        old(self).idx,
                        old(self).total,
                        spec_outcome_detail(outcome, old(self).bundle_path@),
                    )
                },
            },
            old(self).phase == UninstallPhase::Protected ==> match outcome {
                DisposeOutcome::Removed => {
                    &&& final (self).steps_done == old(self).steps_done + 1
                    &&& final (self).removed@ == old(self).removed@.push(
                        old(self).protected.deep_view()[old(self).pos as int],
                    )
                    &&& is_removed_event(
                        evs@[0],
                        old(self).idx,
                        old(self).total,
                        (old(self).steps_done + 1) as usize,
                        old(self).protected.deep_view()[old(self).pos as int],
                    )
                    &&& advanced_from_protected(*old(self), *final (self))
                },
                _ => {
                    &&& final (self).phase == UninstallPhase::Aborted
                    &&& final (self).steps_done == old(self).steps_done
                    &&& final (self).removed@ == old(self).removed@
                    &&& is_protected_failed_event(
                        evs@[0],
                        old(self).idx,
                        old(self).total,
                        old(self).protected.deep_view()[old(self).pos as int],
                        spec_outcome_detail(
                            outcome,
                            old(self).protected.deep_view()[old(self).pos as int],
                        ),
                    )
                },
            },
            old(self).phase == UninstallPhase::Unprivileged ==> advanced_from_unprivileged(
                *old(self),
                *final (self),
            ) && match outcome {
                DisposeOutcome::Removed => {
                    &&& final (self).steps_done == old(self).steps_done + 1
                    &&& final (self).removed@ == old(self).removed@.push(
                        old(self).unprivileged.deep_view()[old(self).pos as int],
                    )
                    &&& is_removed_event(
                        evs@[0],
                        old(self).idx,
                        old(self).total,
                        (old(self).steps_done + 1) as usize,
                        old(self).unprivileged.deep_view()[old(self).pos as int],
                    )
                },
                _ => {
                    &&& final (self).steps_done == old(self).steps_done
                    &&& final (self).removed@ == old(self).removed@
                    &&& is_unprivileged_failed_event(
                        evs@[0],
                        old(self).idx,
                        old(self).total,
                        old(self).steps_done,
                        old(self).unprivileged.deep_view()[old(self).pos as int],
                        spec_outcome_detail(
                            outcome,
                            old(self).unprivileged.deep_view()[old(self).pos as int],
                        ),
                    )
                },
            },
    {
        let idx = self.idx;
        let total = self.total;
        let ghost h0 = self.history@;
        let ghost s_old = self.steps_done;
        let mut evs: Vec<ProgressUpdate> = Vec::new();
        match self.phase {
            UninstallPhase::Bundle => {
                match &outcome {
                    DisposeOutcome::Removed => {
                        self.steps_done = 1;
                        self.removed = Ghost(self.removed@.push(self.bundle_path@));
                        evs.push(
                            ProgressUpdate {
                                kind: TaskKind::Uninstall(idx),
                                progress_num: 1,
                                progress_den: total,
                                message: String::from_str("Moved ").concat(
                                    self.bundle_path.as_str(),
                                ).concat(" to Trash"),
                                finished: false,
                                error: None,
                            },
                        );
                        if self.protected.len() > 0 {
                            self.phase = UninstallPhase::Protected;
                            self.pos = 0;
                        } else if self.unprivileged.len() > 0 {
                            self.phase = UninstallPhase::Unprivileged;
                            self.pos = 0;
                        } else {
                            self.phase = UninstallPhase::Done;
                            evs.push(Self::done_event(idx, total));
                        }
                        proof {
                            let bp = self.bundle_path@;
                            let prot = self.protected.deep_view();
                            let unp = self.unprivileged.deep_view();
                            assert(self.removed@ =~~= seq![bp]);
                            if self.phase == UninstallPhase::Protected {
                                assert(prot.subrange(0, 0) =~~= Seq::<Seq<char>>::empty());
                                assert(self.removed@ =~~= seq![bp] + prot.subrange(0, 0));
                            } else {
                                assert(prot =~~= Seq::<Seq<char>>::empty());
                                if self.phase == UninstallPhase::Unprivileged {
                                    assert(unp.subrange(0, 0) =~~= Seq::<Seq<char>>::empty());
                                    assert(self.removed@ =~~= seq![bp] + prot + spec_filter_flags(
                                        unp.subrange(0, 0),
                                        self.unpriv_results@,
                                    ));
                                } else {
                                    assert(unp =~~= Seq::<Seq<char>>::empty());
                                    assert(self.removed@ =~~= seq![bp] + prot + spec_filter_flags(
                                        unp,
                                        self.unpriv_results@,
                                    ));
                                }
                            }
                        }
                    },
                    _ => {
                        let detail = outcome_detail(&outcome, &self.bundle_path);
                        self.phase = UninstallPhase::Aborted;
                        evs.push(
                            ProgressUpdate {
                                kind: TaskKind::Uninstall(idx),
                                progress_num: total,
                                progress_den: total,
                                message: String::from_str("Failed to remove bundle: ").concat(
                                    detail.as_str(),
                                ),
                                finished: true,
                                error: Some(detail),
                            },
                        );
                    },
                }
            },
            UninstallPhase::Protected => {
                let ghost p = self.pos as int;
                let path = self.protected[self.pos].clone();
                proof {
                    assert(path@ == self.protected.deep_view()[p]);
                }
                match &outcome {
                    DisposeOutcome::Removed => {
                        self.steps_done = self.steps_done + 1;
                        self.removed = Ghost(self.removed@.push(path@));
                        evs.push(
                            ProgressUpdate {
                                kind: TaskKind::Uninstall(idx),
                                progress_num: self.steps_done,
                                progress_den: total,
                                message: String::from_str("Removed ").concat(path.as_str()),
                                finished: false,
                                error: None,
                            },
                        );
                        if self.pos + 1 < self.protected.len() {
                            self.pos = self.pos + 1;
                        } else if self.unprivileged.len() > 0 {
                            self.phase = UninstallPhase::Unprivileged;
                            self.pos = 0;
                        } else {
                            self.phase = UninstallPhase::Done;
                            evs.push(Self::done_event(idx, total));
                        }
                        proof {
                            let bp = self.bundle_path@;
                            let prot = self.protected.deep_view();
                            let unp = self.unprivileged.deep_view();
                            assert(prot.subrange(0, p + 1) =~~= prot.subrange(0, p).push(prot[p]));
                            assert(self.removed@ =~~= seq![bp] + prot.subrange(0, p + 1));
                            if self.phase != UninstallPhase::Protected {
                                assert(prot.subrange(0, p + 1) =~~= prot);
                                if self.phase == UninstallPhase::Unprivileged {
                                    assert(unp.subrange(0, 0) =~~= Seq::<Seq<char>>::empty());
                                    assert(self.removed@ =~~= seq![bp] + prot + spec_filter_flags(
                                        unp.subrange(0, 0),
                                        self.unpriv_results@,
                                    ));
                                } else {
                                    assert(unp =~~= Seq::<Seq<char>>::empty());
                                    assert(self.removed@ =~~= seq![bp] + prot + spec_filter_flags(
                                        unp,
                                        self.unpriv_results@,
                                    ));
                                }
                            }
                        }
                    },
                    _ => {
                        let detail = outcome_detail(&outcome, &path);
                        self.phase = UninstallPhase::Aborted;
                        evs.push(
                            ProgressUpdate {
                                kind: TaskKind::Uninstall(idx),
                                progress_num: total,
                                progress_den: total,
                                message: String::from_str(
                                    "Aborting uninstall due to failure on ",
                                ).concat(path.as_str()).concat(": ").concat(detail.as_str()),
                                finished: true,
                                error: Some(detail),
                            },
                        );
                        proof {
                            let bp = self.bundle_path@;
                            let prot = self.protected.deep_view();
                            assert(0 <= p <= prot.len());
                            assert(self.removed@ == seq![bp] + prot.subrange(0, p));
                            assert(exists|k: int|
                                0 <= k <= prot.len() && self.removed@ == seq![bp] + prot.subrange(
                                    0,
                                    k,
                                ));
                        }
                    },
                }
            },
            UninstallPhase::Unprivileged => {
                let ghost p = self.pos as int;
                let ghost res0 = self.unpriv_results@;
                let path = self.unprivileged[self.pos].clone();
                proof {
                    assert(path@ == self.unprivileged.deep_view()[p]);
                }
                match &outcome {
                    DisposeOutcome::Removed => {
                        self.steps_done = self.steps_done + 1;
                        self.removed = Ghost(self.removed@.push(path@));
                        self.unpriv_results = Ghost(self.unpriv_results@.push(true));
                        evs.push(
                            ProgressUpdate {
                                kind: TaskKind::Uninstall(idx),
                                progress_num: self.steps_done,
                                progress_den: total,
                                message: String::from_str("Removed ").concat(path.as_str()),
                                finished: false,
                                error: None,
                            },
                        );
                    },
                    _ => {
                        let detail = outcome_detail(&outcome, &path);
                        self.unpriv_results = Ghost(self.unpriv_results@.push(false));
                        evs.push(
                            ProgressUpdate {
                                kind: TaskKind::Uninstall(idx),
                                progress_num: self.steps_done,
                                progress_den: total,
                                message: String::from_str("Failed to remove ").concat(
                                    path.as_str(),
                                ).concat(": ").concat(detail.as_str()),
                                finished: false,
                                error: Some(detail),
                            },
                        );
                    },
                }
                if self.pos + 1 < self.unprivileged.len() {
                    self.pos = self.pos + 1;
                } else {
                    self.phase = UninstallPhase::Done;
                    evs.push(Self::done_event(idx, total));
                }
                proof {
                    let bp = self.bundle_path@;
                    let prot = self.protected.deep_view();
                    let unp = self.unprivileged.deep_view();
                    let kept = outcome is Removed;
                    let tail: Seq<Seq<char>> = if kept {
                        seq![unp[p]]
                    } else {
                        Seq::empty()
                    };
                    lemma_filter_flags_push(unp.subrange(0, p), res0, unp[p], kept);
                    assert(unp.subrange(0, p + 1) =~~= unp.subrange(0, p).push(unp[p]));
                    assert(self.unpriv_results@ == res0.push(kept));
                    assert(spec_filter_flags(unp.subrange(0, p + 1), self.unpriv_results@)
                        == spec_filter_flags(unp.subrange(0, p), res0) + tail);
                    assert(self.removed@ =~~= seq![bp] + prot + (spec_filter_flags(
                        unp.subrange(0, p),
                        res0,
                    ) + tail));
                    if self.phase == UninstallPhase::Done {
                        assert(unp.subrange(0, p + 1) =~~= unp);
                    }
                }
            },
            UninstallPhase::Done => {
                proof {
                    assert(false);
                }
                unreached()
            },
            UninstallPhase::Aborted => {
                proof {
                    assert(false);
                }
                unreached()
            },
        }
        self.history = Ghost(h0 + evs@);
        proof {
            if self.phase == UninstallPhase::Done || self.phase == UninstallPhase::Aborted {
                lemma_close_history(h0, evs@, idx, total, s_old);
            } else {
                lemma_extend_active(h0, evs@, idx, total, s_old, self.steps_done);
            }
        }
        evs
    }
}

/// Every event stream of a pass is monotone and well-formed, and belongs to
/// the pass's task identity.
pub proof fn lemma_history_monotone(t: UninstallTask)
    requires
        t.wf(),
    ensures
        events_monotone(t.history@),
        events_wf(t.history@),
        events_kind(t.history@, TaskKind::Uninstall(t.idx)),
{
    lemma_equal_den_monotone(t.history@, t.total as int);
}

/// A pass that has ended emitted exactly one terminal event, the last one,
/// and it carries progress 1 even after a failure with partial completion.
pub proof fn lemma_single_terminal(t: UninstallTask)
    requires
        t.wf(),
        !t.active(),
    ensures
        terminal_last(t.history@),
{
}

/// While a pass is under way no terminal event has been emitted.
pub proof fn lemma_no_terminal_while_active(t: UninstallTask)
    requires
        t.wf(),
        t.active(),
    ensures
        no_terminal(t.history@),
{
}

/// An aborted pass removed at most the bundle and an unbroken prefix of the
/// protected artifacts; in particular it never touched an unprivileged
/// artifact.
pub proof fn lemma_aborted_removed_prefix(t: UninstallTask)
    requires
        t.wf(),
        t.phase == UninstallPhase::Aborted,
    ensures
        t.removed@ == Seq::<Seq<char>>::empty() || exists|k: int|
            0 <= k <= t.protected.deep_view().len() && t.removed@ == seq![t.bundle_path@]
                + t.protected.deep_view().subrange(0, k),
{
}

/// A completed pass removed the bundle first, then every protected
/// artifact, then exactly those unprivileged artifacts whose disposal
/// succeeded, in list order.
pub proof fn lemma_done_removal_order(t: UninstallTask)
    requires
        t.wf(),
        t.phase == UninstallPhase::Done,
    ensures
        exists|res: Seq<bool>|
            res.len() == t.unprivileged@.len() && t.removed@ == seq![t.bundle_path@]
                + t.protected.deep_view() + spec_filter_flags(t.unprivileged.deep_view(), res),
{
    assert(t.unpriv_results@.len() == t.unprivileged@.len() && t.removed@ == seq![t.bundle_path@]
        + t.protected.deep_view() + spec_filter_flags(
        t.unprivileged.deep_view(),
        t.unpriv_results@,
    ));
}

} // verus!
