//! Properties of progress-event streams.
//!
//! Progress is an exact rational `num / den`.  Within one operation the
//! fractions are non-decreasing, and a terminal event always carries
//! progress 1, even on failure with partial completion.

use vstd::arithmetic::mul::lemma_mul_inequality;
use vstd::prelude::*;

use crate::types::{ProgressUpdate, TaskKind};

verus! {

/// `a`'s fraction is at most `b`'s.
pub open spec fn frac_le(a: ProgressUpdate, b: ProgressUpdate) -> bool {
    a.progress_num * b.progress_den <= b.progress_num * a.progress_den
}

/// Fractions never decrease along the stream.
pub open spec fn events_monotone(evs: Seq<ProgressUpdate>) -> bool {
    forall|i: int, j: int| 0 <= i <= j < evs.len() ==> frac_le(evs[i], evs[j])
}

/// Every event carries a fraction in `[0, 1]`.
pub open spec fn events_wf(evs: Seq<ProgressUpdate>) -> bool {
    forall|i: int| 0 <= i < evs.len() ==> (#[trigger] evs[i]).wf()
}

/// No event is terminal.
pub open spec fn no_terminal(evs: Seq<ProgressUpdate>) -> bool {
    forall|i: int| 0 <= i < evs.len() ==> !(#[trigger] evs[i]).finished
}

/// No event carries an error.
pub open spec fn events_no_error(evs: Seq<ProgressUpdate>) -> bool {
    forall|i: int| 0 <= i < evs.len() ==> (#[trigger] evs[i]).error is None
}

/// Only the last event is terminal, and it carries progress 1.
pub open spec fn terminal_last(evs: Seq<ProgressUpdate>) -> bool {
    &&& evs.len() > 0
    &&& evs.last().finished
    &&& evs.last().progress_num == evs.last().progress_den
    &&& forall|i: int| 0 <= i < evs.len() - 1 ==> !(#[trigger] evs[i]).finished
}

/// All events belong to the given task.
pub open spec fn events_kind(evs: Seq<ProgressUpdate>, kind: TaskKind) -> bool {
    forall|i: int| 0 <= i < evs.len() ==> (#[trigger] evs[i]).kind == kind
}

/// With one common denominator, non-decreasing numerators give
/// non-decreasing fractions.
pub proof fn lemma_equal_den_monotone(evs: Seq<ProgressUpdate>, d: int)
    requires
        forall|i: int| 0 <= i < evs.len() ==> (#[trigger] evs[i]).progress_den == d,
        forall|i: int, j: int|
            0 <= i <= j < evs.len() ==> (#[trigger] evs[i]).progress_num <= (
            #[trigger] evs[j]).progress_num,
    ensures
        events_monotone(evs),
{
    assert forall|i: int, j: int| 0 <= i <= j < evs.len() implies frac_le(evs[i], evs[j]) by {
        lemma_mul_inequality(evs[i].progress_num as int, evs[j].progress_num as int, d);
    }
}

} // verus!
