//! The engine's laws: properties that hold of every run, stated once and
//! proved from the contracts of the components they speak of.

use vstd::prelude::*;

use crate::change::{closed_under, in_all_closed, input_dirty};
use crate::context::ArtifactView;
use crate::error::Error;
use crate::ident::{AnyWorkId, AnyWorkIdView};
use crate::workload::{acyclic, count_true, valid_order, AnyWork};

verus! {

/// Law: referential stability of filled slots. Every mutation of the
/// context only extends it — `set_unconditionally`, each task's `exec` and
/// the scheduler all promise that previously filled slots keep their
/// value — so once a read of `w` has returned an artifact, every later
/// read of `w`, from any task, returns the identical artifact.
pub proof fn lemma_filled_slot_stable(
    c1: Map<AnyWorkIdView, ArtifactView>,
    c2: Map<AnyWorkIdView, ArtifactView>,
    w: AnyWorkIdView,
)
    requires
        forall|k: AnyWorkIdView| #![trigger c1.contains_key(k)]
            c1.contains_key(k) ==> c2.contains_key(k) && c2[k] == c1[k],
        c1.contains_key(w),
    ensures
        c2.contains_key(w),
        c2[w] == c1[w],
{
}

proof fn lemma_all_false_count(s: Seq<bool>)
    requires
        forall|i: int| 0 <= i < s.len() ==> !s[i],
    ensures
        count_true(s) == 0,
    decreases s.len(),
{
    if s.len() > 0 {
        assert(forall|i: int| 0 <= i < s.drop_last().len() ==> !s.drop_last()[i]);
        lemma_all_false_count(s.drop_last());
    }
}

/// Law: re-running with identical inputs and an intact fingerprint record
/// executes zero tasks. Equal digests and an equal configuration admit no
/// dirty seed; with no seeds, the empty set is dependency-closed, so the
/// minimality of the dirty computation flags no task, and the incremental
/// workload is empty — the scheduler then returns having executed nothing.
pub proof fn lemma_unchanged_inputs_spawn_no_work(
    prev_map: Map<AnyWorkIdView, u64>,
    prev_config: u64,
    curr_map: Map<AnyWorkIdView, u64>,
    curr_config: u64,
    seeds: Seq<AnyWorkId>,
    works: Seq<AnyWork>,
    dirty: Seq<bool>,
)
    requires
        prev_map == curr_map,
        prev_config == curr_config,
        forall|j: int|
            0 <= j < seeds.len() ==> input_dirty(
                prev_map,
                prev_config,
                curr_map,
                curr_config,
                (#[trigger] seeds[j])@,
            ),
        dirty.len() == works.len(),
        forall|i: int| 0 <= i < works.len() && dirty[i] ==> in_all_closed(works, seeds, i),
    ensures
        seeds.len() == 0,
        forall|i: int| 0 <= i < dirty.len() ==> !dirty[i],
        count_true(dirty) == 0,
{
    if seeds.len() > 0 {
        assert(input_dirty(prev_map, prev_config, curr_map, curr_config, seeds[0]@));
    }
    let s0 = Set::<int>::empty();
    assert(closed_under(works, seeds, s0));
    assert forall|i: int| 0 <= i < dirty.len() implies !dirty[i] by {
        if dirty[i] {
            assert(in_all_closed(works, seeds, i));
            assert(s0.contains(i));
        }
    }
    lemma_all_false_count(dirty);
}

/// Law: for any acyclic access-declaration graph the scheduler cannot
/// deadlock. The executor is total by construction, and under acyclic
/// declarations the planner — whose result this lemma takes together with
/// its contract — cannot report a cycle: it yields an order that schedules
/// every task exactly once, each after everything it depends on, whatever
/// the worker count.
pub proof fn lemma_acyclic_never_reports_cycle(
    works: Seq<AnyWork>,
    outcome: Result<Vec<usize>, Error>,
)
    requires
        acyclic(works),
        outcome matches Ok(order) ==> valid_order(order@, works),
        outcome matches Err(e) ==> e matches Error::CyclicDependencies && !acyclic(works),
    ensures
        outcome matches Ok(order) && valid_order(order@, works),
{
    match outcome {
        Result::Ok(order) => {},
        Result::Err(e) => {
            assert(!acyclic(works));
        },
    }
}

} // verus!
