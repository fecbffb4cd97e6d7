//! The workload scheduler: from access declarations to a completed run.
//!
//! Every task's declaration is evaluated once against the identity universe
//! to materialize concrete dependency edges; the graph is checked for a
//! unique producer per identity, for predicates matching no known identity,
//! and for cycles — all before any task runs. Tasks then execute in an
//! order that places every producer before its consumers; among
//! simultaneously ready tasks the order is unspecified and nothing may
//! depend on it. The first failure marks the run failed, but tasks not
//! depending on the failure still run, so one run can report several
//! unrelated problems.

use vstd::prelude::*;

use crate::access::Access;
use crate::context::Context;
use crate::error::Error;
use crate::fragment::GvarFragmentWork;
use crate::gvar::GvarWork;
use crate::ident::{AnyWorkId, AnyWorkIdView, FeWorkIdView};
use crate::timer::{create_timer, JobTimer};
use crate::work::Work;

verus! {

/// One schedulable task of this compiler; the universe of task kinds is
/// fixed at compile time.
pub enum AnyWork {
    /// A per-glyph variation delta task.
    Fragment(GvarFragmentWork),
    /// The gvar assembly task.
    Gvar(GvarWork),
}

impl AnyWork {
    /// Which artifact slot belongs to the work item.
    pub open spec fn id_spec(&self) -> AnyWorkIdView {
        match self {
            AnyWork::Fragment(w) => w.id_spec(),
            AnyWork::Gvar(w) => w.id_spec(),
        }
    }

    /// Which identities the work item declares readable.
    pub open spec fn reads_spec(&self, id: AnyWorkIdView) -> bool {
        match self {
            AnyWork::Fragment(w) => w.reads_spec(id),
            AnyWork::Gvar(w) => w.reads_spec(id),
        }
    }

    /// A pure work item declares nothing readable, and a declaration
    /// matching no known identity is then intended rather than a
    /// configuration error. No current work item is pure.
    pub open spec fn declares_nothing(&self) -> bool {
        match self {
            AnyWork::Fragment(_) => false,
            AnyWork::Gvar(_) => false,
        }
    }

    /// Evaluates [`Self::declares_nothing`].
    pub fn is_pure(&self) -> (r: bool)
        ensures
            r == self.declares_nothing(),
    {
        match self {
            AnyWork::Fragment(_) => false,
            AnyWork::Gvar(_) => false,
        }
    }

    /// Returns the task's own identity.
    pub fn id(&self) -> (r: AnyWorkId)
        ensures
            r@ == self.id_spec(),
    {
        match self {
            AnyWork::Fragment(w) => w.id(),
            AnyWork::Gvar(w) => w.id(),
        }
    }

    /// Returns the task's access declaration.
    pub fn read_access(&self) -> (r: Access)
        ensures
            forall|id: AnyWorkIdView| r.spec_matches(id) == self.reads_spec(id),
    {
        match self {
            AnyWork::Fragment(w) => w.read_access(),
            AnyWork::Gvar(w) => w.read_access(),
        }
    }

    /// Runs the task once against the context.
    pub fn exec(&self, ctx: &mut Context) -> (r: Result<(), Error>)
        requires
            old(ctx).wf(),
        ensures
            final(ctx).wf(),
            forall|k: AnyWorkIdView| #![trigger old(ctx)@.contains_key(k)]
                old(ctx)@.contains_key(k) ==> final(ctx)@.contains_key(k) && final(ctx)@[k]
                    == old(ctx)@[k],
            forall|k: AnyWorkIdView| #![trigger final(ctx)@.contains_key(k)]
                final(ctx)@.contains_key(k) && !old(ctx)@.contains_key(k) ==> k == self.id_spec(),
            r is Ok ==> final(ctx)@.contains_key(self.id_spec()),
            r is Err ==> final(ctx)@ == old(ctx)@,
            old(ctx)@.contains_key(self.id_spec()) ==> r is Err,
    {
        match self {
            AnyWork::Fragment(w) => w.exec(ctx),
            AnyWork::Gvar(w) => w.exec(ctx),
        }
    }
}

/// Task `i` depends on task `j`: `i`'s declaration admits `j`'s identity.
pub open spec fn depends_on(works: Seq<AnyWork>, i: int, j: int) -> bool {
    works[i].reads_spec(works[j].id_spec())
}

/// A ranking that every dependency edge strictly descends: the witness
/// that the declarations are acyclic.
pub open spec fn valid_ranking(rank: Map<int, int>, works: Seq<AnyWork>) -> bool {
    &&& forall|i: int| 0 <= i < works.len() ==> rank.contains_key(i) && #[trigger] rank[i] >= 0
    &&& forall|i: int, j: int|
        0 <= i < works.len() && 0 <= j < works.len() && #[trigger] depends_on(works, i, j)
            ==> rank[j] < rank[i]
}

/// The access declarations of the tasks form no dependency cycle.
pub open spec fn acyclic(works: Seq<AnyWork>) -> bool {
    exists|rank: Map<int, int>| valid_ranking(rank, works)
}

/// Index `x` appears somewhere in the order.
pub open spec fn appears(order: Seq<usize>, x: int) -> bool {
    exists|p: int| 0 <= p < order.len() && (#[trigger] order[p]) as int == x
}

/// `order` schedules every task exactly once, each strictly after
/// everything it depends on.
pub open spec fn valid_order(order: Seq<usize>, works: Seq<AnyWork>) -> bool {
    &&& order.len() == works.len()
    &&& forall|p: int| 0 <= p < order.len() ==> ((#[trigger] order[p]) as int) < works.len()
    &&& forall|p: int, q: int| 0 <= p < q < order.len() ==> order[p] != order[q]
    &&& forall|x: int| 0 <= x < works.len() ==> #[trigger] appears(order, x)
    &&& forall|p: int, j: int|
        0 <= p < order.len() && 0 <= j < works.len() && #[trigger] depends_on(
            works,
            order[p] as int,
            j,
        ) ==> exists|q: int| 0 <= q < p && (#[trigger] order[q]) as int == j
}

/// No two tasks own the same identity, and no task owns a slot already
/// filled before the run.
pub open spec fn producers_unique(
    works: Seq<AnyWork>,
    ctx: Map<AnyWorkIdView, crate::context::ArtifactView>,
) -> bool {
    &&& forall|i: int, j: int|
        0 <= i < j < works.len() ==> (#[trigger] works[i].id_spec()) != (
        #[trigger] works[j].id_spec())
    &&& forall|i: int|
        0 <= i < works.len() ==> !ctx.contains_key(#[trigger] works[i].id_spec())
}

/// Task `i`'s declaration matches a known identity — another task's, or a
/// slot filled before the run — or the task is pure and declares nothing.
/// Any other declaration matches zero known identities: a configuration
/// error, never silently ignored.
pub open spec fn predicate_matched(
    works: Seq<AnyWork>,
    ctx: Map<AnyWorkIdView, crate::context::ArtifactView>,
    i: int,
) -> bool {
    ||| exists|j: int| 0 <= j < works.len() && works[i].reads_spec(#[trigger] works[j].id_spec())
    ||| exists|k: AnyWorkIdView| #[trigger] ctx.contains_key(k) && works[i].reads_spec(k)
    ||| works[i].declares_nothing()
}

/// Every dependency of task `i` has already succeeded.
pub open spec fn ready(works: Seq<AnyWork>, done: Seq<bool>, i: int) -> bool {
    forall|j: int| 0 <= j < works.len() && #[trigger] depends_on(works, i, j) ==> done[j]
}

/// How many entries are true.
pub open spec fn count_true(s: Seq<bool>) -> int
    decreases s.len(),
{
    if s.len() == 0 {
        0
    } else {
        count_true(s.drop_last()) + if s.last() {
            1int
        } else {
            0int
        }
    }
}

pub proof fn lemma_count_true_bound(s: Seq<bool>)
    ensures
        0 <= count_true(s) <= s.len(),
    decreases s.len(),
{
    if s.len() > 0 {
        lemma_count_true_bound(s.drop_last());
    }
}

pub proof fn lemma_count_true_update(s: Seq<bool>, i: int)
    requires
        0 <= i < s.len(),
        !s[i],
    ensures
        count_true(s.update(i, true)) == count_true(s) + 1,
    decreases s.len(),
{
    if i == s.len() - 1 {
        assert(s.update(i, true).drop_last() =~= s.drop_last());
    } else {
        assert(s.update(i, true).drop_last() =~= s.drop_last().update(i, true));
        lemma_count_true_update(s.drop_last(), i);
    }
}

proof fn lemma_count_true_missing(s: Seq<bool>)
    requires
        count_true(s) < s.len(),
    ensures
        exists|i: int| 0 <= i < s.len() && !s[i],
    decreases s.len(),
{
    lemma_count_true_bound(s);
    if !s.last() {
        assert(!s[s.len() - 1]);
    } else {
        lemma_count_true_missing(s.drop_last());
        let i = choose|i: int| 0 <= i < s.drop_last().len() && !s.drop_last()[i];
        assert(!s[i]);
    }
}

/// Once every task is placed, every index appears in the order.
proof fn lemma_count_true_all(s: Seq<bool>)
    requires
        count_true(s) == s.len(),
    ensures
        forall|i: int| 0 <= i < s.len() ==> s[i],
    decreases s.len(),
{
    if s.len() > 0 {
        lemma_count_true_bound(s.drop_last());
        lemma_count_true_all(s.drop_last());
        assert forall|i: int| 0 <= i < s.len() implies s[i] by {
            if i < s.len() - 1 {
                assert(s.drop_last()[i]);
            }
        }
    }
}

/// If every unfinished task waits on an unfinished dependency, an
/// unfinished task's rank exceeds every bound: no ranking can descend
/// forever, so the declarations are cyclic.
proof fn lemma_stuck_rank(works: Seq<AnyWork>, done: Seq<bool>, rank: Map<int, int>, i: int, k: nat)
    requires
        valid_ranking(rank, works),
        done.len() == works.len(),
        forall|x: int| 0 <= x < works.len() && !done[x] ==> !ready(works, done, x),
        0 <= i < works.len(),
        !done[i],
    ensures
        rank[i] >= k,
    decreases k,
{
    if k > 0 {
        assert(!ready(works, done, i));
        let j = choose|j: int|
            0 <= j < works.len() && #[trigger] depends_on(works, i, j) && !done[j];
        lemma_stuck_rank(works, done, rank, j, (k - 1) as nat);
        assert(rank[j] < rank[i]);
    }
}

/// A valid order is itself a ranking: position in the order.
proof fn lemma_order_ranking(order: Seq<usize>, works: Seq<AnyWork>)
    requires
        valid_order(order, works),
    ensures
        acyclic(works),
{
    let rank = Map::<int, int>::new(
        |x: int| 0 <= x < works.len(),
        |x: int| choose|p: int| 0 <= p < order.len() && (#[trigger] order[p]) as int == x,
    );
    assert forall|i: int| 0 <= i < works.len() implies rank.contains_key(i) && #[trigger] rank[i]
        >= 0 by {
        assert(appears(order, i));
        let p = choose|p: int| 0 <= p < order.len() && (#[trigger] order[p]) as int == i;
        assert(rank[i] == choose|p: int|
            0 <= p < order.len() && (#[trigger] order[p]) as int == i);
    }
    assert forall|i: int, j: int|
        0 <= i < works.len() && 0 <= j < works.len() && #[trigger] depends_on(works, i, j)
        implies rank[j] < rank[i] by {
        assert(appears(order, i));
        assert(appears(order, j));
        let pi = choose|p: int| 0 <= p < order.len() && (#[trigger] order[p]) as int == i;
        let pj = choose|p: int| 0 <= p < order.len() && (#[trigger] order[p]) as int == j;
        assert(order[pi] as int == i);
        assert(depends_on(works, order[pi] as int, j));
        let q = choose|q: int| 0 <= q < pi && (#[trigger] order[q]) as int == j;
        if q != pj {
            assert(order[q] != order[pj]);
        }
        assert(rank[i] == pi && rank[j] == pj);
    }
    assert(valid_ranking(rank, works));
}

/// Whether every dependency of task `i` has succeeded.
fn deps_done(works: &Vec<AnyWork>, i: usize, done: &Vec<bool>) -> (r: bool)
    requires
        (i as int) < works@.len(),
        done@.len() == works@.len(),
    ensures
        r == ready(works@, done@, i as int),
{
    let access = works[i].read_access();
    let n = works.len();
    let mut j: usize = 0;
    while j < n
        invariant
            n == works@.len() == done@.len(),
            0 <= j <= n,
            (i as int) < n,
            forall|id: AnyWorkIdView| access.spec_matches(id) == works@[i as int].reads_spec(id),
            forall|jj: int| 0 <= jj < j && #[trigger] depends_on(works@, i as int, jj) ==> done@[jj],
        decreases n - j,
    {
        let jid = works[j].id();
        if access.matches(&jid) && !done[j] {
            proof {
                assert(depends_on(works@, i as int, j as int));
                assert(!done@[j as int]);
            }
            return false;
        }
        j = j + 1;
    }
    true
}

/// Orders the tasks so that every producer precedes its consumers, or
/// reports that the declarations are cyclic — before any task runs.
pub fn topo_sort(works: &Vec<AnyWork>) -> (r: Result<Vec<usize>, Error>)
    ensures
        r matches Ok(order) ==> valid_order(order@, works@) && acyclic(works@),
        r matches Err(e) ==> e matches Error::CyclicDependencies && !acyclic(works@),
{
    let n = works.len();
    let mut done: Vec<bool> = Vec::new();
    let mut t: usize = 0;
    while t < n
        invariant
            0 <= t <= n,
            done@.len() == t,
            forall|x: int| 0 <= x < t ==> !done@[x],
            count_true(done@) == 0,
        decreases n - t,
    {
        let ghost pre = done@;
        done.push(false);
        proof {
            assert(done@.drop_last() =~= pre);
        }
        t = t + 1;
    }
    let mut order: Vec<usize> = Vec::new();
    while order.len() < n
        invariant
            n == works@.len(),
            done@.len() == n,
            order@.len() <= n,
            count_true(done@) == order@.len(),
            forall|p: int| 0 <= p < order@.len() ==> ((#[trigger] order@[p]) as int) < n,
            forall|p: int, q: int| 0 <= p < q < order@.len() ==> order@[p] != order@[q],
            forall|x: int|
                0 <= x < n ==> (done@[x] == exists|p: int|
                    0 <= p < order@.len() && (#[trigger] order@[p]) as int == x),
            forall|p: int, j: int|
                0 <= p < order@.len() && 0 <= j < n && #[trigger] depends_on(
                    works@,
                    order@[p] as int,
                    j,
                ) ==> exists|q: int| 0 <= q < p && (#[trigger] order@[q]) as int == j,
        decreases n - order@.len(),
    {
        let mut pick: usize = n;
        let mut i: usize = 0;
        while i < n
            invariant
                n == works@.len(),
                done@.len() == n,
                0 <= i <= n,
                pick <= n,
                pick == n ==> forall|x: int|
                    0 <= x < i && !done@[x] ==> !ready(works@, done@, x),
                pick < n ==> !done@[pick as int] && ready(works@, done@, pick as int),
            decreases n - i,
        {
            if pick == n && !done[i] {
                if deps_done(works, i, &done) {
                    pick = i;
                }
            }
            i = i + 1;
        }
        if pick == n {
            proof {
                lemma_count_true_bound(done@);
                if acyclic(works@) {
                    let rank = choose|rank: Map<int, int>| valid_ranking(rank, works@);
                    lemma_count_true_missing(done@);
                    let i0 = choose|x: int| 0 <= x < done@.len() && !done@[x];
                    lemma_stuck_rank(works@, done@, rank, i0, (rank[i0] + 1) as nat);
                }
            }
            return Err(Error::CyclicDependencies);
        }
        let ghost pre_done = done@;
        let ghost pre_order = order@;
        done.set(pick, true);
        order.push(pick);
        proof {
            lemma_count_true_update(pre_done, pick as int);
            assert forall|x: int|
                0 <= x < n implies (done@[x] == exists|p: int|
                    0 <= p < order@.len() && (#[trigger] order@[p]) as int == x) by {
                if x == pick as int {
                    assert((order@[order@.len() - 1] as int) == x);
                } else {
                    if done@[x] {
                        assert(pre_done[x]);
                        let p = choose|p: int|
                            0 <= p < pre_order.len() && (#[trigger] pre_order[p]) as int == x;
                        assert((order@[p] as int) == x);
                    }
                    if exists|p: int|
                        0 <= p < order@.len() && (#[trigger] order@[p]) as int == x {
                        let p = choose|p: int|
                            0 <= p < order@.len() && (#[trigger] order@[p]) as int == x;
                        assert(p < pre_order.len());
                        assert((pre_order[p] as int) == x);
                    }
                }
            }
            assert forall|p: int, j: int|
                0 <= p < order@.len() && 0 <= j < n && #[trigger] depends_on(
                    works@,
                    order@[p] as int,
                    j,
                ) implies exists|q: int| 0 <= q < p && (#[trigger] order@[q]) as int == j by {
                if p < pre_order.len() {
                    let q = choose|q: int|
                        0 <= q < p && (#[trigger] pre_order[q]) as int == j;
                    assert((order@[q] as int) == j);
                } else {
                    assert(order@[p] == pick);
                    assert(ready(works@, pre_done, pick as int));
                    assert(pre_done[j]);
                    let q = choose|q: int|
                        0 <= q < pre_order.len() && (#[trigger] pre_order[q]) as int == j;
                    assert((order@[q] as int) == j);
                }
            }
        }
    }
    proof {
        lemma_count_true_all(done@);
        assert forall|x: int| 0 <= x < works@.len() implies #[trigger] appears(order@, x) by {
            assert(done@[x]);
        }
        assert(valid_order(order@, works@));
        lemma_order_ranking(order@, works@);
    }
    Ok(order)
}

/// The set of tasks of one run, driven to completion or failure.
pub struct Workload {
    pub works: Vec<AnyWork>,
}

impl Workload {
    /// A workload over the given tasks.
    pub fn new(works: Vec<AnyWork>) -> (r: Workload)
        ensures
            r.works == works,
    {
        Workload { works }
    }

    /// Exactly one producer per identity, none of them already filled;
    /// `prefilled` enumerates the keys of the context `cm`.
    fn check_unique(
        &self,
        prefilled: &Vec<AnyWorkId>,
        Ghost(cm): Ghost<Map<AnyWorkIdView, crate::context::ArtifactView>>,
    ) -> (r: Result<(), Error>)
        requires
            forall|q: int|
                0 <= q < prefilled@.len() ==> cm.contains_key((#[trigger] prefilled@[q])@),
            forall|k: AnyWorkIdView|
                #[trigger] cm.contains_key(k) ==> exists|q: int|
                    0 <= q < prefilled@.len() && (#[trigger] prefilled@[q])@ == k,
        ensures
            r is Ok <==> producers_unique(self.works@, cm),
            r matches Err(e) ==> e matches Error::DuplicateProducer(_),
    {
        let n = self.works.len();
        let mut i: usize = 0;
        while i < n
            invariant
                n == self.works@.len(),
                0 <= i <= n,
                forall|q: int|
                    0 <= q < prefilled@.len() ==> cm.contains_key((#[trigger] prefilled@[q])@),
                forall|a: int, b: int|
                    0 <= a < b < n && a < i ==> (#[trigger] self.works@[a].id_spec()) != (
                    #[trigger] self.works@[b].id_spec()),
                forall|a: int, p: int|
                    0 <= a < i && 0 <= p < prefilled@.len() ==> (
                    #[trigger] self.works@[a].id_spec()) != (#[trigger] prefilled@[p])@,
            decreases n - i,
        {
            let idi = self.works[i].id();
            let mut j: usize = i + 1;
            while j < n
                invariant
                    n == self.works@.len(),
                    0 <= i < n,
                    i < j <= n,
                    idi@ == self.works@[i as int].id_spec(),
                    forall|b: int|
                        i < b < j ==> self.works@[i as int].id_spec() != (
                        #[trigger] self.works@[b].id_spec()),
                decreases n - j,
            {
                let idj = self.works[j].id();
                if idi.same(&idj) {
                    proof {
                        assert(self.works@[i as int].id_spec() == self.works@[j as int].id_spec());
                    }
                    return Err(Error::DuplicateProducer(idi));
                }
                j = j + 1;
            }
            let mut p: usize = 0;
            while p < prefilled.len()
                invariant
                    n == self.works@.len(),
                    0 <= i < n,
                    0 <= p <= prefilled@.len(),
                    forall|q: int|
                        0 <= q < prefilled@.len() ==> cm.contains_key(
                            (#[trigger] prefilled@[q])@,
                        ),
                    idi@ == self.works@[i as int].id_spec(),
                    forall|b: int|
                        i < b < n ==> self.works@[i as int].id_spec() != (
                        #[trigger] self.works@[b].id_spec()),
                    forall|q: int|
                        0 <= q < p ==> self.works@[i as int].id_spec() != (
                        #[trigger] prefilled@[q])@,
                decreases prefilled@.len() - p,
            {
                if idi.same(&prefilled[p]) {
                    proof {
                        assert(self.works@[i as int].id_spec() == prefilled@[p as int]@);
                        assert(cm.contains_key(self.works@[i as int].id_spec()));
                    }
                    return Err(Error::DuplicateProducer(idi));
                }
                p = p + 1;
            }
            i = i + 1;
        }
        proof {
            assert forall|i: int|
                0 <= i < self.works@.len() implies !cm.contains_key(
                #[trigger] self.works@[i].id_spec(),
            ) by {
                if cm.contains_key(self.works@[i].id_spec()) {
                    let q = choose|q: int|
                        0 <= q < prefilled@.len() && (#[trigger] prefilled@[q])@
                            == self.works@[i].id_spec();
                }
            }
        }
        Ok(())
    }

    /// Every task's declaration matches some known identity, unless the
    /// task is pure; `prefilled` enumerates the keys of the context `cm`.
    fn check_matched(
        &self,
        prefilled: &Vec<AnyWorkId>,
        Ghost(cm): Ghost<Map<AnyWorkIdView, crate::context::ArtifactView>>,
    ) -> (r: Result<(), Error>)
        requires
            forall|q: int|
                0 <= q < prefilled@.len() ==> cm.contains_key((#[trigger] prefilled@[q])@),
            forall|k: AnyWorkIdView|
                #[trigger] cm.contains_key(k) ==> exists|q: int|
                    0 <= q < prefilled@.len() && (#[trigger] prefilled@[q])@ == k,
        ensures
            r is Ok <==> forall|i: int|
                0 <= i < self.works@.len() ==> predicate_matched(self.works@, cm, i),
            r matches Err(e) ==> e matches Error::UnmatchedPredicate(_),
    {
        let n = self.works.len();
        let mut i: usize = 0;
        while i < n
            invariant
                n == self.works@.len(),
                0 <= i <= n,
                forall|q: int|
                    0 <= q < prefilled@.len() ==> cm.contains_key((#[trigger] prefilled@[q])@),
                forall|k: AnyWorkIdView|
                    #[trigger] cm.contains_key(k) ==> exists|q: int|
                        0 <= q < prefilled@.len() && (#[trigger] prefilled@[q])@ == k,
                forall|a: int| 0 <= a < i ==> predicate_matched(self.works@, cm, a),
            decreases n - i,
        {
            let access = self.works[i].read_access();
            let mut matched = self.works[i].is_pure();
            let mut j: usize = 0;
            while j < n
                invariant
                    n == self.works@.len(),
                    0 <= i < n,
                    0 <= j <= n,
                    forall|id: AnyWorkIdView|
                        access.spec_matches(id) == self.works@[i as int].reads_spec(id),
                    matched ==> predicate_matched(self.works@, cm, i as int),
                    !matched ==> !self.works@[i as int].declares_nothing(),
                    !matched ==> forall|jj: int|
                        0 <= jj < j ==> !self.works@[i as int].reads_spec(
                            #[trigger] self.works@[jj].id_spec(),
                        ),
                decreases n - j,
            {
                if !matched {
                    let jid = self.works[j].id();
                    if access.matches(&jid) {
                        matched = true;
                    }
                }
                j = j + 1;
            }
            let mut p: usize = 0;
            while p < prefilled.len()
                invariant
                    n == self.works@.len(),
                    0 <= i < n,
                    0 <= p <= prefilled@.len(),
                    forall|q: int|
                        0 <= q < prefilled@.len() ==> cm.contains_key(
                            (#[trigger] prefilled@[q])@,
                        ),
                    forall|k: AnyWorkIdView|
                        #[trigger] cm.contains_key(k) ==> exists|q: int|
                            0 <= q < prefilled@.len() && (#[trigger] prefilled@[q])@ == k,
                    forall|id: AnyWorkIdView|
                        access.spec_matches(id) == self.works@[i as int].reads_spec(id),
                    matched ==> predicate_matched(self.works@, cm, i as int),
                    !matched ==> !self.works@[i as int].declares_nothing(),
                    !matched ==> forall|jj: int|
                        0 <= jj < n ==> !self.works@[i as int].reads_spec(
                            #[trigger] self.works@[jj].id_spec(),
                        ),
                    !matched ==> forall|q: int|
                        0 <= q < p ==> !self.works@[i as int].reads_spec(
                            (#[trigger] prefilled@[q])@,
                        ),
                decreases prefilled@.len() - p,
            {
                if !matched {
                    if access.matches(&prefilled[p]) {
                        proof {
                            assert(cm.contains_key(prefilled@[p as int]@));
                        }
                        matched = true;
                    }
                }
                p = p + 1;
            }
            if !matched {
                proof {
                    assert forall|k: AnyWorkIdView|
                        #[trigger] cm.contains_key(k) implies !self.works@[i as int].reads_spec(
                        k,
                    ) by {
                        let q = choose|q: int|
                            0 <= q < prefilled@.len() && (#[trigger] prefilled@[q])@ == k;
                    }
                    assert(!predicate_matched(self.works@, cm, i as int));
                }
                return Err(Error::UnmatchedPredicate(self.works[i].id()));
            }
            i = i + 1;
        }
        Ok(())
    }

    /// Plans and runs the workload against the context.
    ///
    /// Planning errors (a duplicate producer, an unmatched predicate, a
    /// cycle) are reported before any task runs. Tasks then execute in
    /// dependency order; a failed task's error is collected, its dependents
    /// are skipped, and independent tasks still run. On `Ok` the returned
    /// count says how many tasks executed — every one of them — and every
    /// task's slot is filled; previously filled slots are never disturbed.
    pub fn exec(&self, ctx: &mut Context, timer: &mut JobTimer) -> (r: Result<usize, Vec<Error>>)
        requires
            old(ctx).wf(),
        ensures
            final(ctx).wf(),
            forall|k: AnyWorkIdView|
                old(ctx)@.contains_key(k) ==> final(ctx)@.contains_key(k) && final(ctx)@[k]
                    == old(ctx)@[k],
            r matches Ok(c) ==> c == self.works@.len() && forall|i: int|
                0 <= i < self.works@.len() ==> final(ctx)@.contains_key(
                    (#[trigger] self.works@[i]).id_spec(),
                ),
            r matches Err(es) ==> es@.len() > 0,
            self.works@.len() == 0 ==> (r matches Ok(c) && c == 0),
            forall|i: int|
                0 <= i < old(timer)@.len() ==> final(timer)@[i] == old(timer)@[i],
            r matches Ok(c) ==> final(timer)@.len() == old(timer)@.len() + c,
            !producers_unique(self.works@, old(ctx)@) ==> (r matches Err(es) && es@.len() == 1
                && (es@[0] matches Error::DuplicateProducer(_)) && final(ctx)@ == old(ctx)@
                && final(timer)@ == old(timer)@),
            (producers_unique(self.works@, old(ctx)@) && !(forall|i: int|
                0 <= i < self.works@.len() ==> predicate_matched(self.works@, old(ctx)@, i)))
                ==> (r matches Err(es) && es@.len() == 1 && (es@[0] matches
                Error::UnmatchedPredicate(_)) && final(ctx)@ == old(ctx)@ && final(timer)@
                == old(timer)@),
            (producers_unique(self.works@, old(ctx)@) && (forall|i: int|
                0 <= i < self.works@.len() ==> predicate_matched(self.works@, old(ctx)@, i))
                && !acyclic(self.works@)) ==> (r matches Err(es) && es@.len() == 1 && (es@[0]
                matches Error::CyclicDependencies) && final(ctx)@ == old(ctx)@ && final(timer)@
                == old(timer)@),
            forall|k: AnyWorkIdView| #![trigger final(ctx)@.contains_key(k)]
                final(ctx)@.contains_key(k) && !old(ctx)@.contains_key(k) ==> exists|i: int|
                    0 <= i < self.works@.len() && (#[trigger] self.works@[i]).id_spec() == k,
            producers_unique(self.works@, old(ctx)@) ==> ((r matches Ok(c)) <==> (forall|
                i: int,
            |
                0 <= i < self.works@.len() ==> final(ctx)@.contains_key(
                    (#[trigger] self.works@[i]).id_spec(),
                ))),
    {
        let prefilled = ctx.filled_ids();
        match self.check_unique(&prefilled, Ghost(ctx@)) {
            Ok(()) => {},
            Err(e) => {
                let mut es: Vec<Error> = Vec::new();
                es.push(e);
                return Err(es);
            },
        }
        match self.check_matched(&prefilled, Ghost(ctx@)) {
            Ok(()) => {},
            Err(e) => {
                proof {
                    if producers_unique(self.works@, ctx@) {
                        let i = choose|i: int|
                            0 <= i < self.works@.len() && !predicate_matched(
                                self.works@,
                                ctx@,
                                i,
                            );
                        assert(!ctx@.contains_key(self.works@[i].id_spec()));
                    }
                }
                let mut es: Vec<Error> = Vec::new();
                es.push(e);
                return Err(es);
            },
        }
        let order = match topo_sort(&self.works) {
            Ok(o) => o,
            Err(e) => {
                proof {
                    if self.works@.len() == 0 {
                        let rank = Map::<int, int>::empty();
                        assert(valid_ranking(rank, self.works@));
                    }
                    if producers_unique(self.works@, ctx@) && self.works@.len() > 0 {
                        assert(!ctx@.contains_key(self.works@[0].id_spec()));
                    }
                }
                let mut es: Vec<Error> = Vec::new();
                es.push(e);
                return Err(es);
            },
        };
        let n = self.works.len();
        let mut succeeded: Vec<bool> = Vec::new();
        let mut t: usize = 0;
        while t < n
            invariant
                0 <= t <= n,
                succeeded@.len() == t,
                forall|x: int| 0 <= x < t ==> !succeeded@[x],
            decreases n - t,
        {
            succeeded.push(false);
            t = t + 1;
        }
        let mut errors: Vec<Error> = Vec::new();
        let mut executed: usize = 0;
        let mut p: usize = 0;
        let ghost ctx0 = ctx@;
        let ghost timer0 = timer@;
        while p < n
            invariant
                n == self.works@.len(),
                order@.len() == n,
                succeeded@.len() == n,
                valid_order(order@, self.works@),
                0 <= p <= n,
                executed <= p,
                errors@.len() <= p,
                ctx.wf(),
                ctx0 == old(ctx)@,
                forall|k: AnyWorkIdView| #![trigger ctx0.contains_key(k)]
                    ctx0.contains_key(k) ==> ctx@.contains_key(k) && ctx@[k] == ctx0[k],
                producers_unique(self.works@, ctx0),
                forall|x: int|
                    0 <= x < n ==> (succeeded@[x] == ctx@.contains_key(
                        (#[trigger] self.works@[x]).id_spec(),
                    )),
                forall|k: AnyWorkIdView| #![trigger ctx@.contains_key(k)]
                    ctx@.contains_key(k) && !ctx0.contains_key(k) ==> exists|x: int|
                        0 <= x < n && (#[trigger] self.works@[x]).id_spec() == k,
                forall|q: int| p <= q < n ==> !succeeded@[(#[trigger] order@[q]) as int],
                errors@.len() > 0 ==> exists|q: int|
                    0 <= q < p && !succeeded@[(#[trigger] order@[q]) as int],
                errors@.len() == 0 ==> forall|q: int|
                    0 <= q < p ==> succeeded@[(#[trigger] order@[q]) as int],
                errors@.len() == 0 ==> executed == p,
                timer0 == old(timer)@,
                timer@.len() == timer0.len() + executed,
                forall|t: int| 0 <= t < timer0.len() ==> timer@[t] == timer0[t],
            decreases n - p,
        {
            let i = order[p];
            proof {
                assert(((order@[p as int]) as int) < n);
            }
            if deps_done(&self.works, i, &succeeded) {
                let t = create_timer(self.works[i].id()).queued().run();
                executed = executed + 1;
                let ghost ctx_pre = ctx@;
                let res = self.works[i].exec(ctx);
                timer.add(t.complete());
                proof {
                    assert forall|k: AnyWorkIdView| #![trigger ctx0.contains_key(k)]
                        ctx0.contains_key(k) implies ctx@.contains_key(k) && ctx@[k]
                        == ctx0[k] by {
                        assert(ctx_pre.contains_key(k) && ctx_pre[k] == ctx0[k]);
                    }
                }
                proof {
                    assert forall|k: AnyWorkIdView| #![trigger ctx@.contains_key(k)]
                        ctx@.contains_key(k) && !ctx0.contains_key(k) implies exists|x: int|
                        0 <= x < n && (#[trigger] self.works@[x]).id_spec() == k by {
                        if ctx_pre.contains_key(k) {
                            let x = choose|x: int|
                                0 <= x < n && (#[trigger] self.works@[x]).id_spec() == k;
                        } else {
                            assert(k == self.works@[i as int].id_spec());
                        }
                    }
                }
                let ghost pre_succ = succeeded@;
                let ghost pre_errors = errors@;
                match res {
                    Ok(()) => {
                        succeeded.set(i, true);
                        proof {
                            assert forall|x: int|
                                0 <= x < n implies (succeeded@[x] == ctx@.contains_key(
                                (#[trigger] self.works@[x]).id_spec(),
                            )) by {
                                if x == i as int {
                                    assert(ctx@.contains_key(self.works@[x].id_spec()));
                                } else {
                                    if x < i as int {
                                        assert(self.works@[x].id_spec() != self.works@[
                                            i as int
                                        ].id_spec());
                                    } else {
                                        assert(self.works@[i as int].id_spec() != self.works@[
                                            x
                                        ].id_spec());
                                    }
                                    if ctx@.contains_key(self.works@[x].id_spec()) {
                                        assert(ctx_pre.contains_key(
                                            self.works@[x].id_spec(),
                                        ));
                                    }
                                }
                            }
                            assert forall|q: int|
                                p + 1 <= q < n implies !succeeded@[(
                            #[trigger] order@[q]) as int] by {
                                assert(order@[q] != order@[p as int]);
                            }
                            if errors@.len() > 0 {
                                let q0 = choose|q: int|
                                    0 <= q < p && !pre_succ[(#[trigger] order@[q]) as int];
                                assert(order@[q0] != order@[p as int]);
                                assert(!succeeded@[(order@[q0]) as int]);
                            }
                        }
                    },
                    Err(e) => {
                        errors.push(e);
                        proof {
                            assert(ctx@ == ctx_pre);
                            assert(!succeeded@[(order@[p as int]) as int]);
                        }
                    },
                }
            } else {
                proof {
                    if errors@.len() == 0 {
                        let j = choose|j: int|
                            0 <= j < n && #[trigger] depends_on(self.works@, i as int, j)
                                && !succeeded@[j];
                        assert(depends_on(self.works@, order@[p as int] as int, j));
                        let q = choose|q: int|
                            0 <= q < p && (#[trigger] order@[q]) as int == j;
                        assert(succeeded@[j]);
                    }
                }
            }
            p = p + 1;
        }
        if errors.len() == 0 {
            proof {
                assert forall|i: int|
                    0 <= i < n implies ctx@.contains_key(
                    (#[trigger] self.works@[i]).id_spec(),
                ) by {
                    assert(appears(order@, i));
                    let q = choose|q: int| 0 <= q < order@.len() && (#[trigger] order@[q]) as int
                        == i;
                    assert(succeeded@[i]);
                }
            }
            Ok(executed)
        } else {
            proof {
                let q0 = choose|q: int|
                    0 <= q < p && !succeeded@[(#[trigger] order@[q]) as int];
                assert(((order@[q0]) as int) < n);
                assert(!ctx@.contains_key(
                    (self.works@[order@[q0] as int]).id_spec(),
                ));
            }
            Err(errors)
        }
    }
}

} // verus!
