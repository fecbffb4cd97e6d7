//! The change detector: from fingerprint differences to the minimal dirty
//! task set.
//!
//! Each source input's digest from the prior successful run is compared
//! against its current digest; an input is dirty when its fingerprint
//! differs or is absent, or when the configuration's fingerprint changed.
//! Dirtiness propagates transitively through access declarations — any task
//! whose declaration could match a dirty identity is dirty, to a fixed
//! point and no further — and only dirty tasks are re-executed.

use vstd::prelude::*;

use crate::ident::{AnyWorkId, AnyWorkIdView};
use crate::workload::{count_true, depends_on, AnyWork};

verus! {

/// The map the fingerprint entries describe.
pub open spec fn fp_map(s: Seq<(AnyWorkId, u64)>) -> Map<AnyWorkIdView, u64>
    decreases s.len(),
{
    if s.len() == 0 {
        Map::empty()
    } else {
        fp_map(s.drop_last()).insert(s.last().0@, s.last().1)
    }
}

proof fn lemma_fp_map_domain(s: Seq<(AnyWorkId, u64)>, k: AnyWorkIdView)
    ensures
        fp_map(s).contains_key(k) <==> exists|i: int| 0 <= i < s.len() && s[i].0@ == k,
    decreases s.len(),
{
    if s.len() > 0 {
        lemma_fp_map_domain(s.drop_last(), k);
        if fp_map(s).contains_key(k) && s.last().0@ != k {
            let i = choose|i: int| 0 <= i < s.drop_last().len() && s.drop_last()[i].0@ == k;
            assert(s[i].0@ == k);
        }
        if exists|i: int| 0 <= i < s.len() && s[i].0@ == k {
            let i = choose|i: int| 0 <= i < s.len() && s[i].0@ == k;
            if i < s.len() - 1 {
                assert(s.drop_last()[i].0@ == k);
            }
        }
    }
}

proof fn lemma_fp_map_at(s: Seq<(AnyWorkId, u64)>, i: int)
    requires
        forall|p: int, q: int| 0 <= p < q < s.len() ==> s[p].0@ != s[q].0@,
        0 <= i < s.len(),
    ensures
        fp_map(s).contains_key(s[i].0@),
        fp_map(s)[s[i].0@] == s[i].1,
    decreases s.len(),
{
    lemma_fp_map_domain(s, s[i].0@);
    if i < s.len() - 1 {
        assert(forall|p: int, q: int|
            0 <= p < q < s.drop_last().len() ==> s.drop_last()[p].0@ != s.drop_last()[q].0@);
        lemma_fp_map_at(s.drop_last(), i);
        assert(s.last().0@ != s[i].0@);
    }
}

/// The persisted digests of one run: one fingerprint per source input,
/// plus the fingerprint of the active configuration.
pub struct Fingerprints {
    entries: Vec<(AnyWorkId, u64)>,
    pub config: u64,
}

impl Fingerprints {
    /// The configuration fingerprint this record was made under.
    pub closed spec fn config_spec(&self) -> u64 {
        self.config
    }

    /// The inputs carry distinct identities.
    pub closed spec fn wf(&self) -> bool {
        forall|p: int, q: int|
            0 <= p < q < self.entries@.len() ==> self.entries@[p].0@ != self.entries@[q].0@
    }

    /// The recorded digests, as a map from input identity to fingerprint.
    pub closed spec fn view(&self) -> Map<AnyWorkIdView, u64> {
        fp_map(self.entries@)
    }

    /// An empty record under the given configuration fingerprint.
    pub fn new(config: u64) -> (r: Fingerprints)
        ensures
            r.wf(),
            r@ == Map::<AnyWorkIdView, u64>::empty(),
            r.config_spec() == config,
    {
        Fingerprints { entries: Vec::new(), config }
    }

    /// Records one input's digest; an input is fingerprinted once.
    pub fn add(&mut self, id: AnyWorkId, fingerprint: u64) -> (r: bool)
        requires
            old(self).wf(),
        ensures
            final(self).wf(),
            final(self).config_spec() == old(self).config_spec(),
            r == !old(self)@.contains_key(id@),
            r ==> final(self)@ == old(self)@.insert(id@, fingerprint),
            !r ==> final(self)@ == old(self)@,
    {
        let n = self.entries.len();
        let mut i: usize = 0;
        while i < n
            invariant
                n == self.entries@.len(),
                0 <= i <= n,
                self.wf(),
                forall|j: int| 0 <= j < i ==> self.entries@[j].0@ != id@,
            decreases n - i,
        {
            if self.entries[i].0.same(&id) {
                proof {
                    lemma_fp_map_domain(self.entries@, id@);
                }
                return false;
            }
            i = i + 1;
        }
        proof {
            lemma_fp_map_domain(self.entries@, id@);
        }
        let ghost pre = self.entries@;
        self.entries.push((id, fingerprint));
        proof {
            assert(self.entries@.drop_last() =~= pre);
        }
        true
    }

    /// The recorded digest of one input, if any.
    pub fn lookup(&self, id: &AnyWorkId) -> (r: Option<u64>)
        requires
            self.wf(),
        ensures
            match r {
                Some(fp) => self@.contains_key(id@) && self@[id@] == fp,
                None => !self@.contains_key(id@),
            },
    {
        let n = self.entries.len();
        let mut i: usize = 0;
        while i < n
            invariant
                n == self.entries@.len(),
                0 <= i <= n,
                self.wf(),
                forall|j: int| 0 <= j < i ==> self.entries@[j].0@ != id@,
            decreases n - i,
        {
            if self.entries[i].0.same(id) {
                proof {
                    lemma_fp_map_at(self.entries@, i as int);
                }
                return Some(self.entries[i].1);
            }
            i = i + 1;
        }
        proof {
            lemma_fp_map_domain(self.entries@, id@);
        }
        None
    }

    /// The identities of every fingerprinted input.
    pub fn input_ids(&self) -> (r: Vec<AnyWorkId>)
        requires
            self.wf(),
        ensures
            forall|j: int| 0 <= j < r@.len() ==> self@.contains_key((#[trigger] r@[j])@),
            forall|k: AnyWorkIdView|
                self@.contains_key(k) ==> exists|j: int| 0 <= j < r@.len() && (#[trigger] r@[j])@
                    == k,
    {
        let n = self.entries.len();
        let mut r: Vec<AnyWorkId> = Vec::new();
        let mut i: usize = 0;
        while i < n
            invariant
                n == self.entries@.len(),
                0 <= i <= n,
                self.wf(),
                r@.len() == i,
                forall|j: int| 0 <= j < i ==> (#[trigger] r@[j])@ == self.entries@[j].0@,
            decreases n - i,
        {
            r.push(self.entries[i].0.duplicate());
            i = i + 1;
        }
        proof {
            assert forall|j: int| 0 <= j < r@.len() implies self@.contains_key(
                (#[trigger] r@[j])@,
            ) by {
                lemma_fp_map_at(self.entries@, j);
            }
            assert forall|k: AnyWorkIdView| self@.contains_key(k) implies exists|j: int|
                0 <= j < r@.len() && (#[trigger] r@[j])@ == k by {
                lemma_fp_map_domain(self.entries@, k);
                let j = choose|j: int| 0 <= j < self.entries@.len() && self.entries@[j].0@ == k;
                assert(r@[j]@ == k);
            }
        }
        r
    }
}

/// The input named `k` must be rebuilt: its digest changed or was never
/// recorded, or the configuration changed under it.
pub open spec fn input_dirty(
    prev_map: Map<AnyWorkIdView, u64>,
    prev_config: u64,
    curr_map: Map<AnyWorkIdView, u64>,
    curr_config: u64,
    k: AnyWorkIdView,
) -> bool {
    curr_map.contains_key(k) && (prev_config != curr_config || !prev_map.contains_key(k)
        || prev_map[k] != curr_map[k])
}

/// Compares the prior record against the current digests and returns
/// exactly the dirty input identities.
pub fn dirty_seeds(prev: &Fingerprints, curr: &Fingerprints) -> (r: Vec<AnyWorkId>)
    requires
        prev.wf(),
        curr.wf(),
    ensures
        forall|j: int|
            0 <= j < r@.len() ==> input_dirty(
                prev@,
                prev.config_spec(),
                curr@,
                curr.config_spec(),
                (#[trigger] r@[j])@,
            ),
        forall|k: AnyWorkIdView|
            input_dirty(prev@, prev.config_spec(), curr@, curr.config_spec(), k) ==> exists|j: int|
                0 <= j < r@.len() && (#[trigger] r@[j])@ == k,
{
    let ids = curr.input_ids();
    let config_changed = prev.config != curr.config;
    let mut r: Vec<AnyWorkId> = Vec::new();
    let n = ids.len();
    let mut i: usize = 0;
    while i < n
        invariant
            n == ids@.len(),
            0 <= i <= n,
            prev.wf(),
            curr.wf(),
            config_changed == (prev.config_spec() != curr.config_spec()),
            forall|j: int| 0 <= j < ids@.len() ==> curr@.contains_key((#[trigger] ids@[j])@),
            forall|k: AnyWorkIdView|
                curr@.contains_key(k) ==> exists|j: int| 0 <= j < ids@.len() && (
                #[trigger] ids@[j])@ == k,
            forall|j: int|
                0 <= j < r@.len() ==> input_dirty(
                    prev@,
                    prev.config_spec(),
                    curr@,
                    curr.config_spec(),
                    (#[trigger] r@[j])@,
                ),
            forall|jj: int|
                0 <= jj < i && input_dirty(
                    prev@,
                    prev.config_spec(),
                    curr@,
                    curr.config_spec(),
                    (#[trigger] ids@[jj])@,
                ) ==> exists|j: int| 0 <= j < r@.len() && (#[trigger] r@[j])@ == ids@[jj]@,
        decreases n - i,
    {
        let ghost pre_r = r@;
        let id = &ids[i];
        let curr_fp = match curr.lookup(id) {
            Some(fp) => fp,
            None => 0,
        };
        let is_dirty = if config_changed {
            true
        } else {
            match prev.lookup(id) {
                Some(p) => p != curr_fp,
                None => true,
            }
        };
        if is_dirty {
            r.push(id.duplicate());
        }
        proof {
            assert forall|jj: int|
                0 <= jj < i + 1 && input_dirty(
                    prev@,
                    prev.config_spec(),
                    curr@,
                    curr.config_spec(),
                    (#[trigger] ids@[jj])@,
                ) implies exists|j: int| 0 <= j < r@.len() && (#[trigger] r@[j])@
                == ids@[jj]@ by {
                if jj < i {
                    let j = choose|j: int|
                        0 <= j < pre_r.len() && (#[trigger] pre_r[j])@ == ids@[jj]@;
                    assert(r@[j]@ == ids@[jj]@);
                } else {
                    assert(r@[r@.len() - 1]@ == ids@[jj]@);
                }
            }
        }
        i = i + 1;
    }
    proof {
        assert forall|k: AnyWorkIdView|
            input_dirty(prev@, prev.config_spec(), curr@, curr.config_spec(), k) implies exists|j: int|
            0 <= j < r@.len() && (#[trigger] r@[j])@ == k by {
            let jj = choose|jj: int| 0 <= jj < ids@.len() && (#[trigger] ids@[jj])@ == k;
            assert(input_dirty(prev@, prev.config_spec(), curr@, curr.config_spec(), ids@[jj]@));
        }
    }
    r
}

/// `s` contains every task seeded dirty and is closed under dependency on
/// a dirty task.
pub open spec fn closed_under(works: Seq<AnyWork>, seeds: Seq<AnyWorkId>, s: Set<int>) -> bool {
    &&& forall|i: int, p: int|
        0 <= i < works.len() && 0 <= p < seeds.len() && #[trigger] works[i].reads_spec(
            seeds[p]@,
        ) ==> s.contains(i)
    &&& forall|i: int, j: int|
        0 <= i < works.len() && 0 <= j < works.len() && s.contains(j) && #[trigger] depends_on(
            works,
            i,
            j,
        ) ==> s.contains(i)
}

/// Task `i` belongs to every dependency-closed superset of the seeds: it is
/// genuinely dirty, not over-approximated.
pub open spec fn in_all_closed(works: Seq<AnyWork>, seeds: Seq<AnyWorkId>, i: int) -> bool {
    forall|s: Set<int>| #[trigger] closed_under(works, seeds, s) ==> s.contains(i)
}

/// The indices flagged in `dirty`.
pub open spec fn dirty_set(dirty: Seq<bool>) -> Set<int> {
    Set::new(|i: int| 0 <= i < dirty.len() && dirty[i])
}

/// Whether task `i`'s declaration matches some seed identity.
fn reads_any_seed(works: &Vec<AnyWork>, i: usize, seeds: &Vec<AnyWorkId>) -> (r: bool)
    requires
        (i as int) < works@.len(),
    ensures
        r == exists|p: int|
            0 <= p < seeds@.len() && works@[i as int].reads_spec((#[trigger] seeds@[p])@),
{
    let access = works[i].read_access();
    let m = seeds.len();
    let mut p: usize = 0;
    while p < m
        invariant
            m == seeds@.len(),
            0 <= p <= m,
            (i as int) < works@.len(),
            forall|id: AnyWorkIdView| access.spec_matches(id) == works@[i as int].reads_spec(id),
            forall|q: int| 0 <= q < p ==> !works@[i as int].reads_spec((#[trigger] seeds@[q])@),
        decreases m - p,
    {
        if access.matches(&seeds[p]) {
            proof {
                assert(works@[i as int].reads_spec(seeds@[p as int]@));
            }
            return true;
        }
        p = p + 1;
    }
    false
}

/// Whether task `i` depends on some task already flagged dirty.
fn reads_any_dirty(works: &Vec<AnyWork>, i: usize, dirty: &Vec<bool>) -> (r: bool)
    requires
        (i as int) < works@.len(),
        dirty@.len() == works@.len(),
    ensures
        r == exists|j: int|
            0 <= j < works@.len() && dirty@[j] && #[trigger] depends_on(works@, i as int, j),
{
    let access = works[i].read_access();
    let m = works.len();
    let mut j: usize = 0;
    while j < m
        invariant
            m == works@.len() == dirty@.len(),
            0 <= j <= m,
            (i as int) < m,
            forall|id: AnyWorkIdView| access.spec_matches(id) == works@[i as int].reads_spec(id),
            forall|q: int|
                0 <= q < j ==> !(dirty@[q] && #[trigger] depends_on(works@, i as int, q)),
        decreases m - j,
    {
        if dirty[j] {
            let jid = works[j].id();
            if access.matches(&jid) {
                proof {
                    assert(depends_on(works@, i as int, j as int));
                }
                return true;
            }
        }
        j = j + 1;
    }
    false
}

/// Flags exactly the dirty tasks: every task whose declaration matches a
/// dirty input, and transitively every task depending on a dirty task — and
/// no others.
pub fn compute_dirty(works: &Vec<AnyWork>, seeds: &Vec<AnyWorkId>) -> (dirty: Vec<bool>)
    ensures
        dirty@.len() == works@.len(),
        closed_under(works@, seeds@, dirty_set(dirty@)),
        forall|i: int| 0 <= i < works@.len() && dirty@[i] ==> in_all_closed(works@, seeds@, i),
{
    let n = works.len();
    let mut dirty: Vec<bool> = Vec::new();
    let mut t: usize = 0;
    while t < n
        invariant
            0 <= t <= n,
            dirty@.len() == t,
            forall|x: int| 0 <= x < t ==> !dirty@[x],
            count_true(dirty@) == 0,
        decreases n - t,
    {
        let ghost pre = dirty@;
        dirty.push(false);
        proof {
            assert(dirty@.drop_last() =~= pre);
        }
        t = t + 1;
    }
    let mut changed = true;
    while changed
        invariant
            n == works@.len(),
            dirty@.len() == n,
            0 <= count_true(dirty@) <= n,
            forall|i: int| 0 <= i < n && dirty@[i] ==> in_all_closed(works@, seeds@, i),
            !changed ==> forall|i: int|
                0 <= i < n && !dirty@[i] ==> !(exists|p: int|
                    0 <= p < seeds@.len() && works@[i].reads_spec((#[trigger] seeds@[p])@))
                    && !(exists|j: int|
                    0 <= j < n && dirty@[j] && #[trigger] depends_on(works@, i, j)),
        decreases n + 1 - count_true(dirty@), (if changed {
            1int
        } else {
            0int
        }),
    {
        proof {
            crate::workload::lemma_count_true_bound(dirty@);
        }
        changed = false;
        let ghost pass_start = dirty@;
        let mut i: usize = 0;
        while i < n
            invariant
                n == works@.len(),
                dirty@.len() == n,
                0 <= i <= n,
                forall|x: int| 0 <= x < n && dirty@[x] ==> in_all_closed(works@, seeds@, x),
                !changed ==> dirty@ == pass_start,
                changed ==> count_true(dirty@) > count_true(pass_start),
                !changed ==> forall|ii: int|
                    0 <= ii < i && !dirty@[ii] ==> !(exists|p: int|
                        0 <= p < seeds@.len() && works@[ii].reads_spec((#[trigger] seeds@[p])@))
                        && !(exists|j: int|
                        0 <= j < n && dirty@[j] && #[trigger] depends_on(works@, ii, j)),
            decreases n - i,
        {
            if !dirty[i] {
                let from_seed = reads_any_seed(works, i, seeds);
                let from_dep = reads_any_dirty(works, i, &dirty);
                if from_seed || from_dep {
                    let ghost pre = dirty@;
                    let ghost pre_count = count_true(dirty@);
                    dirty.set(i, true);
                    proof {
                        crate::workload::lemma_count_true_update(pre, i as int);
                        assert forall|s: Set<int>|
                            #[trigger] closed_under(works@, seeds@, s) implies s.contains(
                            i as int,
                        ) by {
                            if from_seed {
                                let p = choose|p: int|
                                    0 <= p < seeds@.len() && works@[i as int].reads_spec(
                                        (#[trigger] seeds@[p])@,
                                    );
                                assert(s.contains(i as int));
                            } else {
                                let j = choose|j: int|
                                    0 <= j < works@.len() && pre[j]
                                        && #[trigger] depends_on(works@, i as int, j);
                                assert(in_all_closed(works@, seeds@, j));
                                assert(s.contains(j));
                            }
                        }
                        assert(in_all_closed(works@, seeds@, i as int));
                    }
                    changed = true;
                }
            }
            i = i + 1;
        }
        proof {
            crate::workload::lemma_count_true_bound(dirty@);
        }
    }
    proof {
        assert forall|i: int, p: int|
            0 <= i < works@.len() && 0 <= p < seeds@.len() && #[trigger] works@[i].reads_spec(
                seeds@[p]@,
            ) implies dirty_set(dirty@).contains(i) by {
            assert(dirty@[i]);
        }
        assert forall|i: int, j: int|
            0 <= i < works@.len() && 0 <= j < works@.len() && dirty_set(dirty@).contains(j)
                && #[trigger] depends_on(works@, i, j) implies dirty_set(dirty@).contains(i) by {
            assert(dirty@[j]);
            assert(dirty@[i]);
        }
    }
    dirty
}

/// Entry `j` of the filtered list is one of the dirty tasks.
pub open spec fn is_dirty_task(
    works: Seq<AnyWork>,
    dirty: Seq<bool>,
    r: Seq<AnyWork>,
    j: int,
) -> bool {
    exists|i: int| 0 <= i < works.len() && dirty[i] && r[j] == works[i]
}

/// Keeps exactly the flagged tasks, in order: the workload of an
/// incremental run.
pub fn filter_dirty(works: Vec<AnyWork>, dirty: &Vec<bool>) -> (r: Vec<AnyWork>)
    requires
        dirty@.len() == works@.len(),
    ensures
        r@.len() == count_true(dirty@),
        forall|j: int| 0 <= j < r@.len() ==> #[trigger] is_dirty_task(works@, dirty@, r@, j),
        forall|i: int|
            0 <= i < works@.len() && dirty@[i] ==> exists|j: int| 0 <= j < r@.len() && (
            #[trigger] r@[j]) == works@[i],
{
    let n = dirty.len();
    let mut r: Vec<AnyWork> = Vec::new();
    let ghost mut src: Seq<int> = Seq::empty();
    let mut rest = works;
    let mut i: usize = 0;
    while i < n
        invariant
            n == works@.len() == dirty@.len(),
            0 <= i <= n,
            rest@ =~= works@.skip(i as int),
            r@.len() == count_true(dirty@.take(i as int)),
            src.len() == r@.len(),
            forall|j: int| #![trigger src[j]]
                0 <= j < r@.len() ==> 0 <= src[j] < i && dirty@[src[j]] && r@[j]
                    == works@[src[j]],
            forall|i2: int|
                0 <= i2 < i && dirty@[i2] ==> exists|j: int| 0 <= j < r@.len() && (
                #[trigger] r@[j]) == works@[i2],
        decreases n - i,
    {
        let w = rest.remove(0);
        proof {
            assert(w == works@[i as int]);
            assert(rest@ =~= works@.skip(i as int + 1));
            assert(dirty@.take(i as int + 1).drop_last() =~= dirty@.take(i as int));
        }
        let ghost pre_r = r@;
        if dirty[i] {
            r.push(w);
            proof {
                src = src.push(i as int);
            }
        }
        proof {
            assert forall|i2: int|
                0 <= i2 < i + 1 && dirty@[i2] implies exists|j: int|
                0 <= j < r@.len() && (#[trigger] r@[j]) == works@[i2] by {
                if i2 < i {
                    let j = choose|j: int|
                        0 <= j < pre_r.len() && (#[trigger] pre_r[j]) == works@[i2];
                    assert(r@[j] == works@[i2]);
                } else {
                    assert(r@[r@.len() - 1] == works@[i2]);
                }
            }
        }
        i = i + 1;
    }
    proof {
        assert(dirty@.take(n as int) =~= dirty@);
        assert forall|j: int|
            0 <= j < r@.len() implies #[trigger] is_dirty_task(works@, dirty@, r@, j) by {
            assert(0 <= src[j] < works@.len() && dirty@[src[j]] && r@[j] == works@[src[j]]);
        }
    }
    r
}

} // verus!
