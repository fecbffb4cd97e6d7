//! The run context: a write-once-per-identity artifact store.
//!
//! The context is the blackboard through which tasks communicate. It maps
//! work identities to artifact slots; a slot is empty until its owning task
//! fills it exactly once, and is readable unboundedly thereafter. A second
//! fill attempt is a fatal invariant violation, never a silent overwrite,
//! and every read is checked against the reading task's access declaration.

use vstd::prelude::*;

use crate::access::Access;
use crate::error::Error;
use crate::ident::{AnyWorkId, AnyWorkIdView};

verus! {

/// One glyph source: a position in design space (the region peak, one
/// fixed-point value per axis, as raw bit patterns) and the glyph's outline
/// points at that position.
#[derive(Debug)]
pub struct GlyphSource {
    /// Raw fixed-point bits of the region peak, one per axis; the default
    /// master sits at the all-zero peak.
    pub peak_bits: Vec<i16>,
    /// Outline point coordinates in font units.
    pub points: Vec<(i16, i16)>,
}

/// One glyph's source geometry across every master.
#[derive(Debug)]
pub struct GlyphIr {
    pub sources: Vec<GlyphSource>,
}

/// One explicit point delta of a variation region.
#[derive(Clone, Copy, Debug, PartialEq, Eq, Structural)]
pub struct PointDelta {
    pub x: i16,
    pub y: i16,
    /// Whether the delta must be encoded rather than interpolated.
    pub required: bool,
}

/// The deltas one variation region contributes to one glyph.
#[derive(Debug)]
pub struct RegionDeltas {
    /// Raw fixed-point bits of the region peak, one per axis.
    pub peak_bits: Vec<i16>,
    /// One delta per outline point.
    pub deltas: Vec<PointDelta>,
}

/// Spec-level image of a glyph source.
pub struct GlyphSourceView {
    pub peak_bits: Seq<i16>,
    pub points: Seq<(i16, i16)>,
}

/// Spec-level image of a glyph's source geometry.
pub struct GlyphIrView {
    pub sources: Seq<GlyphSourceView>,
}

/// Spec-level image of one region's deltas.
pub struct RegionDeltasView {
    pub peak_bits: Seq<i16>,
    pub deltas: Seq<PointDelta>,
}

impl View for GlyphSource {
    type V = GlyphSourceView;

    open spec fn view(&self) -> GlyphSourceView {
        GlyphSourceView { peak_bits: self.peak_bits@, points: self.points@ }
    }
}

impl View for GlyphIr {
    type V = GlyphIrView;

    open spec fn view(&self) -> GlyphIrView {
        GlyphIrView { sources: self.sources@.map_values(|s: GlyphSource| s@) }
    }
}

impl View for RegionDeltas {
    type V = RegionDeltasView;

    open spec fn view(&self) -> RegionDeltasView {
        RegionDeltasView { peak_bits: self.peak_bits@, deltas: self.deltas@ }
    }
}

/// The value stored in one artifact slot.
#[derive(Debug)]
pub enum Artifact {
    /// Font-wide static metadata: the axis count.
    StaticMetadata(u16),
    /// The ordered glyph names.
    GlyphOrder(Vec<String>),
    /// One glyph's source geometry.
    Glyph(GlyphIr),
    /// One glyph's variation deltas, one entry per region.
    GvarFragment(Vec<RegionDeltas>),
    /// A serialized binary table.
    TableBytes(Vec<u8>),
}

/// Spec-level image of an artifact.
pub enum ArtifactView {
    StaticMetadata(u16),
    GlyphOrder(Seq<Seq<char>>),
    Glyph(GlyphIrView),
    GvarFragment(Seq<RegionDeltasView>),
    TableBytes(Seq<u8>),
}

impl View for Artifact {
    type V = ArtifactView;

    open spec fn view(&self) -> ArtifactView {
        match self {
            Artifact::StaticMetadata(axes) => ArtifactView::StaticMetadata(*axes),
            Artifact::GlyphOrder(names) => ArtifactView::GlyphOrder(
                names@.map_values(|n: String| n@),
            ),
            Artifact::Glyph(ir) => ArtifactView::Glyph(ir@),
            Artifact::GvarFragment(regions) => ArtifactView::GvarFragment(
                regions@.map_values(|r: RegionDeltas| r@),
            ),
            Artifact::TableBytes(bytes) => ArtifactView::TableBytes(bytes@),
        }
    }
}

/// The run-scoped collection of artifact slots, keyed by identity.
///
/// Grows monotonically as tasks complete; never shrinks or overwrites.
pub struct Context {
    entries: Vec<(AnyWorkId, Artifact)>,
}

/// The map the first `n` entries describe.
pub open spec fn entries_map(s: Seq<(AnyWorkId, Artifact)>) -> Map<AnyWorkIdView, ArtifactView>
    decreases s.len(),
{
    if s.len() == 0 {
        Map::empty()
    } else {
        entries_map(s.drop_last()).insert(s.last().0@, s.last().1@)
    }
}

/// A key stands in the map exactly when some entry carries it.
pub proof fn lemma_entries_map_domain(s: Seq<(AnyWorkId, Artifact)>, k: AnyWorkIdView)
    ensures
        entries_map(s).contains_key(k) <==> exists|i: int| 0 <= i < s.len() && s[i].0@ == k,
    decreases s.len(),
{
    if s.len() > 0 {
        lemma_entries_map_domain(s.drop_last(), k);
        if entries_map(s).contains_key(k) && s.last().0@ != k {
            let i = choose|i: int| 0 <= i < s.drop_last().len() && s.drop_last()[i].0@ == k;
            assert(s[i].0@ == k);
        }
        if exists|i: int| 0 <= i < s.len() && s[i].0@ == k {
            let i = choose|i: int| 0 <= i < s.len() && s[i].0@ == k;
            if i < s.len() - 1 {
                assert(s.drop_last()[i].0@ == k);
            }
        }
    }
}

/// Under unique keys, the map sends each entry's key to that entry's value.
pub proof fn lemma_entries_map_at(s: Seq<(AnyWorkId, Artifact)>, i: int)
    requires
        forall|p: int, q: int| 0 <= p < q < s.len() ==> s[p].0@ != s[q].0@,
        0 <= i < s.len(),
    ensures
        entries_map(s).contains_key(s[i].0@),
        entries_map(s)[s[i].0@] == s[i].1@,
    decreases s.len(),
{
    lemma_entries_map_domain(s, s[i].0@);
    if i < s.len() - 1 {
        assert(forall|p: int, q: int|
            0 <= p < q < s.drop_last().len() ==> s.drop_last()[p].0@ != s.drop_last()[q].0@);
        lemma_entries_map_at(s.drop_last(), i);
        assert(s.last().0@ != s[i].0@);
    }
}

impl Context {
    /// The slots hold distinct identities.
    pub closed spec fn wf(&self) -> bool {
        forall|p: int, q: int|
            0 <= p < q < self.entries@.len() ==> self.entries@[p].0@ != self.entries@[q].0@
    }

    /// The filled slots, as a map from identity to artifact.
    pub closed spec fn view(&self) -> Map<AnyWorkIdView, ArtifactView> {
        entries_map(self.entries@)
    }

    /// An empty context: the start of a compile invocation.
    pub fn new() -> (r: Context)
        ensures
            r.wf(),
            r@ == Map::<AnyWorkIdView, ArtifactView>::empty(),
    {
        Context { entries: Vec::new() }
    }

    /// Reads the slot of `id` on behalf of a task whose declaration is
    /// `access`. Succeeds exactly when the declaration admits the read and
    /// the slot is filled; a read outside the declaration is an access
    /// violation, a read of an empty slot a missing dependency.
    pub fn get(&self, id: &AnyWorkId, access: &Access) -> (r: Result<&Artifact, Error>)
        requires
            self.wf(),
        ensures
            r is Ok <==> access.spec_matches(id@) && self@.contains_key(id@),
            r matches Ok(a) ==> a@ == self@[id@],
            !access.spec_matches(id@) ==> (r matches Err(e) && e matches Error::AccessViolation(_)),
            access.spec_matches(id@) && !self@.contains_key(id@) ==> (r matches Err(e)
                && e matches Error::MissingDependency(_)),
    {
        if !access.matches(id) {
            proof {
                lemma_entries_map_domain(self.entries@, id@);
            }
            return Err(Error::AccessViolation(id.duplicate()));
        }
        let n = self.entries.len();
        let mut i: usize = 0;
        while i < n
            invariant
                n == self.entries@.len(),
                0 <= i <= n,
                self.wf(),
                access.spec_matches(id@),
                forall|j: int| 0 <= j < i ==> self.entries@[j].0@ != id@,
            decreases n - i,
        {
            if self.entries[i].0.same(id) {
                proof {
                    lemma_entries_map_at(self.entries@, i as int);
                }
                return Ok(&self.entries[i].1);
            }
            i = i + 1;
        }
        proof {
            lemma_entries_map_domain(self.entries@, id@);
        }
        Err(Error::MissingDependency(id.duplicate()))
    }

    /// Whether the slot of `id` is filled.
    pub fn contains(&self, id: &AnyWorkId) -> (r: bool)
        requires
            self.wf(),
        ensures
            r == self@.contains_key(id@),
    {
        let n = self.entries.len();
        let mut i: usize = 0;
        while i < n
            invariant
                n == self.entries@.len(),
                0 <= i <= n,
                self.wf(),
                forall|j: int| 0 <= j < i ==> self.entries@[j].0@ != id@,
            decreases n - i,
        {
            if self.entries[i].0.same(id) {
                proof {
                    lemma_entries_map_at(self.entries@, i as int);
                }
                return true;
            }
            i = i + 1;
        }
        proof {
            lemma_entries_map_domain(self.entries@, id@);
        }
        false
    }

    /// Fills the slot of `id`, which must be empty: a filled slot is never
    /// overwritten, and the duplicate producer is reported as fatal.
    pub fn set_unconditionally(&mut self, id: AnyWorkId, value: Artifact) -> (r: Result<(), Error>)
        requires
            old(self).wf(),
        ensures
            final(self).wf(),
            old(self)@.contains_key(id@) ==> (r matches Err(e)
                && e matches Error::DuplicateProducer(_) && final(self)@ == old(self)@),
            !old(self)@.contains_key(id@) ==> r is Ok && final(self)@ == old(self)@.insert(
                id@,
                value@,
            ),
    {
        if self.contains(&id) {
            return Err(Error::DuplicateProducer(id));
        }
        proof {
            lemma_entries_map_domain(self.entries@, id@);
        }
        let ghost pre = self.entries@;
        self.entries.push((id, value));
        proof {
            assert(self.entries@.drop_last() =~= pre);
        }
        Ok(())
    }

    /// The identities of every filled slot.
    pub fn filled_ids(&self) -> (r: Vec<AnyWorkId>)
        requires
            self.wf(),
        ensures
            forall|i: int| 0 <= i < r@.len() ==> self@.contains_key(r@[i]@),
            forall|k: AnyWorkIdView| self@.contains_key(k)
                ==> exists|i: int| 0 <= i < r@.len() && r@[i]@ == k,
    {
        let n = self.entries.len();
        let mut r: Vec<AnyWorkId> = Vec::new();
        let mut i: usize = 0;
        while i < n
            invariant
                n == self.entries@.len(),
                0 <= i <= n,
                self.wf(),
                r@.len() == i,
                forall|j: int| 0 <= j < i ==> r@[j]@ == self.entries@[j].0@,
            decreases n - i,
        {
            r.push(self.entries[i].0.duplicate());
            i = i + 1;
        }
        proof {
            assert forall|j: int| 0 <= j < r@.len() implies self@.contains_key(r@[j]@) by {
                lemma_entries_map_at(self.entries@, j);
            }
            assert forall|k: AnyWorkIdView| self@.contains_key(k) implies exists|j: int|
                0 <= j < r@.len() && r@[j]@ == k by {
                lemma_entries_map_domain(self.entries@, k);
                let j = choose|j: int| 0 <= j < self.entries@.len() && self.entries@[j].0@ == k;
                assert(r@[j]@ == k);
            }
        }
        r
    }
}

} // verus!
