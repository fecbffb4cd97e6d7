//! The unit of schedulable logic.
//!
//! A work item owns exactly one identity, declares the superset of other
//! identities it may read, and runs once: it may read any declared, filled
//! slot, and on success it has filled exactly its own slot. On failure its
//! slot is left empty and the context is as it was.

use vstd::prelude::*;

use crate::access::Access;
use crate::context::{Artifact, Context, GlyphIr, RegionDeltas};
use crate::error::Error;
use crate::ident::{AnyWorkId, AnyWorkIdView};

verus! {

/// The contract every compilation step implements; registering a new step
/// is implementing this and adding its identity to the run.
pub trait Work {
    /// Which artifact slot belongs to the work item.
    spec fn id_spec(&self) -> AnyWorkIdView;

    /// Which identities the work item declares readable.
    spec fn reads_spec(&self, id: AnyWorkIdView) -> bool;

    /// Returns the task's own identity.
    fn id(&self) -> (r: AnyWorkId)
        ensures
            r@ == self.id_spec(),
    ;

    /// Returns the task's access declaration.
    fn read_access(&self) -> (r: Access)
        ensures
            forall|id: AnyWorkIdView| r.spec_matches(id) == self.reads_spec(id),
    ;

    /// Runs the task against the context. Reads are gated by the task's own
    /// declaration; the only write is the one-time fill of the task's own
    /// slot, performed exactly when the task succeeds.
    fn exec(&self, ctx: &mut Context) -> (r: Result<(), Error>)
        requires
            old(ctx).wf(),
        ensures
            final(ctx).wf(),
            forall|k: AnyWorkIdView| #![trigger old(ctx)@.contains_key(k)]
                old(ctx)@.contains_key(k) ==> final(ctx)@.contains_key(k) && final(ctx)@[k]
                    == old(ctx)@[k],
            forall|k: AnyWorkIdView| #![trigger final(ctx)@.contains_key(k)]
                final(ctx)@.contains_key(k) && !old(ctx)@.contains_key(k) ==> k == self.id_spec(),
            r is Ok ==> final(ctx)@.contains_key(self.id_spec()),
            r is Err ==> final(ctx)@ == old(ctx)@,
            old(ctx)@.contains_key(self.id_spec()) ==> r is Err,
    ;
}

impl Artifact {
    /// This artifact, as static metadata.
    pub fn as_static_metadata(&self) -> (r: Option<u16>)
        ensures
            match r {
                Some(axes) => self@ == crate::context::ArtifactView::StaticMetadata(axes),
                None => !(self@ matches crate::context::ArtifactView::StaticMetadata(_)),
            },
    {
        match self {
            Artifact::StaticMetadata(axes) => Some(*axes),
            _ => None,
        }
    }

    /// This artifact, as a glyph order.
    pub fn as_glyph_order(&self) -> (r: Option<&Vec<String>>)
        ensures
            match r {
                Some(names) => self@ == crate::context::ArtifactView::GlyphOrder(
                    names@.map_values(|n: String| n@),
                ),
                None => !(self@ matches crate::context::ArtifactView::GlyphOrder(_)),
            },
    {
        match self {
            Artifact::GlyphOrder(names) => Some(names),
            _ => None,
        }
    }

    /// This artifact, as glyph source geometry.
    pub fn as_glyph(&self) -> (r: Option<&GlyphIr>)
        ensures
            match r {
                Some(ir) => self@ == crate::context::ArtifactView::Glyph(ir@),
                None => !(self@ matches crate::context::ArtifactView::Glyph(_)),
            },
    {
        match self {
            Artifact::Glyph(ir) => Some(ir),
            _ => None,
        }
    }

    /// This artifact, as a glyph's variation deltas.
    pub fn as_gvar_fragment(&self) -> (r: Option<&Vec<RegionDeltas>>)
        ensures
            match r {
                Some(regions) => self@ == crate::context::ArtifactView::GvarFragment(
                    regions@.map_values(|x: RegionDeltas| x@),
                ),
                None => !(self@ matches crate::context::ArtifactView::GvarFragment(_)),
            },
    {
        match self {
            Artifact::GvarFragment(regions) => Some(regions),
            _ => None,
        }
    }

    /// This artifact, as serialized table bytes.
    pub fn as_table_bytes(&self) -> (r: Option<&Vec<u8>>)
        ensures
            match r {
                Some(bytes) => self@ == crate::context::ArtifactView::TableBytes(bytes@),
                None => !(self@ matches crate::context::ArtifactView::TableBytes(_)),
            },
    {
        match self {
            Artifact::TableBytes(bytes) => Some(bytes),
            _ => None,
        }
    }
}

} // verus!
