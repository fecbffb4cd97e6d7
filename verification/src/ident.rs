//! Work identities: the unique names of schedulable units of work.
//!
//! An identity distinguishes the task category (frontend artifact, backend
//! artifact, or internal diagnostic) and, for fragment-level tasks, carries a
//! per-entity discriminator (a glyph name). Identities are the sole keys of
//! the run context, so their equality must be stable for a whole run; the
//! spec-level image of an identity replaces each name by its character
//! sequence so that equality of identities is equality of what they say.

use vstd::prelude::*;

verus! {

/// A frontend (intermediate representation) artifact identity.
#[derive(Debug)]
pub enum FeWorkId {
    /// Font-wide static metadata (the axis count).
    StaticMetadata,
    /// The ordered list of glyph names.
    GlyphOrder,
    /// One glyph's source geometry, by glyph name.
    Glyph(String),
}

/// A backend (binary table) artifact identity.
#[derive(Debug)]
pub enum BeWorkId {
    /// The assembled gvar table.
    Gvar,
    /// One glyph's variation deltas, by glyph name.
    GvarFragment(String),
}

/// Any identity the engine schedules or stores.
#[derive(Debug)]
pub enum AnyWorkId {
    Fe(FeWorkId),
    Be(BeWorkId),
    /// An internal diagnostic span, named freely; never a task's own slot.
    InternalTiming(String),
}

/// Spec-level image of a frontend identity.
pub enum FeWorkIdView {
    StaticMetadata,
    GlyphOrder,
    Glyph(Seq<char>),
}

/// Spec-level image of a backend identity.
pub enum BeWorkIdView {
    Gvar,
    GvarFragment(Seq<char>),
}

/// Spec-level image of an identity: what the identity says, with names as
/// character sequences.
pub enum AnyWorkIdView {
    Fe(FeWorkIdView),
    Be(BeWorkIdView),
    InternalTiming(Seq<char>),
}

impl View for FeWorkId {
    type V = FeWorkIdView;

    open spec fn view(&self) -> FeWorkIdView {
        match self {
            FeWorkId::StaticMetadata => FeWorkIdView::StaticMetadata,
            FeWorkId::GlyphOrder => FeWorkIdView::GlyphOrder,
            FeWorkId::Glyph(name) => FeWorkIdView::Glyph(name@),
        }
    }
}

impl View for BeWorkId {
    type V = BeWorkIdView;

    open spec fn view(&self) -> BeWorkIdView {
        match self {
            BeWorkId::Gvar => BeWorkIdView::Gvar,
            BeWorkId::GvarFragment(name) => BeWorkIdView::GvarFragment(name@),
        }
    }
}

impl View for AnyWorkId {
    type V = AnyWorkIdView;

    open spec fn view(&self) -> AnyWorkIdView {
        match self {
            AnyWorkId::Fe(id) => AnyWorkIdView::Fe(id@),
            AnyWorkId::Be(id) => AnyWorkIdView::Be(id@),
            AnyWorkId::InternalTiming(name) => AnyWorkIdView::InternalTiming(name@),
        }
    }
}

impl FeWorkId {
    /// Structural equality of what the two identities say.
    pub fn same(&self, other: &FeWorkId) -> (r: bool)
        ensures
            r == (self@ == other@),
    {
        match (self, other) {
            (FeWorkId::StaticMetadata, FeWorkId::StaticMetadata) => true,
            (FeWorkId::GlyphOrder, FeWorkId::GlyphOrder) => true,
            (FeWorkId::Glyph(a), FeWorkId::Glyph(b)) => *a == *b,
            _ => false,
        }
    }

    /// A copy naming the same artifact.
    pub fn duplicate(&self) -> (r: FeWorkId)
        ensures
            r@ == self@,
    {
        match self {
            FeWorkId::StaticMetadata => FeWorkId::StaticMetadata,
            FeWorkId::GlyphOrder => FeWorkId::GlyphOrder,
            FeWorkId::Glyph(name) => FeWorkId::Glyph(name.clone()),
        }
    }
}

impl BeWorkId {
    /// Structural equality of what the two identities say.
    pub fn same(&self, other: &BeWorkId) -> (r: bool)
        ensures
            r == (self@ == other@),
    {
        match (self, other) {
            (BeWorkId::Gvar, BeWorkId::Gvar) => true,
            (BeWorkId::GvarFragment(a), BeWorkId::GvarFragment(b)) => *a == *b,
            _ => false,
        }
    }

    /// A copy naming the same artifact.
    pub fn duplicate(&self) -> (r: BeWorkId)
        ensures
            r@ == self@,
    {
        match self {
            BeWorkId::Gvar => BeWorkId::Gvar,
            BeWorkId::GvarFragment(name) => BeWorkId::GvarFragment(name.clone()),
        }
    }
}

impl AnyWorkId {
    /// Structural equality of what the two identities say.
    pub fn same(&self, other: &AnyWorkId) -> (r: bool)
        ensures
            r == (self@ == other@),
    {
        match (self, other) {
            (AnyWorkId::Fe(a), AnyWorkId::Fe(b)) => a.same(b),
            (AnyWorkId::Be(a), AnyWorkId::Be(b)) => a.same(b),
            (AnyWorkId::InternalTiming(a), AnyWorkId::InternalTiming(b)) => *a == *b,
            _ => false,
        }
    }

    /// A copy naming the same artifact.
    pub fn duplicate(&self) -> (r: AnyWorkId)
        ensures
            r@ == self@,
    {
        match self {
            AnyWorkId::Fe(id) => AnyWorkId::Fe(id.duplicate()),
            AnyWorkId::Be(id) => AnyWorkId::Be(id.duplicate()),
            AnyWorkId::InternalTiming(name) => AnyWorkId::InternalTiming(name.clone()),
        }
    }
}

} // verus!
