//! The error taxonomy of the engine and its resident tasks.
//!
//! Input-data shape problems, numeric bounds violations and serialization
//! failures are user-actionable; missing-dependency reads, duplicate
//! producers, reads outside a declaration, cyclic declarations and
//! predicates matching no known identity are internal-consistency failures
//! and carry the identity that witnessed them.

use vstd::prelude::*;

use crate::ident::AnyWorkId;

verus! {

/// A per-glyph input-data shape problem.
#[derive(Clone, Copy, Debug, PartialEq, Eq, Structural)]
pub enum GlyphProblem {
    InconsistentComponents,
    InconsistentPathElements,
    HasComponentsAndPath,
    MissingDefault,
    NoComponents,
    NotInGlyphOrder,
}

impl GlyphProblem {
    /// The human-readable description of the problem.
    pub fn message(&self) -> (r: &'static str)
        ensures
            (*self == GlyphProblem::HasComponentsAndPath) ==> r@ =~= "has components *and* paths"@,
            (*self == GlyphProblem::InconsistentComponents) ==> r@
                =~= "has different components at different points in designspace"@,
            (*self == GlyphProblem::InconsistentPathElements) ==> r@
                =~= "has interpolation-incompatible paths"@,
            (*self == GlyphProblem::MissingDefault) ==> r@ =~= "has no default master"@,
            (*self == GlyphProblem::NoComponents) ==> r@ =~= "has no components"@,
            (*self == GlyphProblem::NotInGlyphOrder) ==> r@ =~= "has no entry in glyph order"@,
    {
        match self {
            GlyphProblem::HasComponentsAndPath => "has components *and* paths",
            GlyphProblem::InconsistentComponents => {
                "has different components at different points in designspace"
            },
            GlyphProblem::InconsistentPathElements => "has interpolation-incompatible paths",
            GlyphProblem::MissingDefault => "has no default master",
            GlyphProblem::NoComponents => "has no components",
            GlyphProblem::NotInGlyphOrder => "has no entry in glyph order",
        }
    }
}

/// Why a run, or one task of it, failed.
#[derive(Debug)]
pub enum Error {
    /// A named glyph's source data has the given shape problem.
    GlyphError(String, GlyphProblem),
    /// Serializing a completed table to binary form failed.
    DumpTableError { message: String, context: String },
    /// A numeric value fell outside the range its encoding admits.
    OutOfBounds { what: String, value: i64 },
    /// Assembling the gvar table from its fragments failed.
    GvarError(String),
    /// A task read an identity that was never produced.
    MissingDependency(AnyWorkId),
    /// A second task tried to fill an identity's slot.
    DuplicateProducer(AnyWorkId),
    /// A task read an identity outside its own access declaration.
    AccessViolation(AnyWorkId),
    /// The access declarations form a dependency cycle.
    CyclicDependencies,
    /// A task's custom predicate matches no known identity.
    UnmatchedPredicate(AnyWorkId),
    /// A slot held an artifact of a different kind than the reader expects.
    WrongArtifactKind(AnyWorkId),
}

} // verus!
