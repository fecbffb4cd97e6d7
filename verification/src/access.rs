//! Access declarations: the superset of identities a task may read.
//!
//! A task declares read-all (reserved for terminal aggregation), read-none
//! (pure), or a custom predicate over identities. The universe of task kinds
//! is fixed at compile time, so a custom predicate is data: a disjunction of
//! selectors, each matching one exact identity or one family of fragment
//! identities. The declaration is evaluated once against the identity
//! universe to materialize concrete dependency edges, and again on every
//! read to flag any query outside the declaration.

use vstd::prelude::*;

use crate::ident::{AnyWorkId, AnyWorkIdView, BeWorkIdView, FeWorkIdView};

verus! {

/// One disjunct of a custom access predicate.
pub enum IdSelector {
    /// Matches exactly the given identity.
    Exact(AnyWorkId),
    /// Matches every per-glyph source geometry identity.
    AnyGlyphSource,
    /// Matches every per-glyph gvar fragment identity.
    AnyGvarFragment,
}

/// A task's declared superset of readable identities.
pub enum Access {
    /// May observe any completed identity.
    All,
    /// Reads nothing: a pure task.
    Nothing,
    /// Matches exactly the identities some selector matches.
    Custom(Vec<IdSelector>),
}

impl IdSelector {
    /// Whether this selector matches the identity.
    pub open spec fn spec_matches(&self, id: AnyWorkIdView) -> bool {
        match self {
            IdSelector::Exact(e) => e@ == id,
            IdSelector::AnyGlyphSource => id matches AnyWorkIdView::Fe(FeWorkIdView::Glyph(_)),
            IdSelector::AnyGvarFragment => id matches AnyWorkIdView::Be(
                BeWorkIdView::GvarFragment(_),
            ),
        }
    }

    /// Evaluates this selector on a candidate identity.
    pub fn matches(&self, id: &AnyWorkId) -> (r: bool)
        ensures
            r == self.spec_matches(id@),
    {
        match self {
            IdSelector::Exact(e) => e.same(id),
            IdSelector::AnyGlyphSource => matches!(id, AnyWorkId::Fe(crate::ident::FeWorkId::Glyph(_))),
            IdSelector::AnyGvarFragment => matches!(id, AnyWorkId::Be(crate::ident::BeWorkId::GvarFragment(_))),
        }
    }
}

impl Access {
    /// Whether the declaration admits a read of the identity.
    pub open spec fn spec_matches(&self, id: AnyWorkIdView) -> bool {
        match self {
            Access::All => true,
            Access::Nothing => false,
            Access::Custom(selectors) => exists|i: int|
                0 <= i < selectors@.len() && selectors@[i].spec_matches(id),
        }
    }

    /// Evaluates the declaration on a candidate identity.
    pub fn matches(&self, id: &AnyWorkId) -> (r: bool)
        ensures
            r == self.spec_matches(id@),
    {
        match self {
            Access::All => true,
            Access::Nothing => false,
            Access::Custom(selectors) => {
                let mut i: usize = 0;
                while i < selectors.len()
                    invariant
                        0 <= i <= selectors@.len(),
                        self.spec_matches(id@) == exists|k: int|
                            0 <= k < selectors@.len() && selectors@[k].spec_matches(id@),
                        forall|j: int| 0 <= j < i ==> !selectors@[j].spec_matches(id@),
                    decreases selectors@.len() - i,
                {
                    if selectors[i].matches(id) {
                        return true;
                    }
                    i = i + 1;
                }
                false
            },
        }
    }
}

} // verus!
