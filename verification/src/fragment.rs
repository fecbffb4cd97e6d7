//! Per-glyph variation delta computation: the fragment task.
//!
//! For one glyph, the task reads the glyph's source geometry across every
//! master, locates the default master (the source at the all-zero region
//! peak), checks that every master has interpolation-compatible outlines,
//! and emits one set of point deltas per non-default master. A glyph drawn
//! identically in a single master yields an empty fragment, which the table
//! assembly later filters out.

use vstd::prelude::*;

use crate::access::{Access, IdSelector};
use crate::context::{
    Artifact, Context, GlyphIrView, GlyphSourceView, PointDelta, RegionDeltas, RegionDeltasView,
};
use crate::error::{Error, GlyphProblem};
use crate::ident::{AnyWorkId, AnyWorkIdView, BeWorkId, BeWorkIdView, FeWorkId, FeWorkIdView};
use crate::work::Work;

verus! {

/// A source sits at the default master's position: the all-zero peak.
pub open spec fn is_default_source(s: GlyphSourceView) -> bool {
    forall|k: int| 0 <= k < s.peak_bits.len() ==> s.peak_bits[k] == 0i16
}

/// Some source of the glyph is the default master.
pub open spec fn has_default(v: GlyphIrView) -> bool {
    exists|d: int| 0 <= d < v.sources.len() && is_default_source(v.sources[d])
}

/// `d` is the first default source.
pub open spec fn is_first_default(v: GlyphIrView, d: int) -> bool {
    &&& 0 <= d < v.sources.len()
    &&& is_default_source(v.sources[d])
    &&& forall|j: int| 0 <= j < d ==> !is_default_source(v.sources[j])
}

/// Every master draws the glyph with the same number of outline points.
pub open spec fn points_consistent(v: GlyphIrView, d: int) -> bool {
    forall|i: int|
        0 <= i < v.sources.len() ==> v.sources[i].points.len() == v.sources[d].points.len()
}

/// Every point delta against the default master fits its encoding.
pub open spec fn deltas_fit(v: GlyphIrView, d: int) -> bool {
    forall|i: int, k: int|
        0 <= i < v.sources.len() && 0 <= k < v.sources[i].points.len() && 0 <= k
            < v.sources[d].points.len() ==> {
            &&& -32768 <= (#[trigger] v.sources[i].points[k]).0 - v.sources[d].points[k].0
                <= 32767
            &&& -32768 <= v.sources[i].points[k].1 - v.sources[d].points[k].1 <= 32767
        }
}

/// `region` carries `src`'s peak and its pointwise deltas against `def`.
pub open spec fn region_ok(
    region: RegionDeltasView,
    src: GlyphSourceView,
    def: GlyphSourceView,
) -> bool {
    &&& region.peak_bits == src.peak_bits
    &&& region.deltas.len() == src.points.len()
    &&& forall|k: int|
        0 <= k < region.deltas.len() && 0 <= k < src.points.len() && 0 <= k < def.points.len()
            ==> {
            &&& region.deltas[k].x as int == src.points[k].0 - def.points[k].0
            &&& region.deltas[k].y as int == src.points[k].1 - def.points[k].1
            &&& region.deltas[k].required
        }
}

/// The regions are exactly the non-default sources, in order, each reduced
/// to its deltas against the first default source `d`.
pub open spec fn regions_correspond(regions: Seq<RegionDeltasView>, v: GlyphIrView, d: int) -> bool {
    &&& regions.len() == v.sources.len() - 1
    &&& forall|j: int|
        0 <= j < regions.len() ==> region_ok(
            #[trigger] regions[j],
            v.sources[if j < d { j } else { j + 1 }],
            v.sources[d],
        )
}

/// Computes one glyph's variation deltas from its source geometry.
///
/// Succeeds exactly when a default master exists, every master has the same
/// point count, and every delta fits a 16-bit coordinate; each failure is
/// tagged with the glyph's name.
pub fn make_glyph_deltas(glyph_name: &String, ir: &crate::context::GlyphIr) -> (r: Result<
    Vec<RegionDeltas>,
    Error,
>)
    ensures
        match r {
            Ok(regions) => exists|d: int|
                {
                    &&& #[trigger] is_first_default(ir@, d)
                    &&& points_consistent(ir@, d)
                    &&& deltas_fit(ir@, d)
                    &&& regions_correspond(regions@.map_values(|x: RegionDeltas| x@), ir@, d)
                },
            Err(e) => match e {
                Error::GlyphError(n, p) => n@ == glyph_name@ && ((p == GlyphProblem::MissingDefault
                    && !has_default(ir@)) || (p == GlyphProblem::InconsistentPathElements
                    && exists|d: int|
                    #[trigger] is_first_default(ir@, d) && !points_consistent(ir@, d))),
                Error::OutOfBounds { what, value } => exists|d: int|
                    #[trigger] is_first_default(ir@, d) && points_consistent(ir@, d)
                        && !deltas_fit(ir@, d),
                _ => false,
            },
        },
{
    let n = ir.sources.len();
    // Locate the first default master.
    let mut d: usize = 0;
    let mut found = false;
    let mut i: usize = 0;
    while i < n
        invariant
            n == ir.sources@.len(),
            0 <= i <= n,
            !found ==> forall|j: int| 0 <= j < i ==> !is_default_source(ir@.sources[j]),
            found ==> is_first_default(ir@, d as int),
            found ==> 0 <= (d as int) < n,
        decreases n - i,
    {
        if !found {
            let src = &ir.sources[i];
            let mut all_zero = true;
            let mut k: usize = 0;
            while k < src.peak_bits.len()
                invariant
                    0 <= k <= src.peak_bits@.len(),
                    all_zero == forall|m: int| 0 <= m < k ==> src.peak_bits@[m] == 0i16,
                decreases src.peak_bits@.len() - k,
            {
                if src.peak_bits[k] != 0 {
                    all_zero = false;
                }
                k = k + 1;
            }
            if all_zero {
                assert(is_default_source(ir@.sources[i as int]));
                d = i;
                found = true;
            }
        }
        i = i + 1;
    }
    if !found {
        proof {
            assert(!has_default(ir@));
        }
        return Err(Error::GlyphError(glyph_name.clone(), GlyphProblem::MissingDefault));
    }
    assert(is_first_default(ir@, d as int));
    let default_len = ir.sources[d].points.len();
    // Interpolation compatibility: every master has the same point count.
    let mut i: usize = 0;
    while i < n
        invariant
            n == ir.sources@.len(),
            0 <= i <= n,
            is_first_default(ir@, d as int),
            0 <= (d as int) < n,
            default_len == ir@.sources[d as int].points.len(),
            forall|j: int| 0 <= j < i ==> ir@.sources[j].points.len() == default_len,
        decreases n - i,
    {
        if ir.sources[i].points.len() != default_len {
            proof {
                assert(ir@.sources[i as int].points.len() != default_len);
                assert(!points_consistent(ir@, d as int));
            }
            return Err(Error::GlyphError(
                glyph_name.clone(),
                GlyphProblem::InconsistentPathElements,
            ));
        }
        i = i + 1;
    }
    assert(points_consistent(ir@, d as int));
    // One region per non-default source.
    let mut regions: Vec<RegionDeltas> = Vec::new();
    let mut i: usize = 0;
    while i < n
        invariant
            n == ir.sources@.len(),
            0 <= i <= n,
            is_first_default(ir@, d as int),
            0 <= (d as int) < n,
            points_consistent(ir@, d as int),
            default_len == ir@.sources[d as int].points.len(),
            regions@.len() == if i <= d { i as int } else { i - 1 },
            forall|j: int|
                0 <= j < regions@.len() ==> region_ok(
                    (#[trigger] regions@[j])@,
                    ir@.sources[if j < d { j } else { j + 1 }],
                    ir@.sources[d as int],
                ),
        decreases n - i,
    {
        if i != d {
            let src = &ir.sources[i];
            let def = &ir.sources[d];
            proof {
                assert(src@ == ir@.sources[i as int]);
                assert(def@ == ir@.sources[d as int]);
                assert(ir@.sources[i as int].points.len() == default_len);
            }
            let mut peak: Vec<i16> = Vec::new();
            let mut k: usize = 0;
            while k < src.peak_bits.len()
                invariant
                    0 <= k <= src.peak_bits@.len(),
                    peak@ =~= src.peak_bits@.take(k as int),
                decreases src.peak_bits@.len() - k,
            {
                peak.push(src.peak_bits[k]);
                k = k + 1;
            }
            assert(peak@ =~= src.peak_bits@);
            let mut deltas: Vec<PointDelta> = Vec::new();
            let mut k: usize = 0;
            while k < src.points.len()
                invariant
                    n == ir.sources@.len(),
                    0 <= (i as int) < n,
                    0 <= (d as int) < n,
                    i != d,
                    is_first_default(ir@, d as int),
                    points_consistent(ir@, d as int),
                    src@ == ir@.sources[i as int],
                    def@ == ir@.sources[d as int],
                    0 <= k <= src.points@.len(),
                    src.points@.len() == default_len,
                    def.points@.len() == default_len,
                    deltas@.len() == k,
                    forall|m: int|
                        0 <= m < k ==> {
                            &&& deltas@[m].x as int == src.points@[m].0 - def.points@[m].0
                            &&& deltas@[m].y as int == src.points@[m].1 - def.points@[m].1
                            &&& deltas@[m].required
                        },
                decreases src.points@.len() - k,
            {
                let dx: i32 = src.points[k].0 as i32 - def.points[k].0 as i32;
                let dy: i32 = src.points[k].1 as i32 - def.points[k].1 as i32;
                if dx < -32768 || dx > 32767 {
                    proof {
                        assert((ir@.sources[i as int].points[k as int]).0
                            - ir@.sources[d as int].points[k as int].0 == dx);
                        assert(!deltas_fit(ir@, d as int));
                    }
                    return Err(Error::OutOfBounds {
                        what: "glyph delta".to_owned(),
                        value: dx as i64,
                    });
                }
                if dy < -32768 || dy > 32767 {
                    proof {
                        assert((ir@.sources[i as int].points[k as int]).1
                            - ir@.sources[d as int].points[k as int].1 == dy);
                        assert(!deltas_fit(ir@, d as int));
                    }
                    return Err(Error::OutOfBounds {
                        what: "glyph delta".to_owned(),
                        value: dy as i64,
                    });
                }
                deltas.push(PointDelta { x: dx as i16, y: dy as i16, required: true });
                k = k + 1;
            }
            regions.push(RegionDeltas { peak_bits: peak, deltas });
            proof {
                let j = regions@.len() - 1;
                assert(regions@[j]@.peak_bits == ir@.sources[i as int].peak_bits);
                assert(region_ok(regions@[j]@, ir@.sources[i as int], ir@.sources[d as int]));
            }
        }
        i = i + 1;
    }
    assert(deltas_fit(ir@, d as int)) by {
        assert forall|i2: int, k2: int|
            0 <= i2 < ir@.sources.len() && 0 <= k2 < ir@.sources[i2].points.len() && 0 <= k2
                < ir@.sources[d as int].points.len() implies {
            &&& -32768 <= (#[trigger] ir@.sources[i2].points[k2]).0
                - ir@.sources[d as int].points[k2].0 <= 32767
            &&& -32768 <= ir@.sources[i2].points[k2].1 - ir@.sources[d as int].points[k2].1
                <= 32767
        } by {
            if i2 == d as int {
                assert(ir@.sources[i2].points[k2].0 - ir@.sources[d as int].points[k2].0 == 0);
            } else {
                let j = if i2 < d as int { i2 } else { i2 - 1 };
                let rv = regions@[j]@;
                assert(region_ok(rv, ir@.sources[i2], ir@.sources[d as int]));
                assert(rv.deltas[k2].x as int == ir@.sources[i2].points[k2].0
                    - ir@.sources[d as int].points[k2].0);
            }
        }
    }
    proof {
        let rv = regions@.map_values(|x: RegionDeltas| x@);
        assert forall|j: int| 0 <= j < rv.len() implies region_ok(
            #[trigger] rv[j],
            ir@.sources[if j < d as int { j } else { j + 1 }],
            ir@.sources[d as int],
        ) by {
            assert(rv[j] == regions@[j]@);
        }
        assert(regions_correspond(rv, ir@, d as int));
        assert(is_first_default(ir@, d as int));
    }
    Ok(regions)
}

/// The task computing one glyph's gvar fragment.
pub struct GvarFragmentWork {
    pub glyph_name: String,
}

/// Builds the fragment task for one glyph.
pub fn create_gvar_fragment_work(glyph_name: String) -> (r: GvarFragmentWork)
    ensures
        r.id_spec() == AnyWorkIdView::Be(BeWorkIdView::GvarFragment(glyph_name@)),
{
    GvarFragmentWork { glyph_name }
}

impl Work for GvarFragmentWork {
    open spec fn id_spec(&self) -> AnyWorkIdView {
        AnyWorkIdView::Be(BeWorkIdView::GvarFragment(self.glyph_name@))
    }

    open spec fn reads_spec(&self, id: AnyWorkIdView) -> bool {
        id == AnyWorkIdView::Fe(FeWorkIdView::Glyph(self.glyph_name@))
    }

    fn id(&self) -> (r: AnyWorkId) {
        AnyWorkId::Be(BeWorkId::GvarFragment(self.glyph_name.clone()))
    }

    fn read_access(&self) -> (r: Access) {
        let mut selectors: Vec<IdSelector> = Vec::new();
        selectors.push(
            IdSelector::Exact(AnyWorkId::Fe(FeWorkId::Glyph(self.glyph_name.clone()))),
        );
        let ghost sels = selectors@;
        let r = Access::Custom(selectors);
        proof {
            assert forall|id: AnyWorkIdView| r.spec_matches(id) == self.reads_spec(id) by {
                assert(r->Custom_0@ == sels);
                if self.reads_spec(id) {
                    assert(r->Custom_0@[0].spec_matches(id));
                }
                if r.spec_matches(id) {
                    let q = choose|q: int|
                        0 <= q < r->Custom_0@.len() && r->Custom_0@[q].spec_matches(id);
                    assert(q == 0);
                    assert(sels[0].spec_matches(id));
                }
            }
        }
        r
    }

    fn exec(&self, ctx: &mut Context) -> (r: Result<(), Error>)
        ensures
            !old(ctx)@.contains_key(AnyWorkIdView::Fe(FeWorkIdView::Glyph(self.glyph_name@)))
                ==> (r matches Err(e) && e matches Error::MissingDependency(_)),
            (old(ctx)@.contains_key(AnyWorkIdView::Fe(FeWorkIdView::Glyph(self.glyph_name@)))
                && !(old(ctx)@[AnyWorkIdView::Fe(FeWorkIdView::Glyph(self.glyph_name@))]
                matches crate::context::ArtifactView::Glyph(_))) ==> (r matches Err(e) && e
                matches Error::WrongArtifactKind(_)),
            (old(ctx)@.contains_key(AnyWorkIdView::Fe(FeWorkIdView::Glyph(self.glyph_name@)))
                && (old(ctx)@[AnyWorkIdView::Fe(FeWorkIdView::Glyph(self.glyph_name@))]
                matches crate::context::ArtifactView::Glyph(v) && !has_default(v))) ==> (r
                matches Err(e) && e matches Error::GlyphError(n, p) && n@ == self.glyph_name@
                && p == GlyphProblem::MissingDefault),
            (old(ctx)@.contains_key(AnyWorkIdView::Fe(FeWorkIdView::Glyph(self.glyph_name@)))
                && (old(ctx)@[AnyWorkIdView::Fe(FeWorkIdView::Glyph(self.glyph_name@))]
                matches crate::context::ArtifactView::Glyph(v) && (exists|d: int|
                #[trigger] is_first_default(v, d) && !points_consistent(v, d)))) ==> (r
                matches Err(e) && e matches Error::GlyphError(n, p) && n@ == self.glyph_name@
                && p == GlyphProblem::InconsistentPathElements),
            (old(ctx)@.contains_key(AnyWorkIdView::Fe(FeWorkIdView::Glyph(self.glyph_name@)))
                && (old(ctx)@[AnyWorkIdView::Fe(FeWorkIdView::Glyph(self.glyph_name@))]
                matches crate::context::ArtifactView::Glyph(v) && (exists|d: int|
                #[trigger] is_first_default(v, d) && points_consistent(v, d) && !deltas_fit(
                    v,
                    d,
                )))) ==> (r matches Err(e) && e matches Error::OutOfBounds { .. }),
            (old(ctx)@.contains_key(AnyWorkIdView::Fe(FeWorkIdView::Glyph(self.glyph_name@)))
                && (old(ctx)@[AnyWorkIdView::Fe(FeWorkIdView::Glyph(self.glyph_name@))]
                matches crate::context::ArtifactView::Glyph(v) && (exists|d: int|
                #[trigger] is_first_default(v, d) && points_consistent(v, d) && deltas_fit(
                    v,
                    d,
                ))) && !old(ctx)@.contains_key(self.id_spec())) ==> r is Ok,
            r is Ok ==> old(ctx)@.contains_key(
                AnyWorkIdView::Fe(FeWorkIdView::Glyph(self.glyph_name@)),
            ),
            r is Ok ==> (old(ctx)@[AnyWorkIdView::Fe(FeWorkIdView::Glyph(self.glyph_name@))]
                matches crate::context::ArtifactView::Glyph(v) && final(ctx)@[self.id_spec()]
                matches crate::context::ArtifactView::GvarFragment(regions) && exists|d: int|
                {
                    &&& #[trigger] is_first_default(v, d)
                    &&& points_consistent(v, d)
                    &&& deltas_fit(v, d)
                    &&& regions_correspond(regions, v, d)
                }),
    {
        let access = self.read_access();
        let glyph_id = AnyWorkId::Fe(FeWorkId::Glyph(self.glyph_name.clone()));
        let art = match ctx.get(&glyph_id, &access) {
            Ok(a) => a,
            Err(e) => {
                return Err(e);
            },
        };
        let ir = match art.as_glyph() {
            Some(g) => g,
            None => {
                return Err(Error::WrongArtifactKind(glyph_id));
            },
        };
        let ghost v0 = ir@;
        let regions = match make_glyph_deltas(&self.glyph_name, ir) {
            Ok(rs) => rs,
            Err(e) => {
                return Err(e);
            },
        };
        let ghost rv = regions@.map_values(|x: RegionDeltas| x@);
        proof {
            let d = choose|d: int|
                {
                    &&& #[trigger] is_first_default(v0, d)
                    &&& points_consistent(v0, d)
                    &&& deltas_fit(v0, d)
                    &&& regions_correspond(rv, v0, d)
                };
            assert(is_first_default(v0, d) && points_consistent(v0, d) && deltas_fit(v0, d)
                && regions_correspond(rv, v0, d));
        }
        let own = self.id();
        match ctx.set_unconditionally(own, Artifact::GvarFragment(regions)) {
            Ok(()) => {
                proof {
                    assert(ctx@[self.id_spec()]
                        == crate::context::ArtifactView::GvarFragment(rv));
                    assert(old(ctx)@[AnyWorkIdView::Fe(FeWorkIdView::Glyph(self.glyph_name@))]
                        == crate::context::ArtifactView::Glyph(v0));
                    let gidv = AnyWorkIdView::Fe(FeWorkIdView::Glyph(self.glyph_name@));
                    let pv = old(ctx)@[gidv]->Glyph_0;
                    let pr = ctx@[self.id_spec()]->GvarFragment_0;
                    assert(pv == v0);
                    assert(pr == rv);
                    let d = choose|d: int|
                        {
                            &&& #[trigger] is_first_default(v0, d)
                            &&& points_consistent(v0, d)
                            &&& deltas_fit(v0, d)
                            &&& regions_correspond(rv, v0, d)
                        };
                    assert(is_first_default(pv, d));
                    assert(points_consistent(pv, d));
                    assert(deltas_fit(pv, d));
                    assert(regions_correspond(pr, pv, d));
                }
                Ok(())
            },
            Err(e) => Err(e),
        }
    }
}

} // verus!
