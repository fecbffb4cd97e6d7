//! Assembles the gvar table from per-glyph fragments: the terminal
//! aggregation task of the variation pipeline.
//!
//! The task carries the font's axis count and reads the glyph order and
//! every per-glyph fragment, discovered by predicate rather than
//! enumerated by hand. Glyphs
//! whose fragment carries no variation data are filtered out entirely; the
//! remaining (glyph id, fragment) pairs are handed to the table builder and
//! the serialized bytes fill the task's own slot. The builder encodes sizes
//! in 16-bit fields and aborts beyond them, so the task bounds the glyph
//! order at the format's glyph-count cap and every glyph's variation data
//! by a byte budget, reporting out-of-bounds input as an error instead.

use vstd::prelude::*;

use write_fonts::tables::gvar::{GlyphDelta, GlyphDeltas, GlyphVariations, Gvar, Tent};

use crate::access::{Access, IdSelector};
use crate::context::{
    Artifact, ArtifactView, Context, PointDelta, RegionDeltas, RegionDeltasView,
};
use crate::error::Error;
use crate::ident::{AnyWorkId, AnyWorkIdView, BeWorkId, BeWorkIdView, FeWorkId, FeWorkIdView};
use crate::work::Work;

verus! {

/// The views of a fragment's regions.
pub open spec fn region_views(regions: Seq<RegionDeltas>) -> Seq<RegionDeltasView> {
    regions.map_values(|x: RegionDeltas| x@)
}

/// The views of the kept (glyph id, fragment) pairs.
pub open spec fn pair_views(pairs: Seq<(u16, Vec<RegionDeltas>)>) -> Seq<
    (u16, Seq<RegionDeltasView>),
> {
    pairs.map_values(|p: (u16, Vec<RegionDeltas>)| (p.0, region_views(p.1@)))
}

/// A conservative byte bound for one region's serialized variation data:
/// its header holds four fixed bytes plus two bytes per axis for the peak
/// and four more per axis for an intermediate region, and each point packs
/// into at most two bytes per coordinate per stream plus run headers and
/// point numbers.
pub open spec fn region_cost(r: RegionDeltasView) -> int {
    32 + 8 * (r.peak_bits.len() as int) + 12 * (r.deltas.len() as int)
}

/// The byte bound for one glyph's serialized variation data.
pub open spec fn glyph_cost(regions: Seq<RegionDeltasView>) -> int
    decreases regions.len(),
{
    if regions.len() == 0 {
        0
    } else {
        glyph_cost(regions.drop_last()) + region_cost(regions.last())
    }
}

proof fn lemma_glyph_cost_nonneg(regions: Seq<RegionDeltasView>)
    ensures
        glyph_cost(regions) >= 0,
    decreases regions.len(),
{
    if regions.len() > 0 {
        lemma_glyph_cost_nonneg(regions.drop_last());
    }
}

proof fn lemma_glyph_cost_take(regions: Seq<RegionDeltasView>, k: int)
    requires
        0 <= k <= regions.len(),
    ensures
        glyph_cost(regions) >= glyph_cost(regions.take(k)),
    decreases regions.len() - k,
{
    if k < regions.len() {
        lemma_glyph_cost_take(regions, k + 1);
        assert(regions.take(k + 1).drop_last() =~= regions.take(k));
        assert(regions.take(k + 1).last() == regions[k]);
        lemma_glyph_cost_nonneg(regions.take(k));
    } else {
        assert(regions.take(k) =~= regions);
    }
}

/// Every region of every kept glyph sits at a peak with one coordinate per
/// axis, and a glyph's regions agree on their delta count: exactly the
/// shape the table builder validates before assembling.
pub open spec fn pairs_well_shaped(
    pairs: Seq<(u16, Seq<RegionDeltasView>)>,
    axis_count: u16,
) -> bool {
    forall|i: int, k: int|
        0 <= i < pairs.len() && 0 <= k < (#[trigger] pairs[i]).1.len() ==> {
            &&& (#[trigger] pairs[i].1[k]).peak_bits.len() == axis_count
            &&& pairs[i].1[k].deltas.len() == pairs[i].1[0].deltas.len()
        }
}

/// The serialized gvar table built from the kept pairs under the given
/// axis count. The builder's tie-breaks are deliberately deterministic, so
/// the bytes are a function of the pairs and the axis count alone.
pub uninterp spec fn gvar_bytes_of(
    pairs: Seq<(u16, Seq<RegionDeltasView>)>,
    axis_count: u16,
) -> Seq<u8>;

/// Relies on write_fonts::tables::gvar::Gvar::new and
/// write_fonts::dump_table: assembles the table from the kept pairs and
/// serializes it. The arguments are converted one-for-one into the
/// builder's input types through its plain constructors
/// (font_types::F2Dot14::from_bits, Tent::new, GlyphDelta::new,
/// GlyphDeltas::new, font_types::GlyphId::new, GlyphVariations::new); a
/// tent built with implied intermediates never triggers the builder's
/// intermediate-length check. `Gvar::new` validates every glyph's shape
/// before assembling and errors exactly on inconsistent axis or delta
/// counts, so the whole call succeeds exactly on well-shaped input: under
/// the `requires` the serializer cannot refuse — its validation only
/// rejects more than 65535 shared tuples (the builder keeps at most 4095)
/// or more than 4095 regions per glyph (the byte budget admits at most
/// 1875), and its packer resolves a gvar graph outright, whose only
/// offsets are 32-bit and whose total size stays below their range. The
/// `requires` also keep the builder's 16-bit size arithmetic in range —
/// beyond the glyph-count cap or the per-glyph byte budget it aborts
/// instead of erroring, so such input is excluded here and rejected by
/// the caller.
#[verifier::external_body]
fn build_gvar_bytes(pairs: &Vec<(u16, Vec<RegionDeltas>)>, axis_count: u16) -> (r: Result<
    Vec<u8>,
    String,
>)
    requires
        pairs@.len() <= 0xffff,
        forall|i: int|
            0 <= i < pairs@.len() ==> glyph_cost(region_views((#[trigger] pairs@[i]).1@))
                <= 60000,
    ensures
        r matches Ok(b) ==> b@ == gvar_bytes_of(pair_views(pairs@), axis_count),
        r is Ok <==> pairs_well_shaped(pair_views(pairs@), axis_count),
{
    let vars = pairs.iter().map(|(gid, regions)| GlyphVariations::new(
        font_types::GlyphId::new(*gid as u32),
        regions.iter().map(|rg| GlyphDeltas::new(
            rg.peak_bits.iter().map(|b| Tent::new(font_types::F2Dot14::from_bits(*b), None)).collect(),
            rg.deltas.iter().map(|d| GlyphDelta::new(d.x, d.y, d.required)).collect(),
        )).collect(),
    )).collect();
    let table = Gvar::new(vars, axis_count).map_err(|e| e.to_string())?;
    write_fonts::dump_table(&table).map_err(|e| e.to_string())
}

/// A deep copy of one glyph's fragment, preserving what it says.
pub fn copy_fragment(v: &Vec<RegionDeltas>) -> (r: Vec<RegionDeltas>)
    ensures
        r@.len() == v@.len(),
        forall|i: int| 0 <= i < v@.len() ==> (#[trigger] r@[i])@ == v@[i]@,
        region_views(r@) =~= region_views(v@),
{
    let mut r: Vec<RegionDeltas> = Vec::new();
    let mut i: usize = 0;
    while i < v.len()
        invariant
            0 <= i <= v@.len(),
            r@.len() == i,
            forall|j: int| 0 <= j < i ==> (#[trigger] r@[j])@ == v@[j]@,
        decreases v@.len() - i,
    {
        let region = &v[i];
        let mut peak: Vec<i16> = Vec::new();
        let mut k: usize = 0;
        while k < region.peak_bits.len()
            invariant
                0 <= k <= region.peak_bits@.len(),
                peak@ =~= region.peak_bits@.take(k as int),
            decreases region.peak_bits@.len() - k,
        {
            peak.push(region.peak_bits[k]);
            k = k + 1;
        }
        assert(peak@ =~= region.peak_bits@);
        let mut deltas: Vec<PointDelta> = Vec::new();
        let mut k: usize = 0;
        while k < region.deltas.len()
            invariant
                0 <= k <= region.deltas@.len(),
                deltas@ =~= region.deltas@.take(k as int),
            decreases region.deltas@.len() - k,
        {
            deltas.push(region.deltas[k]);
            k = k + 1;
        }
        assert(deltas@ =~= region.deltas@);
        r.push(RegionDeltas { peak_bits: peak, deltas });
        i = i + 1;
    }
    r
}

/// The fragment's byte bound, capped just above the budget: the result
/// exceeds 60000 exactly when the true bound does.
fn fragment_cost_capped(regions: &Vec<RegionDeltas>) -> (r: u64)
    ensures
        r <= 60001,
        (r <= 60000) == (glyph_cost(region_views(regions@)) <= 60000),
{
    let mut acc: u64 = 0;
    let mut k: usize = 0;
    let n = regions.len();
    while k < n
        invariant
            n == regions@.len(),
            0 <= k <= n,
            acc <= 60000,
            acc == glyph_cost(region_views(regions@).take(k as int)),
        decreases n - k,
    {
        let region = &regions[k];
        proof {
            assert(region_views(regions@).take(k as int + 1).drop_last() =~= region_views(
                regions@,
            ).take(k as int));
            assert(region_views(regions@).take(k as int + 1).last() == regions@[k as int]@);
        }
        if region.peak_bits.len() > 7500 || region.deltas.len() > 60000 {
            proof {
                lemma_glyph_cost_take(region_views(regions@), k as int + 1);
                lemma_glyph_cost_nonneg(region_views(regions@).take(k as int));
            }
            return 60001;
        }
        let cost: u64 = 32 + 8 * (region.peak_bits.len() as u64) + 12 * (region.deltas.len()
            as u64);
        if cost > 60000 || acc + cost > 60000 {
            proof {
                lemma_glyph_cost_take(region_views(regions@), k as int + 1);
            }
            return 60001;
        }
        acc = acc + cost;
        k = k + 1;
    }
    proof {
        assert(region_views(regions@).take(n as int) =~= region_views(regions@));
    }
    acc
}

/// Keeps, in glyph order, exactly the glyphs whose fragment carries
/// variation data, pairing each with its position in the order: its glyph
/// id. Glyphs with an empty fragment are omitted entirely.
pub fn make_variations(glyph_order: &Vec<String>, fragments: Vec<Vec<RegionDeltas>>) -> (r: Vec<
    (u16, Vec<RegionDeltas>),
>)
    requires
        fragments@.len() == glyph_order@.len(),
        glyph_order@.len() <= 0xffff,
    ensures
        r@.len() <= fragments@.len(),
        forall|j: int|
            0 <= j < r@.len() ==> {
                &&& ((#[trigger] r@[j]).0 as int) < fragments@.len()
                &&& fragments@[r@[j].0 as int]@.len() > 0
                &&& r@[j].1 == fragments@[r@[j].0 as int]
            },
        forall|j1: int, j2: int| 0 <= j1 < j2 < r@.len() ==> r@[j1].0 < r@[j2].0,
        forall|i: int|
            0 <= i < fragments@.len() && fragments@[i]@.len() > 0 ==> exists|j: int|
                0 <= j < r@.len() && (#[trigger] r@[j]).0 as int == i,
{
    let n = glyph_order.len();
    let mut r: Vec<(u16, Vec<RegionDeltas>)> = Vec::new();
    let mut rest = fragments;
    let mut i: usize = 0;
    while i < n
        invariant
            n == glyph_order@.len() == fragments@.len(),
            n <= 0xffff,
            0 <= i <= n,
            rest@ =~= fragments@.skip(i as int),
            r@.len() <= i,
            forall|j: int|
                0 <= j < r@.len() ==> {
                    &&& ((#[trigger] r@[j]).0 as int) < i
                    &&& fragments@[r@[j].0 as int]@.len() > 0
                    &&& r@[j].1 == fragments@[r@[j].0 as int]
                },
            forall|j1: int, j2: int| 0 <= j1 < j2 < r@.len() ==> r@[j1].0 < r@[j2].0,
            forall|g: int|
                0 <= g < i && fragments@[g]@.len() > 0 ==> exists|j: int|
                    0 <= j < r@.len() && (#[trigger] r@[j]).0 as int == g,
        decreases n - i,
    {
        let frag = rest.remove(0);
        proof {
            assert(frag == fragments@[i as int]);
            assert(rest@ =~= fragments@.skip(i as int + 1));
        }
        if frag.len() > 0 {
            let ghost pre_r = r@;
            r.push((i as u16, frag));
            proof {
                assert(r@[r@.len() - 1].0 as int == i as int);
                assert forall|g: int|
                    0 <= g < i + 1 && fragments@[g]@.len() > 0 implies exists|j: int|
                    0 <= j < r@.len() && (#[trigger] r@[j]).0 as int == g by {
                    if g < i {
                        let j = choose|j: int|
                            0 <= j < pre_r.len() && (#[trigger] pre_r[j]).0 as int == g;
                        assert(r@[j].0 as int == g);
                    } else {
                        assert(r@[r@.len() - 1].0 as int == g);
                    }
                }
            }
        }
        i = i + 1;
    }
    r
}

/// The first `i` fragments fetched so far mirror the context's slots and
/// sit within the byte budget.
pub open spec fn fetched_ok(
    ctx: Map<AnyWorkIdView, ArtifactView>,
    orderv: Seq<Seq<char>>,
    fragments: Seq<Vec<RegionDeltas>>,
    i: int,
) -> bool
    decreases i,
{
    i <= 0 || {
        &&& fetched_ok(ctx, orderv, fragments, i - 1)
        &&& ctx.contains_key(AnyWorkIdView::Be(BeWorkIdView::GvarFragment(orderv[i - 1])))
        &&& ctx[AnyWorkIdView::Be(BeWorkIdView::GvarFragment(orderv[i - 1]))]
            == ArtifactView::GvarFragment(region_views(fragments[i - 1]@))
        &&& glyph_cost(region_views(fragments[i - 1]@)) <= 60000
    }
}

/// What the fetched-fragments invariant says of one glyph.
proof fn lemma_fetched_ok_at(
    ctx: Map<AnyWorkIdView, ArtifactView>,
    orderv: Seq<Seq<char>>,
    fragments: Seq<Vec<RegionDeltas>>,
    i: int,
    j: int,
)
    requires
        fetched_ok(ctx, orderv, fragments, i),
        0 <= j < i,
    ensures
        ctx.contains_key(AnyWorkIdView::Be(BeWorkIdView::GvarFragment(orderv[j]))),
        ctx[AnyWorkIdView::Be(BeWorkIdView::GvarFragment(orderv[j]))]
            == ArtifactView::GvarFragment(region_views(fragments[j]@)),
        glyph_cost(region_views(fragments[j]@)) <= 60000,
    decreases i,
{
    if j < i - 1 {
        lemma_fetched_ok_at(ctx, orderv, fragments, i - 1, j);
    }
}

/// The invariant reads only the first `i` fragments.
proof fn lemma_fetched_ok_prefix(
    ctx: Map<AnyWorkIdView, ArtifactView>,
    orderv: Seq<Seq<char>>,
    f1: Seq<Vec<RegionDeltas>>,
    f2: Seq<Vec<RegionDeltas>>,
    i: int,
)
    requires
        fetched_ok(ctx, orderv, f1, i),
        forall|j: int| 0 <= j < i ==> f1[j] == f2[j],
    ensures
        fetched_ok(ctx, orderv, f2, i),
    decreases i,
{
    if i > 0 {
        lemma_fetched_ok_prefix(ctx, orderv, f1, f2, i - 1);
    }
}

/// The fragment slot of one glyph.
pub open spec fn fragment_slot(name: Seq<char>) -> AnyWorkIdView {
    AnyWorkIdView::Be(BeWorkIdView::GvarFragment(name))
}

/// The glyph-order slot holds an order within the format's glyph-count cap.
pub open spec fn order_ok(ctx: Map<AnyWorkIdView, ArtifactView>) -> bool {
    &&& ctx.contains_key(AnyWorkIdView::Fe(FeWorkIdView::GlyphOrder))
    &&& (ctx[AnyWorkIdView::Fe(FeWorkIdView::GlyphOrder)] matches ArtifactView::GlyphOrder(
        order,
    ) && order.len() <= 0xffff)
}

/// Every glyph of the order has a filled fragment slot.
pub open spec fn frags_present(ctx: Map<AnyWorkIdView, ArtifactView>, order: Seq<Seq<char>>) -> bool {
    forall|g: int| 0 <= g < order.len() ==> ctx.contains_key(fragment_slot(#[trigger] order[g]))
}

/// Every filled fragment slot holds fragment data.
pub open spec fn present_frags_typed(
    ctx: Map<AnyWorkIdView, ArtifactView>,
    order: Seq<Seq<char>>,
) -> bool {
    forall|g: int|
        0 <= g < order.len() && ctx.contains_key(fragment_slot(#[trigger] order[g]))
            ==> (ctx[fragment_slot(order[g])] matches ArtifactView::GvarFragment(_))
}

/// Every fragment sits within the byte budget.
pub open spec fn typed_frags_within(
    ctx: Map<AnyWorkIdView, ArtifactView>,
    order: Seq<Seq<char>>,
) -> bool {
    forall|g: int|
        0 <= g < order.len() && ctx.contains_key(fragment_slot(#[trigger] order[g]))
            ==> (ctx[fragment_slot(order[g])] matches ArtifactView::GvarFragment(regions)
            ==> glyph_cost(regions) <= 60000)
}

/// Every fragment's regions sit at peaks with one coordinate per axis and
/// agree on their delta count.
pub open spec fn frags_shaped(
    ctx: Map<AnyWorkIdView, ArtifactView>,
    order: Seq<Seq<char>>,
    axis_count: u16,
) -> bool {
    forall|g: int|
        0 <= g < order.len() && ctx.contains_key(fragment_slot(#[trigger] order[g]))
            ==> (ctx[fragment_slot(order[g])] matches ArtifactView::GvarFragment(regions)
            ==> forall|k: int|
            0 <= k < regions.len() ==> ((#[trigger] regions[k]).peak_bits.len() == axis_count
                && regions[k].deltas.len() == regions[0].deltas.len()))
}

/// Every input the assembly task needs stands filled and admissible: the
/// glyph order within the format's glyph-count cap, and for every glyph a
/// fragment slot within the byte budget whose regions match the axis count
/// and agree on their delta counts.
pub open spec fn gvar_inputs_ready(ctx: Map<AnyWorkIdView, ArtifactView>, axis_count: u16) -> bool {
    &&& order_ok(ctx)
    &&& (ctx[AnyWorkIdView::Fe(FeWorkIdView::GlyphOrder)] matches ArtifactView::GlyphOrder(
        order,
    ) && {
        &&& frags_present(ctx, order)
        &&& present_frags_typed(ctx, order)
        &&& typed_frags_within(ctx, order)
        &&& frags_shaped(ctx, order, axis_count)
    })
}

/// The pairs are exactly the non-empty fragments of the context's glyph
/// order, in order, each under its position as glyph id.
pub open spec fn kept_from_context(
    pairs: Seq<(u16, Seq<RegionDeltasView>)>,
    ctx: Map<AnyWorkIdView, ArtifactView>,
    order: Seq<Seq<char>>,
) -> bool {
    &&& forall|j: int|
        0 <= j < pairs.len() ==> {
            let fid = AnyWorkIdView::Be(
                BeWorkIdView::GvarFragment(order[(#[trigger] pairs[j]).0 as int]),
            );
            &&& (pairs[j].0 as int) < order.len()
            &&& ctx.contains_key(fid)
            &&& ctx[fid] == ArtifactView::GvarFragment(pairs[j].1)
            &&& pairs[j].1.len() > 0
        }
    &&& forall|j1: int, j2: int| 0 <= j1 < j2 < pairs.len() ==> pairs[j1].0 < pairs[j2].0
    &&& forall|g: int|
        {
            let fid = AnyWorkIdView::Be(BeWorkIdView::GvarFragment(#[trigger] order[g]));
            0 <= g < order.len() && ctx.contains_key(fid) && (ctx[fid] matches
                ArtifactView::GvarFragment(regions)
                && regions.len() > 0) ==> exists|j: int|
                0 <= j < pairs.len() && ((#[trigger] pairs[j]).0 as int) == g
        }
}

/// The task assembling and serializing the gvar table.
#[derive(Debug)]
pub struct GvarWork {
    /// The font's axis count, as the frontend's static metadata states it;
    /// carried in the work item so that the declaration stays exactly the
    /// glyph order plus the fragment identities while the table builder
    /// still receives the count it needs.
    pub axis_count: u16,
}

/// Builds the gvar assembly task for a font with the given axis count.
pub fn create_gvar_work(axis_count: u16) -> (r: GvarWork)
    ensures
        r.id_spec() == AnyWorkIdView::Be(BeWorkIdView::Gvar),
        r.axis_count == axis_count,
{
    GvarWork { axis_count }
}

impl Work for GvarWork {
    open spec fn id_spec(&self) -> AnyWorkIdView {
        AnyWorkIdView::Be(BeWorkIdView::Gvar)
    }

    /// Exactly the glyph order plus every per-glyph fragment identity.
    open spec fn reads_spec(&self, id: AnyWorkIdView) -> bool {
        ||| id == AnyWorkIdView::Fe(FeWorkIdView::GlyphOrder)
        ||| id matches AnyWorkIdView::Be(BeWorkIdView::GvarFragment(_))
    }

    fn id(&self) -> (r: AnyWorkId) {
        AnyWorkId::Be(BeWorkId::Gvar)
    }

    fn read_access(&self) -> (r: Access) {
        let mut selectors: Vec<IdSelector> = Vec::new();
        selectors.push(IdSelector::Exact(AnyWorkId::Fe(FeWorkId::GlyphOrder)));
        selectors.push(IdSelector::AnyGvarFragment);
        let ghost sels = selectors@;
        let r = Access::Custom(selectors);
        proof {
            assert forall|id: AnyWorkIdView| r.spec_matches(id) == self.reads_spec(id) by {
                assert(r->Custom_0@ == sels);
                if self.reads_spec(id) {
                    if id == AnyWorkIdView::Fe(FeWorkIdView::GlyphOrder) {
                        assert(r->Custom_0@[0].spec_matches(id));
                    } else {
                        assert(r->Custom_0@[1].spec_matches(id));
                    }
                }
                if r.spec_matches(id) {
                    let q = choose|q: int|
                        0 <= q < r->Custom_0@.len() && r->Custom_0@[q].spec_matches(id);
                    assert(sels[q].spec_matches(id));
                }
            }
        }
        r
    }

    /// Glues the per-glyph fragments into the gvar table, filters out the
    /// glyphs without variation data, serializes, and fills its own slot.
    /// Succeeds whenever its inputs are ready and its slot is empty; on
    /// success the stored bytes are the serialized table of exactly the
    /// kept fragments. Each kind of inadmissible input is reported as its
    /// own error.
    fn exec(&self, ctx: &mut Context) -> (r: Result<(), Error>)
        ensures
            !old(ctx)@.contains_key(AnyWorkIdView::Fe(FeWorkIdView::GlyphOrder)) ==> (r
                matches Err(e) && e matches Error::MissingDependency(_)),
            old(ctx)@.contains_key(AnyWorkIdView::Fe(FeWorkIdView::GlyphOrder)) && !(old(
                ctx,
            )@[AnyWorkIdView::Fe(FeWorkIdView::GlyphOrder)] matches ArtifactView::GlyphOrder(_))
                ==> (r matches Err(e) && e matches Error::WrongArtifactKind(_)),
            (old(ctx)@.contains_key(AnyWorkIdView::Fe(FeWorkIdView::GlyphOrder)) && (old(
                ctx,
            )@[AnyWorkIdView::Fe(FeWorkIdView::GlyphOrder)] matches ArtifactView::GlyphOrder(
                order,
            ) && order.len() > 0xffff)) ==> (r matches Err(e) && e matches Error::OutOfBounds {
                ..
            }),
            (order_ok(old(ctx)@) && (old(ctx)@[AnyWorkIdView::Fe(FeWorkIdView::GlyphOrder)]
                matches ArtifactView::GlyphOrder(order) && present_frags_typed(old(ctx)@, order)
                && typed_frags_within(old(ctx)@, order) && !frags_present(old(ctx)@, order)))
                ==> (r matches Err(e) && e matches Error::MissingDependency(_)),
            (order_ok(old(ctx)@) && (old(ctx)@[AnyWorkIdView::Fe(FeWorkIdView::GlyphOrder)]
                matches ArtifactView::GlyphOrder(order) && frags_present(old(ctx)@, order)
                && typed_frags_within(old(ctx)@, order) && !present_frags_typed(
                old(ctx)@,
                order,
            ))) ==> (r matches Err(e) && e matches Error::WrongArtifactKind(_)),
            (order_ok(old(ctx)@) && (old(ctx)@[AnyWorkIdView::Fe(FeWorkIdView::GlyphOrder)]
                matches ArtifactView::GlyphOrder(order) && frags_present(old(ctx)@, order)
                && present_frags_typed(old(ctx)@, order) && !typed_frags_within(
                old(ctx)@,
                order,
            ))) ==> (r matches Err(e) && e matches Error::OutOfBounds { .. }),
            (order_ok(old(ctx)@) && (old(ctx)@[AnyWorkIdView::Fe(FeWorkIdView::GlyphOrder)]
                matches ArtifactView::GlyphOrder(order) && frags_present(old(ctx)@, order)
                && present_frags_typed(old(ctx)@, order) && typed_frags_within(
                old(ctx)@,
                order,
            ) && !frags_shaped(old(ctx)@, order, self.axis_count))) ==> (r matches Err(e) && e
                matches Error::GvarError(_)),
            (gvar_inputs_ready(old(ctx)@, self.axis_count) && !old(ctx)@.contains_key(
                self.id_spec(),
            )) ==> r is Ok,
            r is Ok ==> (old(ctx)@[AnyWorkIdView::Fe(FeWorkIdView::GlyphOrder)] matches
                ArtifactView::GlyphOrder(order2) && forall|g: int|
                0 <= g < order2.len() ==> old(ctx)@.contains_key(
                    fragment_slot(#[trigger] order2[g]),
                )),
            r is Ok ==> (old(ctx)@[AnyWorkIdView::Fe(FeWorkIdView::GlyphOrder)] matches
                ArtifactView::GlyphOrder(order) && (exists|
                pairs: Seq<(u16, Seq<RegionDeltasView>)>,
            |
                #[trigger] kept_from_context(pairs, old(ctx)@, order) && final(ctx)@[self
                    .id_spec()] == ArtifactView::TableBytes(
                    gvar_bytes_of(pairs, self.axis_count),
                ))),
    {
        let access = self.read_access();
        let order_id = AnyWorkId::Fe(FeWorkId::GlyphOrder);
        let order = match ctx.get(&order_id, &access) {
            Ok(a) => match a.as_glyph_order() {
                Some(x) => x,
                None => {
                    return Err(Error::WrongArtifactKind(order_id));
                },
            },
            Err(e) => {
                return Err(e);
            },
        };
        let ghost orderv = order@.map_values(|n: String| n@);
        if order.len() > 0xffff {
            let reported: i64 = if order.len() < 0x7fffffff {
                order.len() as i64
            } else {
                0x7fffffff
            };
            return Err(Error::OutOfBounds { what: "glyph order length".to_owned(), value: reported });
        }
        let n = order.len();
        let mut fragments: Vec<Vec<RegionDeltas>> = Vec::new();
        let mut i: usize = 0;
        while i < n
            invariant
                old(ctx).wf(),
                *ctx == *old(ctx),
                n == order@.len() <= 0xffff,
                orderv == order@.map_values(|nm: String| nm@),
                orderv.len() == n,
                0 <= i <= n,
                fragments@.len() == i,
                old(ctx)@.contains_key(AnyWorkIdView::Fe(FeWorkIdView::GlyphOrder)),
                old(ctx)@[AnyWorkIdView::Fe(FeWorkIdView::GlyphOrder)]
                    == ArtifactView::GlyphOrder(orderv),
                forall|id: AnyWorkIdView| access.spec_matches(id) == self.reads_spec(id),
                fetched_ok(ctx@, orderv, fragments@, i as int),
            decreases n - i,
        {
            let frag_id = AnyWorkId::Be(BeWorkId::GvarFragment(order[i].clone()));
            proof {
                assert(frag_id@ == fragment_slot(orderv[i as int]));
                assert(access.spec_matches(frag_id@));
            }
            let frag = match ctx.get(&frag_id, &access) {
                Ok(a) => match a.as_gvar_fragment() {
                    Some(x) => x,
                    None => {
                        proof {
                            assert(old(ctx)@.contains_key(fragment_slot(orderv[i as int])));
                            assert(!present_frags_typed(old(ctx)@, orderv));
                        }
                        return Err(Error::WrongArtifactKind(frag_id));
                    },
                },
                Err(e) => {
                    proof {
                        assert(!old(ctx)@.contains_key(fragment_slot(orderv[i as int])));
                        assert(!frags_present(old(ctx)@, orderv));
                    }
                    return Err(e);
                },
            };
            let copied = copy_fragment(frag);
            let cost = fragment_cost_capped(&copied);
            if cost > 60000 {
                proof {
                    assert(region_views(copied@) =~= frag@.map_values(|x: RegionDeltas| x@));
                    assert(old(ctx)@[fragment_slot(orderv[i as int])]
                        == ArtifactView::GvarFragment(region_views(copied@)));
                    assert(!typed_frags_within(old(ctx)@, orderv));
                }
                return Err(Error::OutOfBounds {
                    what: "glyph variation data size".to_owned(),
                    value: cost as i64,
                });
            }
            proof {
                assert(region_views(copied@) =~= frag@.map_values(|x: RegionDeltas| x@));
            }
            let ghost pre_frags = fragments@;
            fragments.push(copied);
            proof {
                assert(ctx@.contains_key(fragment_slot(orderv[i as int])));
                assert(fragments@[i as int] == copied);
                assert(ctx@[fragment_slot(orderv[i as int])] == ArtifactView::GvarFragment(
                    region_views(fragments@[i as int]@),
                ));
                assert(glyph_cost(region_views(fragments@[i as int]@)) <= 60000);
                lemma_fetched_ok_prefix(ctx@, orderv, pre_frags, fragments@, i as int);
                assert(fetched_ok(ctx@, orderv, fragments@, i as int + 1));
            }
            i = i + 1;
        }
        proof {
            assert forall|g: int|
                0 <= g < orderv.len() implies {
                &&& old(ctx)@.contains_key(fragment_slot(#[trigger] orderv[g]))
                &&& old(ctx)@[fragment_slot(orderv[g])] == ArtifactView::GvarFragment(
                    region_views(fragments@[g]@),
                )
                &&& glyph_cost(region_views(fragments@[g]@)) <= 60000
            } by {
                lemma_fetched_ok_at(ctx@, orderv, fragments@, n as int, g);
            }
            assert(frags_present(old(ctx)@, orderv));
            assert(present_frags_typed(old(ctx)@, orderv));
            assert(typed_frags_within(old(ctx)@, orderv));
        }
        let pairs = make_variations(order, fragments);
        proof {
            assert forall|j: int|
                0 <= j < pairs@.len() implies glyph_cost(region_views(
                (#[trigger] pairs@[j]).1@,
            )) <= 60000 by {
                let gid = pairs@[j].0 as int;
                assert(pairs@[j].1 == fragments@[gid]);
                lemma_fetched_ok_at(ctx@, orderv, fragments@, n as int, gid);
            }
        }
        let built = build_gvar_bytes(&pairs, self.axis_count);
        proof {
            let pv = pair_views(pairs@);
            assert forall|j: int|
                0 <= j < pv.len() implies {
                let fid = fragment_slot(orderv[(#[trigger] pv[j]).0 as int]);
                &&& (pv[j].0 as int) < orderv.len()
                &&& old(ctx)@.contains_key(fid)
                &&& old(ctx)@[fid] == ArtifactView::GvarFragment(pv[j].1)
                &&& pv[j].1.len() > 0
            } by {
                let gid = pairs@[j].0 as int;
                assert(pairs@[j].1 == fragments@[gid]);
                assert(pv[j].1 == region_views(fragments@[gid]@));
                assert(region_views(fragments@[gid]@).len() == fragments@[gid]@.len());
                lemma_fetched_ok_at(old(ctx)@, orderv, fragments@, n as int, gid);
            }
            assert forall|g: int|
                {
                    let fid = fragment_slot(#[trigger] orderv[g]);
                    0 <= g < orderv.len() && old(ctx)@.contains_key(fid) && (old(ctx)@[fid]
                        matches ArtifactView::GvarFragment(regions) && regions.len() > 0)
                } implies exists|j: int|
                0 <= j < pv.len() && ((#[trigger] pv[j]).0 as int) == g by {
                lemma_fetched_ok_at(old(ctx)@, orderv, fragments@, n as int, g);
                assert(old(ctx)@[fragment_slot(orderv[g])] == ArtifactView::GvarFragment(
                    region_views(fragments@[g]@),
                ));
                assert(fragments@[g]@.len() > 0);
                let j = choose|j: int|
                    0 <= j < pairs@.len() && (#[trigger] pairs@[j]).0 as int == g;
                assert((pv[j].0 as int) == g);
            }
            assert(kept_from_context(pv, old(ctx)@, orderv));
            if frags_shaped(old(ctx)@, orderv, self.axis_count) {
                assert forall|x: int, k: int|
                    0 <= x < pv.len() && 0 <= k < (#[trigger] pv[x]).1.len() implies {
                    &&& (#[trigger] pv[x].1[k]).peak_bits.len() == self.axis_count
                    &&& pv[x].1[k].deltas.len() == pv[x].1[0].deltas.len()
                } by {
                    let gid = pairs@[x].0 as int;
                    assert(pairs@[x].1 == fragments@[gid]);
                    assert(pv[x].1 == region_views(fragments@[gid]@));
                    lemma_fetched_ok_at(old(ctx)@, orderv, fragments@, n as int, gid);
                    assert(old(ctx)@[fragment_slot(orderv[gid])] == ArtifactView::GvarFragment(
                        pv[x].1,
                    ));
                }
                assert(pairs_well_shaped(pv, self.axis_count));
            }
            if built is Ok {
                assert(pairs_well_shaped(pv, self.axis_count));
                assert forall|g: int|
                    {
                        let fid = fragment_slot(#[trigger] orderv[g]);
                        0 <= g < orderv.len() && old(ctx)@.contains_key(fid)
                    } implies (old(ctx)@[fragment_slot(orderv[g])] matches
                    ArtifactView::GvarFragment(regions) ==> forall|k: int|
                    0 <= k < regions.len() ==> ((#[trigger] regions[k]).peak_bits.len()
                        == self.axis_count && regions[k].deltas.len()
                        == regions[0].deltas.len())) by {
                    lemma_fetched_ok_at(old(ctx)@, orderv, fragments@, n as int, g);
                    let regions = region_views(fragments@[g]@);
                    if regions.len() > 0 {
                        let j = choose|j: int|
                            0 <= j < pairs@.len() && (#[trigger] pairs@[j]).0 as int == g;
                        assert(old(ctx)@[fragment_slot(orderv[g])]
                            == ArtifactView::GvarFragment(pv[j].1));
                        assert(pv[j].1 == regions);
                        assert forall|k: int| 0 <= k < regions.len() implies ((
                        #[trigger] regions[k]).peak_bits.len() == self.axis_count
                            && regions[k].deltas.len() == regions[0].deltas.len()) by {
                            assert(pv[j].1[k] == regions[k]);
                        }
                    }
                }
                assert(frags_shaped(old(ctx)@, orderv, self.axis_count));
            }
        }
        let bytes = match built {
            Ok(b) => b,
            Err(message) => {
                return Err(Error::GvarError(message));
            },
        };
        let own = self.id();
        match ctx.set_unconditionally(own, Artifact::TableBytes(bytes)) {
            Ok(()) => {
                proof {
                    assert(kept_from_context(pair_views(pairs@), old(ctx)@, orderv));
                    assert forall|g: int|
                        0 <= g < orderv.len() implies old(ctx)@.contains_key(
                        fragment_slot(#[trigger] orderv[g]),
                    ) by {
                        lemma_fetched_ok_at(old(ctx)@, orderv, fragments@, n as int, g);
                    }
                }
                Ok(())
            },
            Err(e) => Err(e),
        }
    }
}

} // verus!
