use font_types::F2Dot14;

use fontc::access::Access;
use fontc::context::{Artifact, Context, GlyphIr, GlyphSource, PointDelta, RegionDeltas};
use fontc::error::{Error, GlyphProblem};
use fontc::fragment::{create_gvar_fragment_work, make_glyph_deltas};
use fontc::gvar::{create_gvar_work, make_variations};
use fontc::ident::{AnyWorkId, BeWorkId, FeWorkId};
use fontc::timer::JobTimer;
use fontc::workload::{AnyWork, Workload};

fn fe_glyph(name: &str) -> AnyWorkId {
    AnyWorkId::Fe(FeWorkId::Glyph(name.to_string()))
}

fn be_fragment(name: &str) -> AnyWorkId {
    AnyWorkId::Be(BeWorkId::GvarFragment(name.to_string()))
}

fn source(peak_bits: Vec<i16>, points: Vec<(i16, i16)>) -> GlyphSource {
    GlyphSource { peak_bits, points }
}

/// A two-master glyph whose non-default master shifts every point by the
/// given offsets.
fn shifted_glyph(points: Vec<(i16, i16)>, dx: i16, dy: i16) -> GlyphIr {
    let moved = points.iter().map(|(x, y)| (x + dx, y + dy)).collect();
    GlyphIr {
        sources: vec![
            source(vec![0], points),
            source(vec![F2Dot14::from_f32(1.0).to_bits()], moved),
        ],
    }
}

fn prefill(ctx: &mut Context, glyphs: Vec<(&str, GlyphIr)>) {
    let order: Vec<String> = glyphs.iter().map(|(n, _)| n.to_string()).collect();
    assert!(ctx
        .set_unconditionally(AnyWorkId::Fe(FeWorkId::GlyphOrder), Artifact::GlyphOrder(order))
        .is_ok());
    for (name, ir) in glyphs {
        assert!(ctx.set_unconditionally(fe_glyph(name), Artifact::Glyph(ir)).is_ok());
    }
}

fn full_workload(names: &[&str]) -> Workload {
    let mut works: Vec<AnyWork> = names
        .iter()
        .map(|n| AnyWork::Fragment(create_gvar_fragment_work(n.to_string())))
        .collect();
    works.push(AnyWork::Gvar(create_gvar_work(1)));
    Workload::new(works)
}

#[test]
fn skips_empty_variations() {
    let glyph_with_var = "has_var";
    let glyph_without_var = "no_var";
    let glyph_order: Vec<String> =
        vec![glyph_with_var.to_string(), glyph_without_var.to_string()];

    let fragments: Vec<Vec<RegionDeltas>> = glyph_order
        .iter()
        .map(|name| match name.as_str() {
            v if v == glyph_without_var => Vec::new(),
            // At the maximum extent (normalized pos 1.0) of our axis, add +1, +1
            v if v == glyph_with_var => vec![RegionDeltas {
                peak_bits: vec![F2Dot14::from_f32(1.0).to_bits()],
                deltas: vec![PointDelta { x: 1, y: 1, required: true }],
            }],
            v => panic!("unexpected {v}"),
        })
        .collect();

    let variations = make_variations(&glyph_order, fragments);

    assert_eq!(1, variations.len(), "{variations:?}");
}

#[test]
fn make_variations_keeps_glyph_ids() {
    let order: Vec<String> = vec!["a".into(), "b".into(), "c".into()];
    let frag = |n: i16| {
        vec![RegionDeltas {
            peak_bits: vec![16384],
            deltas: vec![PointDelta { x: n, y: 0, required: true }],
        }]
    };
    let fragments = vec![frag(1), Vec::new(), frag(3)];
    let variations = make_variations(&order, fragments);
    assert_eq!(2, variations.len());
    assert_eq!(0, variations[0].0);
    assert_eq!(2, variations[1].0);
    assert_eq!(3, variations[1].1[0].deltas[0].x);
}

#[test]
fn glyph_deltas_exact_values() {
    let ir = GlyphIr {
        sources: vec![
            source(vec![0], vec![(10, 10), (20, 30)]),
            source(vec![16384], vec![(11, 12), (25, 20)]),
        ],
    };
    let regions = make_glyph_deltas(&"g".to_string(), &ir).unwrap();
    assert_eq!(1, regions.len());
    assert_eq!(vec![16384], regions[0].peak_bits);
    assert_eq!(
        vec![
            PointDelta { x: 1, y: 2, required: true },
            PointDelta { x: 5, y: -10, required: true }
        ],
        regions[0].deltas
    );
}

#[test]
fn missing_default_master_is_reported() {
    let ir = GlyphIr { sources: vec![source(vec![16384], vec![(0, 0)])] };
    match make_glyph_deltas(&"g".to_string(), &ir) {
        Err(Error::GlyphError(name, GlyphProblem::MissingDefault)) => assert_eq!("g", name),
        other => panic!("unexpected {other:?}"),
    }
}

#[test]
fn oversized_delta_is_out_of_bounds() {
    let ir = GlyphIr {
        sources: vec![
            source(vec![0], vec![(-20000, 0)]),
            source(vec![16384], vec![(20000, 0)]),
        ],
    };
    match make_glyph_deltas(&"g".to_string(), &ir) {
        Err(Error::OutOfBounds { value, .. }) => assert_eq!(40000, value),
        other => panic!("unexpected {other:?}"),
    }
}

#[test]
fn filled_slot_is_stable() {
    let mut ctx = Context::new();
    let id = AnyWorkId::Fe(FeWorkId::StaticMetadata);
    assert!(ctx.set_unconditionally(id.duplicate(), Artifact::StaticMetadata(7)).is_ok());
    let first = ctx.get(&id, &Access::All).unwrap().as_static_metadata().unwrap();
    assert!(ctx
        .set_unconditionally(AnyWorkId::Fe(FeWorkId::GlyphOrder), Artifact::GlyphOrder(vec![]))
        .is_ok());
    let second = ctx.get(&id, &Access::All).unwrap().as_static_metadata().unwrap();
    assert_eq!(first, second);
    assert_eq!(7, second);
}

#[test]
fn second_fill_fails_deterministically() {
    let mut ctx = Context::new();
    let id = AnyWorkId::Be(BeWorkId::Gvar);
    assert!(ctx.set_unconditionally(id.duplicate(), Artifact::TableBytes(vec![1])).is_ok());
    match ctx.set_unconditionally(id.duplicate(), Artifact::TableBytes(vec![2])) {
        Err(Error::DuplicateProducer(_)) => {}
        other => panic!("unexpected {other:?}"),
    }
    // the first value is untouched
    let bytes = ctx.get(&id, &Access::All).unwrap().as_table_bytes().unwrap().clone();
    assert_eq!(vec![1], bytes);
}

#[test]
fn read_outside_declaration_is_violation() {
    let mut ctx = Context::new();
    let id = AnyWorkId::Fe(FeWorkId::StaticMetadata);
    assert!(ctx.set_unconditionally(id.duplicate(), Artifact::StaticMetadata(1)).is_ok());
    match ctx.get(&id, &Access::Nothing) {
        Err(Error::AccessViolation(_)) => {}
        other => panic!("unexpected {other:?}"),
    }
}

#[test]
fn read_of_empty_slot_is_missing_dependency() {
    let ctx = Context::new();
    match ctx.get(&AnyWorkId::Be(BeWorkId::Gvar), &Access::All) {
        Err(Error::MissingDependency(_)) => {}
        other => panic!("unexpected {other:?}"),
    }
}

#[test]
fn duplicated_producer_fails_before_any_task() {
    let mut ctx = Context::new();
    prefill(&mut ctx, vec![("a", shifted_glyph(vec![(0, 0)], 1, 1))]);
    let works = vec![
        AnyWork::Fragment(create_gvar_fragment_work("a".to_string())),
        AnyWork::Fragment(create_gvar_fragment_work("a".to_string())),
    ];
    let mut timer = JobTimer::new();
    match Workload::new(works).exec(&mut ctx, &mut timer) {
        Err(errors) => {
            assert_eq!(1, errors.len());
            assert!(matches!(errors[0], Error::DuplicateProducer(_)), "{errors:?}");
        }
        Ok(n) => panic!("unexpected success of {n} tasks"),
    }
    // nothing ran: no fragment slot was filled
    assert!(ctx.get(&be_fragment("a"), &Access::All).is_err());
}

#[test]
fn unmatched_predicate_is_a_config_error() {
    let mut ctx = Context::new();
    let works = vec![AnyWork::Fragment(create_gvar_fragment_work("ghost".to_string()))];
    let mut timer = JobTimer::new();
    match Workload::new(works).exec(&mut ctx, &mut timer) {
        Err(errors) => {
            assert!(matches!(errors[0], Error::UnmatchedPredicate(_)), "{errors:?}");
        }
        Ok(n) => panic!("unexpected success of {n} tasks"),
    }
}

#[test]
fn acyclic_workload_completes_and_fills_gvar() {
    let mut ctx = Context::new();
    prefill(
        &mut ctx,
        vec![
            ("a", shifted_glyph(vec![(10, 10), (20, 20)], 5, -3)),
            ("b", GlyphIr { sources: vec![source(vec![0], vec![(1, 1)])] }),
        ],
    );
    let mut timer = JobTimer::new();
    let executed = full_workload(&["a", "b"]).exec(&mut ctx, &mut timer).unwrap();
    assert_eq!(3, executed);
    let bytes = ctx
        .get(&AnyWorkId::Be(BeWorkId::Gvar), &Access::All)
        .unwrap()
        .as_table_bytes()
        .unwrap()
        .clone();
    assert!(!bytes.is_empty());
    // one timing record per executed task
    assert_eq!(3, timer.timeline().len());
}

#[test]
fn inconsistent_masters_fail_only_their_glyph() {
    let mut ctx = Context::new();
    let bad = GlyphIr {
        sources: vec![
            source(vec![0], vec![(0, 0), (1, 1), (2, 2)]),
            source(vec![16384], vec![(0, 0), (1, 1)]),
        ],
    };
    prefill(
        &mut ctx,
        vec![
            ("one", shifted_glyph(vec![(3, 4)], 1, 1)),
            ("two", bad),
            ("three", shifted_glyph(vec![(5, 6)], 2, 2)),
        ],
    );
    let mut timer = JobTimer::new();
    match full_workload(&["one", "two", "three"]).exec(&mut ctx, &mut timer) {
        Err(errors) => {
            assert_eq!(1, errors.len(), "{errors:?}");
            match &errors[0] {
                Error::GlyphError(name, GlyphProblem::InconsistentPathElements) => {
                    assert_eq!("two", name)
                }
                other => panic!("unexpected {other:?}"),
            }
        }
        Ok(n) => panic!("unexpected success of {n} tasks"),
    }
    // the other two glyphs still completed
    assert!(ctx.get(&be_fragment("one"), &Access::All).is_ok());
    assert!(ctx.get(&be_fragment("three"), &Access::All).is_ok());
    // the failed glyph's slot stays empty, and the dependent gvar task was skipped
    assert!(ctx.get(&be_fragment("two"), &Access::All).is_err());
    assert!(ctx.get(&AnyWorkId::Be(BeWorkId::Gvar), &Access::All).is_err());
}

#[test]
fn assembly_omits_empty_fragment() {
    let mut ctx = Context::new();
    prefill(
        &mut ctx,
        vec![
            ("varies", shifted_glyph(vec![(10, 10)], 7, 7)),
            ("static", GlyphIr { sources: vec![source(vec![0], vec![(9, 9)])] }),
        ],
    );
    let mut timer = JobTimer::new();
    assert!(full_workload(&["varies", "static"]).exec(&mut ctx, &mut timer).is_ok());
    // the varying glyph's fragment carries one region, the static one none
    let varies = ctx.get(&be_fragment("varies"), &Access::All).unwrap();
    assert_eq!(1, varies.as_gvar_fragment().unwrap().len());
    let fixed = ctx.get(&be_fragment("static"), &Access::All).unwrap();
    assert_eq!(0, fixed.as_gvar_fragment().unwrap().len());
    // and the assembly filters the empty one out
    let order: Vec<String> = vec!["varies".into(), "static".into()];
    let fragments = vec![
        ctx.get(&be_fragment("varies"), &Access::All)
            .unwrap()
            .as_gvar_fragment()
            .unwrap()
            .iter()
            .map(|r| RegionDeltas {
                peak_bits: r.peak_bits.clone(),
                deltas: r.deltas.clone(),
            })
            .collect(),
        Vec::new(),
    ];
    let kept = make_variations(&order, fragments);
    assert_eq!(1, kept.len());
    assert_eq!(0, kept[0].0);
}

#[test]
fn glyph_problem_messages() {
    assert_eq!("has interpolation-incompatible paths", GlyphProblem::InconsistentPathElements.message());
    assert_eq!("has no default master", GlyphProblem::MissingDefault.message());
    assert_eq!("has no entry in glyph order", GlyphProblem::NotInGlyphOrder.message());
}

#[test]
fn axis_count_mismatch_is_gvar_error() {
    // the task expects two axes, but the glyph's region peaks on one
    let mut ctx = Context::new();
    prefill(&mut ctx, vec![("a", shifted_glyph(vec![(1, 1)], 2, 2))]);
    let works = vec![
        AnyWork::Fragment(create_gvar_fragment_work("a".to_string())),
        AnyWork::Gvar(create_gvar_work(2)),
    ];
    let mut timer = JobTimer::new();
    match Workload::new(works).exec(&mut ctx, &mut timer) {
        Err(errors) => assert!(matches!(errors[0], Error::GvarError(_)), "{errors:?}"),
        Ok(n) => panic!("unexpected success of {n} tasks"),
    }
}

#[test]
fn mistyped_slot_is_wrong_artifact_kind() {
    let mut ctx = Context::new();
    // the glyph slot holds table bytes instead of source geometry
    assert!(ctx
        .set_unconditionally(fe_glyph("a"), Artifact::TableBytes(vec![0]))
        .is_ok());
    let works = vec![AnyWork::Fragment(create_gvar_fragment_work("a".to_string()))];
    let mut timer = JobTimer::new();
    match Workload::new(works).exec(&mut ctx, &mut timer) {
        Err(errors) => assert!(matches!(errors[0], Error::WrongArtifactKind(_)), "{errors:?}"),
        Ok(n) => panic!("unexpected success of {n} tasks"),
    }
}

#[test]
fn oversized_variation_data_is_out_of_bounds() {
    // one region with enough points to bust the per-glyph byte budget
    let points: Vec<(i16, i16)> = (0..5000).map(|k| ((k % 100) as i16, 0)).collect();
    let mut ctx = Context::new();
    prefill(&mut ctx, vec![("big", shifted_glyph(points, 1, 1))]);
    let mut timer = JobTimer::new();
    match full_workload(&["big"]).exec(&mut ctx, &mut timer) {
        Err(errors) => {
            assert!(matches!(errors[0], Error::OutOfBounds { .. }), "{errors:?}");
        }
        Ok(n) => panic!("unexpected success of {n} tasks"),
    }
}

#[test]
fn mistyped_fragment_slot_fails_assembly() {
    let mut ctx = Context::new();
    assert!(ctx
        .set_unconditionally(
            AnyWorkId::Fe(FeWorkId::GlyphOrder),
            Artifact::GlyphOrder(vec!["a".to_string()])
        )
        .is_ok());
    // the fragment slot holds table bytes instead of variation deltas
    assert!(ctx
        .set_unconditionally(be_fragment("a"), Artifact::TableBytes(vec![0]))
        .is_ok());
    let works = vec![AnyWork::Gvar(create_gvar_work(1))];
    let mut timer = JobTimer::new();
    match Workload::new(works).exec(&mut ctx, &mut timer) {
        Err(errors) => assert!(matches!(errors[0], Error::WrongArtifactKind(_)), "{errors:?}"),
        Ok(n) => panic!("unexpected success of {n} tasks"),
    }
}
