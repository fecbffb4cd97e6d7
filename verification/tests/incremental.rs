use fontc::access::Access;
use fontc::change::{compute_dirty, dirty_seeds, filter_dirty, Fingerprints};
use fontc::context::{Artifact, Context, GlyphIr, GlyphSource};
use fontc::fragment::create_gvar_fragment_work;
use fontc::gvar::create_gvar_work;
use fontc::ident::{AnyWorkId, BeWorkId, FeWorkId};
use fontc::timer::JobTimer;
use fontc::workload::{AnyWork, Workload};

fn fe_glyph(name: &str) -> AnyWorkId {
    AnyWorkId::Fe(FeWorkId::Glyph(name.to_string()))
}

fn works_for(names: &[&str]) -> Vec<AnyWork> {
    let mut works: Vec<AnyWork> = names
        .iter()
        .map(|n| AnyWork::Fragment(create_gvar_fragment_work(n.to_string())))
        .collect();
    works.push(AnyWork::Gvar(create_gvar_work(1)));
    works
}

fn record(config: u64, entries: &[(&str, u64)]) -> Fingerprints {
    let mut fp = Fingerprints::new(config);
    for (name, digest) in entries {
        assert!(fp.add(fe_glyph(name), *digest));
    }
    fp
}

#[test]
fn unchanged_inputs_execute_zero_tasks() {
    let prev = record(42, &[("a", 1), ("b", 2)]);
    let curr = record(42, &[("a", 1), ("b", 2)]);
    let seeds = dirty_seeds(&prev, &curr);
    assert!(seeds.is_empty(), "{seeds:?}");
    let works = works_for(&["a", "b"]);
    let dirty = compute_dirty(&works, &seeds);
    assert_eq!(vec![false, false, false], dirty);
    let incremental = filter_dirty(works, &dirty);
    assert_eq!(0, incremental.len());
    let mut ctx = Context::new();
    let mut timer = JobTimer::new();
    // the execution counter observes that no task ran
    let executed = Workload::new(incremental).exec(&mut ctx, &mut timer).unwrap();
    assert_eq!(0, executed);
}

#[test]
fn one_changed_glyph_dirties_exactly_its_dependents() {
    let prev = record(42, &[("a", 1), ("b", 2), ("c", 3)]);
    let curr = record(42, &[("a", 9), ("b", 2), ("c", 3)]);
    let seeds = dirty_seeds(&prev, &curr);
    assert_eq!(1, seeds.len());
    assert!(seeds[0].same(&fe_glyph("a")));
    // works: fragment a, fragment b, fragment c, gvar
    let works = works_for(&["a", "b", "c"]);
    let dirty = compute_dirty(&works, &seeds);
    // exactly a's fragment and the gvar assembly, which could read it
    assert_eq!(vec![true, false, false, true], dirty);
}

#[test]
fn absent_record_marks_input_dirty() {
    let prev = record(42, &[("a", 1)]);
    let curr = record(42, &[("a", 1), ("b", 2)]);
    let seeds = dirty_seeds(&prev, &curr);
    assert_eq!(1, seeds.len());
    assert!(seeds[0].same(&fe_glyph("b")));
}

#[test]
fn changed_configuration_dirties_everything() {
    let prev = record(1, &[("a", 1), ("b", 2)]);
    let curr = record(2, &[("a", 1), ("b", 2)]);
    let seeds = dirty_seeds(&prev, &curr);
    assert_eq!(2, seeds.len());
    let works = works_for(&["a", "b"]);
    let dirty = compute_dirty(&works, &seeds);
    assert_eq!(vec![true, true, true], dirty);
}

#[test]
fn fingerprints_record_each_input_once() {
    let mut fp = Fingerprints::new(0);
    assert!(fp.add(fe_glyph("a"), 1));
    assert!(!fp.add(fe_glyph("a"), 5));
    assert_eq!(Some(1), fp.lookup(&fe_glyph("a")));
    assert_eq!(None, fp.lookup(&fe_glyph("b")));
}

#[test]
fn dirty_glyph_reruns_and_refills_its_slot() {
    let prev = record(7, &[("a", 1)]);
    let curr = record(7, &[("a", 2)]);
    let seeds = dirty_seeds(&prev, &curr);
    let works = works_for(&["a"]);
    let dirty = compute_dirty(&works, &seeds);
    let incremental = filter_dirty(works, &dirty);
    assert_eq!(2, incremental.len());
    let mut ctx = Context::new();
    assert!(ctx
        .set_unconditionally(
            AnyWorkId::Fe(FeWorkId::StaticMetadata),
            Artifact::StaticMetadata(1)
        )
        .is_ok());
    assert!(ctx
        .set_unconditionally(
            AnyWorkId::Fe(FeWorkId::GlyphOrder),
            Artifact::GlyphOrder(vec!["a".to_string()])
        )
        .is_ok());
    assert!(ctx
        .set_unconditionally(
            fe_glyph("a"),
            Artifact::Glyph(GlyphIr {
                sources: vec![
                    GlyphSource { peak_bits: vec![0], points: vec![(0, 0)] },
                    GlyphSource { peak_bits: vec![16384], points: vec![(4, 4)] },
                ],
            })
        )
        .is_ok());
    let mut timer = JobTimer::new();
    let executed = Workload::new(incremental).exec(&mut ctx, &mut timer).unwrap();
    assert_eq!(2, executed);
    assert!(ctx.get(&AnyWorkId::Be(BeWorkId::Gvar), &Access::All).is_ok());
}
