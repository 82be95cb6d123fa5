use vav::{
    classify, find_anchor, ratio_bp, refine, walk, Base, CigarOp, Config, QueryBase, Read,
    Summary, Support, Tier, Variant, VariantValidate,
};

fn obs(cigar: CigarOp, r: Option<Base>, a: Option<Base>, refpos: Option<u32>, q: Option<u32>) -> QueryBase {
    QueryBase { r, a, cigar, refpos, querypos: q }
}

fn matched(refpos: u32, q: u32, b: Base) -> QueryBase {
    obs(CigarOp::M, Some(b), Some(b), Some(refpos), Some(q))
}

/// A read over `[first, first + len)` matching base `A` everywhere, with
/// query positions counting from 0.
fn plain_read(first: u32, len: u32, mapq: u8) -> Read {
    let observations = (0..len).map(|i| matched(first + i, i, Base::A)).collect::<Vec<_>>();
    Read {
        mapped: true,
        start: first,
        end: first + len - 1,
        mapq,
        aligned_query_end: len,
        observations: Some(observations),
    }
}

fn default_config() -> Config {
    Config { min_mapq: 30, min_margin: 10 }
}

/// A read with a `C>A` substitution at 29474101, ten matching bases on each
/// side.
fn snv_read(mapq: u8) -> Read {
    let mut read = plain_read(29474091, 21, mapq);
    let o = read.observations.as_mut().unwrap();
    o[10] = obs(CigarOp::X, Some(Base::C), Some(Base::A), Some(29474101), Some(10));
    read
}

#[test]
fn end_to_end_proper_alt() {
    let var = Variant::try_parse("2:29474101C>A").unwrap();
    let read = snv_read(60);
    let ev = classify(&read, &var);
    assert_eq!(ev.support, Support::Alt);
    assert_eq!(ev.front, 10);
    assert_eq!(ev.end, 11);
    let mut sum = Summary::default();
    sum.validate(&read, &var, &default_config());
    assert_eq!(
        sum,
        Summary { reference: 0, proper: 1, margin: 0, lowq: 0, excessive: 0, alleles: 0, unknown: 0 }
    );
    assert_eq!(sum.total_count(), 1);
    assert_eq!(ratio_bp(sum.proper, sum.total_count()), Some(10000));
    assert_eq!(ratio_bp(sum.proper, sum.total_count()).unwrap() as f32 / 10000.0, 1.0);
}

#[test]
fn end_to_end_low_mapping_quality() {
    let var = Variant::try_parse("2:29474101C>A").unwrap();
    let read = snv_read(10);
    let mut sum = Summary::default();
    assert_eq!(sum.validate(&read, &var, &default_config()), Support::Alt);
    assert_eq!(sum.lowq, 1);
    assert_eq!(sum.proper, 0);
    assert_eq!(sum.total_count(), 1);
}

#[test]
fn alt_near_read_start_is_margin() {
    let var = Variant::try_parse("2:29474101C>A").unwrap();
    let mut read = plain_read(29474096, 16, 60);
    let o = read.observations.as_mut().unwrap();
    o[5] = obs(CigarOp::X, Some(Base::C), Some(Base::A), Some(29474101), Some(5));
    let mut sum = Summary::default();
    sum.validate(&read, &var, &default_config());
    assert_eq!(sum.margin, 1);
    assert_eq!(sum.alt_count(), 1);
}

#[test]
fn reference_read_counts_as_reference() {
    let var = Variant::try_parse("1:105A>G").unwrap();
    let read = plain_read(90, 30, 60);
    assert_eq!(read.validate(&var), Support::Ref);
    let mut sum = Summary::default();
    sum.validate(&read, &var, &default_config());
    assert_eq!(sum.ref_count(), 1);
    assert_eq!(sum.total_count(), 1);
}

#[test]
fn multi_base_edit_run_is_not_truncated() {
    // Insertion of GC after the anchor: the reference length is reached at
    // the anchor, but the insertion run must still be absorbed.
    let var = Variant::try_parse("1:100A>AGC").unwrap();
    let mut o: Vec<QueryBase> = (0..5).map(|i| matched(95 + i, i, Base::T)).collect();
    o.push(matched(100, 5, Base::A));
    o.push(obs(CigarOp::I, None, Some(Base::G), None, Some(6)));
    o.push(obs(CigarOp::I, None, Some(Base::C), None, Some(7)));
    for i in 0..5 {
        o.push(matched(101 + i, 8 + i, Base::T));
    }
    let read = Read { mapped: true, start: 95, end: 105, mapq: 60, aligned_query_end: 13, observations: Some(o) };
    assert_eq!(classify(&read, &var).support, Support::Alt);
}

#[test]
fn two_base_mismatch_run_is_alt() {
    let var = Variant::try_parse("1:100AT>GC").unwrap();
    let mut read = plain_read(90, 20, 60);
    let o = read.observations.as_mut().unwrap();
    o[10] = obs(CigarOp::X, Some(Base::A), Some(Base::G), Some(100), Some(10));
    o[11] = obs(CigarOp::X, Some(Base::T), Some(Base::C), Some(101), Some(11));
    assert_eq!(classify(&read, &var).support, Support::Alt);
    let short = Variant::try_parse("1:100A>G").unwrap();
    assert_eq!(classify(&read, &short).support, Support::Ale);
}

#[test]
fn abbreviated_deletion_skips_anchor() {
    let var = Variant::try_parse("1:100A>-").unwrap();
    let mut o: Vec<QueryBase> = (0..6).map(|i| matched(95 + i, i, Base::G)).collect();
    o.push(obs(CigarOp::D, Some(Base::A), None, Some(101), None));
    for i in 0..8 {
        o.push(matched(102 + i, 6 + i, Base::G));
    }
    let read = Read { mapped: true, start: 95, end: 109, mapq: 60, aligned_query_end: 14, observations: Some(o) };
    assert_eq!(classify(&read, &var).support, Support::Alt);
}

#[test]
fn unmapped_and_distant_reads_count_nothing() {
    let var = Variant::try_parse("1:100A>G").unwrap();
    let cfg = default_config();
    let mut sum = Summary::default();
    let mut unmapped = plain_read(90, 20, 60);
    unmapped.mapped = false;
    sum.validate(&unmapped, &var, &cfg);
    let before = plain_read(50, 20, 60);
    sum.validate(&before, &var, &cfg);
    let after = Read { mapped: true, start: 101, end: 120, mapq: 60, aligned_query_end: 20, observations: None };
    sum.validate(&after, &var, &cfg);
    assert_eq!(sum, Summary::default());
    assert_eq!(classify(&unmapped, &var).support, Support::Nul);
    assert_eq!(classify(&after, &var).support, Support::Nul);
}

#[test]
fn missing_observations_are_unknown() {
    let var = Variant::try_parse("1:100A>G").unwrap();
    let read = Read { mapped: true, start: 90, end: 110, mapq: 60, aligned_query_end: 21, observations: None };
    let mut sum = Summary::default();
    sum.validate(&read, &var, &default_config());
    assert_eq!(sum.unknown, 1);
    let mut gap = plain_read(90, 21, 60);
    gap.observations.as_mut().unwrap()[10].a = None;
    assert_eq!(classify(&gap, &var).support, Support::Unk);
}

#[test]
fn reference_mismatch_is_other_allele() {
    let var = Variant::try_parse("1:100C>G").unwrap();
    let read = plain_read(90, 21, 60);
    assert_eq!(classify(&read, &var).support, Support::Oth);
    let mut sum = Summary::default();
    sum.validate(&read, &var, &default_config());
    assert_eq!(sum.alleles, 1);
}

#[test]
fn no_anchor_is_nul() {
    let var = Variant::try_parse("1:100A>G").unwrap();
    let mut read = plain_read(90, 21, 60);
    read.observations.as_mut().unwrap()[10].refpos = None;
    assert_eq!(classify(&read, &var).support, Support::Nul);
}

#[test]
fn find_anchor_and_walk() {
    let read = plain_read(10, 10, 60);
    let o = read.observations.as_ref().unwrap();
    assert_eq!(find_anchor(o, 13), Some(3));
    assert_eq!(find_anchor(o, 30), None);
    let w = walk(o, 3, 2, 2).unwrap();
    assert_eq!(w.stop, 5);
    assert_eq!(w.rref, vec![Base::A, Base::A]);
    assert_eq!(w.ralt, vec![Base::A, Base::A]);
}

#[test]
fn refine_tiers() {
    let cfg = default_config();
    assert_eq!(refine(29, 50, 50, &cfg), Tier::Lowq);
    assert_eq!(refine(30, 9, 50, &cfg), Tier::Margin);
    assert_eq!(refine(30, 50, 9, &cfg), Tier::Margin);
    assert_eq!(refine(30, 10, 10, &cfg), Tier::Proper);
}

#[test]
fn abbreviated_deletion_anchor_bases_do_not_matter() {
    let var = Variant::try_parse("1:100A>-").unwrap();
    let mut o: Vec<QueryBase> = (0..6).map(|i| matched(95 + i, i, Base::G)).collect();
    o.push(obs(CigarOp::D, Some(Base::A), None, Some(101), None));
    for i in 0..8 {
        o.push(matched(102 + i, 6 + i, Base::G));
    }
    let mut other = o.clone();
    other[5] = obs(CigarOp::X, Some(Base::C), Some(Base::T), Some(100), Some(5));
    let r1 = Read { mapped: true, start: 95, end: 109, mapq: 60, aligned_query_end: 14, observations: Some(o) };
    let r2 = Read { mapped: true, start: 95, end: 109, mapq: 60, aligned_query_end: 14, observations: Some(other) };
    assert_eq!(r1.validate(&var), Support::Alt);
    assert_eq!(r2.validate(&var), Support::Alt);
}
