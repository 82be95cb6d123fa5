use vav::{ratio_bp, Summary, Support, Tier};

#[test]
fn accumulate_each_bucket() {
    let mut s = Summary::default();
    for v in [Support::Ref, Support::Rep, Support::Ree] {
        s.accumulate(v, Tier::Proper);
    }
    s.accumulate(Support::Alt, Tier::Proper);
    s.accumulate(Support::Alt, Tier::Margin);
    s.accumulate(Support::Alt, Tier::Lowq);
    s.accumulate(Support::Ale, Tier::Proper);
    s.accumulate(Support::Alp, Tier::Proper);
    s.accumulate(Support::Oth, Tier::Proper);
    s.accumulate(Support::Unk, Tier::Proper);
    s.accumulate(Support::Nul, Tier::Proper);
    assert_eq!(
        s,
        Summary { reference: 3, proper: 1, margin: 1, lowq: 1, excessive: 1, alleles: 2, unknown: 1 }
    );
    assert_eq!(s.total_count(), 10);
    assert_eq!(s.alt_count(), 4);
    assert_eq!(s.ref_count(), 3);
}

#[test]
fn frequencies_round_to_four_places() {
    assert_eq!(ratio_bp(1, 3), Some(3333));
    assert_eq!(ratio_bp(2, 3), Some(6667));
    assert_eq!(ratio_bp(1, 20000), Some(1));
    assert_eq!(ratio_bp(1, 20001), Some(0));
    assert_eq!(ratio_bp(0, 5), Some(0));
    assert_eq!(ratio_bp(0, 0), None);
}
