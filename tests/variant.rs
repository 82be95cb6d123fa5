use vav::{err, opterr, Base, ErrorKind, Ordering, Variant};

#[test]
fn test_try_parse() {
    let v = Variant::try_parse("chr1:12345AT>GC").unwrap();
    assert_eq!(v.chrom(), &String::from("chr1"));
    assert_eq!(v.pos(), 12345);
    assert_eq!(v.refs(), &vec![Base::A, Base::T]);
    assert_eq!(v.alts(), &vec![Base::G, Base::C]);
}

#[test]
fn variant_parse_abbreviated_forms() {
    let d = Variant::try_parse("1:100A>-").unwrap();
    assert!(d.is_abbr_deletion());
    assert_eq!(d.alts(), &vec![]);
    assert_eq!(d.end(), 100);
    let i = Variant::try_parse("X:200->tg").unwrap();
    assert!(!i.is_abbr_deletion());
    assert_eq!(i.refs(), &vec![]);
    assert_eq!(i.alts(), &vec![Base::T, Base::G]);
    assert_eq!(i.end(), 201);
}

#[test]
fn variant_end_spans_reference() {
    let v = Variant::try_parse("chr2:10ACG>T").unwrap();
    assert_eq!(v.end(), 12);
}

#[test]
fn variant_parse_errors() {
    for s in [
        "",
        "chr1",
        ":100A>C",
        "chr1:A>C",
        "chr1:100>C",
        "chr1:100A>",
        "chr1:100AC",
        "chr1:100AX>C",
        "chr1:100A>C>G",
        "chr 1:100A>C",
        "chr1:0A>C",
        "chr1:4294967296A>C",
        "chr1:4294967295AT>C",
        "chr1:4294967295->C",
        "chr1:100A>C ",
    ] {
        let e = Variant::try_parse(s).unwrap_err();
        assert_eq!(e.kind, ErrorKind::Parse, "{}", s);
    }
}

#[test]
fn variant_parse_largest_position() {
    let v = Variant::try_parse("chr1:4294967295A>C").unwrap();
    assert_eq!(v.pos(), 4294967295);
    assert_eq!(v.end(), 4294967295);
}

#[test]
fn variant_to_string_is_canonical() {
    let v = Variant::try_parse("chrUn_gl000220.1:00120at>-").unwrap();
    assert_eq!(v.to_string(), "chrUn_gl000220.1:120AT>-");
    assert_eq!(v.ref_str(), "AT");
    assert_eq!(v.alt_str(), "-");
}

#[test]
fn variant_round_trip() {
    for s in ["chr1:12345AT>GC", "1:100a>-", "MT:7->ggc", "chrX:0042N>c"] {
        let v = Variant::try_parse(s).unwrap();
        let w = Variant::try_parse(&v.to_string()).unwrap();
        assert_eq!(w.chrom(), v.chrom());
        assert_eq!(w.pos(), v.pos());
        assert_eq!(w.refs(), v.refs());
        assert_eq!(w.alts(), v.alts());
        assert_eq!(w.to_string(), v.to_string());
    }
}

#[test]
fn variant_compare_alleles() {
    let v = Variant::try_parse("1:100AT>G").unwrap();
    assert_eq!(v.ref_cmp(&[Base::A, Base::T]), Ordering::Equ);
    assert_eq!(v.ref_cmp(&[Base::A]), Ordering::Sup);
    assert_eq!(v.alt_cmp(&[Base::G, Base::A]), Ordering::Sub);
    assert_eq!(v.alt_cmp(&[]), Ordering::Emp);
    assert_eq!(v.alt_cmp(&[Base::C]), Ordering::Nul);
}

#[test]
fn error_constructors() {
    let e = err("bad input");
    assert_eq!(e.kind, ErrorKind::Parse);
    assert_eq!(e.message, "bad input");
    let o = opterr();
    assert_eq!(o.kind, ErrorKind::Lookup);
    assert_eq!(o.message, "Option error.");
}

#[test]
fn variant_parse_unicode_chromosome_name() {
    let v = Variant::try_parse("é:1A>C").unwrap();
    assert_eq!(v.chrom(), "é");
    assert_eq!(v.pos(), 1);
    let w = Variant::try_parse("chrß_2.x-1:10G>-").unwrap();
    assert_eq!(w.chrom(), "chrß_2.x-1");
    assert!(Variant::try_parse("chr€:10G>A").is_err());
}

#[test]
fn variant_equality() {
    let a = Variant::try_parse("chr1:12345at>gc").unwrap();
    let b = Variant::try_parse("chr1:012345AT>GC").unwrap();
    let c = Variant::try_parse("chr1:12345AT>G").unwrap();
    assert!(a == b);
    assert!(a != c);
    assert_eq!(Variant::try_parse(&a.to_string()).unwrap(), a);
}
