use vav::{compare, Base, ErrorKind, Ordering, Support};

#[test]
fn base_try_parse() {
    assert_eq!(
        Base::try_parse("ATC").unwrap(),
        vec![Base::A, Base::T, Base::C]
    )
}

#[test]
fn base_try_parse_lower_case_and_dash() {
    assert_eq!(
        Base::try_parse("gcn").unwrap(),
        vec![Base::G, Base::C, Base::N]
    );
    assert_eq!(Base::try_parse("-").unwrap(), vec![]);
}

#[test]
fn base_try_parse_rejects_other_letters() {
    let e = Base::try_parse("AXT").unwrap_err();
    assert_eq!(e.kind, ErrorKind::Parse);
    assert!(Base::try_parse("A-").is_err());
}

#[test]
fn base_from_byte() {
    assert_eq!(Base::from_byte(b'a').unwrap(), Base::A);
    assert_eq!(Base::from_byte(b'T').unwrap(), Base::T);
    assert_eq!(Base::from_byte(b'n').unwrap(), Base::N);
    assert_eq!(Base::from_byte(b'x').unwrap_err().kind, ErrorKind::Parse);
}

#[test]
fn base_stringify() {
    assert_eq!(Base::G.stringify(), "G");
    assert_eq!(Base::N.stringify(), "N");
}

#[test]
fn ordering_examples() {
    let (a, t) = (Base::A, Base::T);
    assert_eq!(compare(&[a, t], &[]), Ordering::Emp);
    assert_eq!(compare(&[a, t], &[a]), Ordering::Sup);
    assert_eq!(compare(&[a], &[a, t]), Ordering::Sub);
    assert_eq!(compare(&[a, t], &[a, t]), Ordering::Equ);
    assert_eq!(compare(&[a], &[t]), Ordering::Nul);
}

#[test]
fn ordering_two_empty_sequences_are_equal() {
    assert_eq!(compare(&[], &[]), Ordering::Equ);
    assert_eq!(compare(&[], &[Base::C]), Ordering::Emp);
}

#[test]
fn support_predicates() {
    assert!(Support::Ref.is_ref() && Support::Ref.any_ref() && !Support::Ref.may_ref());
    assert!(Support::Rep.may_ref() && Support::Ree.any_ref());
    assert!(Support::Alt.is_alt() && Support::Alt.any_alt() && !Support::Alt.may_alt());
    assert!(Support::Alp.may_alt() && Support::Ale.any_alt());
    assert!(Support::Oth.is_oth() && !Support::Oth.any_alt());
    assert!(Support::Nul.is_nul() && !Support::Unk.is_nul());
}
