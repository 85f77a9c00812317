use simulboot::coefficients::{Bound, Coefficient, Confidentiality, Integrity, Interval, Linearity};

#[test]
fn top_is_the_maximum() {
    let top = Coefficient::top();
    assert!(top.is_top());
    let constrained = Coefficient {
        timing: vec![Interval { lo: Bound::Finite("0".into()), hi: Bound::Finite("16000000".into()) }],
        confidentiality: Confidentiality::Secret,
        integrity: Integrity::Trusted,
        linearity: Linearity::Finite(1),
    };
    assert!(constrained.leq(&top));
    assert!(!top.leq(&constrained));
    assert!(!constrained.is_top());
}

#[test]
fn interval_containment() {
    let wide = Interval { lo: Bound::Finite("-10".into()), hi: Bound::Finite("10".into()) };
    let narrow = Interval { lo: Bound::Finite("-1".into()), hi: Bound::Finite("1".into()) };
    assert!(narrow.contained_in(&wide));
    assert!(!wide.contained_in(&narrow));
    assert!(wide.contained_in(&Interval::unbounded()));
}

#[test]
fn bound_roundtrips() {
    for b in [Bound::NegInf, Bound::PosInf, Bound::Finite("1.5".into()), Bound::Finite("0".into())] {
        assert_eq!(Bound::parse(&b.to_str()), Some(b));
    }
}

#[test]
fn label_roundtrips() {
    for c in [Confidentiality::Secret, Confidentiality::Restricted, Confidentiality::Public] {
        assert_eq!(Confidentiality::parse(c.to_str()), Some(c));
    }
    for i in [Integrity::Trusted, Integrity::Endorsed, Integrity::Untrusted] {
        assert_eq!(Integrity::parse(i.to_str()), Some(i));
    }
    for l in [Linearity::Omega, Linearity::Finite(0), Linearity::Finite(7)] {
        assert_eq!(Linearity::parse(&l.to_str()), Some(l));
    }
}

#[test]
fn differing_timing_arity_is_incomparable() {
    let one = Coefficient::top();
    let two = Coefficient {
        timing: vec![Interval::unbounded(), Interval::unbounded()],
        ..Coefficient::top()
    };
    assert!(!one.leq(&two));
    assert!(!two.leq(&one));
}

#[test]
fn bound_parse_forms() {
    assert_eq!(Bound::parse(" -INF "), Some(Bound::NegInf));
    assert_eq!(Bound::parse("INF"), Some(Bound::PosInf));
    assert_eq!(Bound::parse("1e3"), Some(Bound::Finite("1e3".into())));
    assert_eq!(Bound::parse("NaN"), None);
    assert_eq!(Bound::parse("ten"), None);
    assert_eq!(Bound::parse(""), None);
}

#[test]
fn bounds_compare_by_value() {
    assert!(Bound::Finite("1000".into()).le(&Bound::Finite("1000.5".into())));
    assert!(!Bound::Finite("2".into()).le(&Bound::Finite("-3".into())));
    assert!(Bound::Finite("-0.5".into()).le(&Bound::Finite("0".into())));
    assert!(Bound::NegInf.le(&Bound::Finite("-123456789".into())));
    assert!(Bound::Finite("123456789".into()).le(&Bound::PosInf));
    assert!(!Bound::PosInf.le(&Bound::Finite("1".into())));
}

#[test]
fn ranks_and_linearity_order() {
    assert_eq!(Confidentiality::Secret.rank(), 0);
    assert_eq!(Confidentiality::Public.rank(), 2);
    assert_eq!(Integrity::Endorsed.rank(), 1);
    assert!(Linearity::Finite(3).le(Linearity::Finite(4)));
    assert!(!Linearity::Finite(5).le(Linearity::Finite(4)));
    assert!(Linearity::Finite(5).le(Linearity::Omega));
    assert!(!Linearity::Omega.le(Linearity::Finite(5)));
    assert_eq!(Linearity::parse("+12"), Some(Linearity::Finite(12)));
    assert_eq!(Linearity::parse("Omega"), None);
}

#[test]
fn exponent_bounds_compare_by_value() {
    let b = |s: &str| Bound::parse(s).unwrap();
    let inner = Interval { lo: b("0"), hi: b("1e3") };
    let outer = Interval { lo: b("0"), hi: b("2000") };
    assert!(inner.contained_in(&outer));
    assert!(!outer.contained_in(&inner));
    assert!(b("1e3").le(&b("1000.0")) && b("1000").le(&b("1E3")));
    assert!(b("-2.5e-1").le(&b("-0.25")) && b("-0.25").le(&b("-.25e0")));
    assert!(b("+1.5").le(&b("15e-1")));
    assert!(!b("1e-9").le(&b("0")));
    assert!(b("-0").le(&b("0")) && b("0").le(&b("-0")));
    assert!(b("1e99999999999999999999999999999999999").le(&b("inf")));
    assert!(b("-Infinity").le(&b("-1e300")));
    assert!(b("inf").le(&Bound::PosInf) && !Bound::PosInf.le(&b("inf")));
}
