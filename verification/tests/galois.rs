use simulboot::coefficients::{Bound, Coefficient, Confidentiality, Integrity, Interval, Linearity};
use simulboot::galois::{alpha, gamma, SessionImageV1, SurfaceCoefficient};
use simulboot::galois_parse::coefficients_from_tokens;
use simulboot::session::{HostEntry, Layout, SessionError, SessionImage, SurfaceEntry};
use simulboot::wire::{Codec, OsKind, SurfaceId};
use simulboot::xml::{XmlAttr, XmlTok};

const COEFFICIENTS_NAMESPACE: &str = "https://simulboot.dev/session/v1/coefficients";

fn sid(b: u8) -> SurfaceId {
    [b; 32]
}

fn img0() -> SessionImage {
    let surfaces = vec![
        SurfaceEntry {
            id: sid(0xaa),
            name: "macOS".into(),
            order: 0,
            host: HostEntry {
                address: "127.0.0.1:7001".into(),
                os: OsKind::MacOS,
                machine: "Aleth-MacBook".into(),
                capture: "window:Safari".into(),
            },
            codec: Codec::H265,
            width: 960,
            height: 540,
        },
        SurfaceEntry {
            id: sid(0xbb),
            name: "Windows".into(),
            order: 1,
            host: HostEntry {
                address: "100.1.1.2:7001".into(),
                os: OsKind::Windows,
                machine: "Aleth-PC".into(),
                capture: "display:0".into(),
            },
            codec: Codec::H265,
            width: 960,
            height: 540,
        },
    ];
    SessionImage::new(
        "2026-06-28T19:44:09Z".into(),
        surfaces,
        Layout { scroll_pos: "0".into(), focus: Some(sid(0xaa)) },
    )
}

/// A non-top coefficient for L2 / order tests.
fn constrained() -> Coefficient {
    Coefficient {
        timing: vec![Interval { lo: Bound::Finite("0".into()), hi: Bound::Finite("16000000".into()) }],
        confidentiality: Confidentiality::Secret,
        integrity: Integrity::Trusted,
        linearity: Linearity::Finite(1),
    }
}

#[test]
fn l1_alpha_gamma_is_identity() {
    let img0 = img0();
    let back = alpha(&gamma(&img0));
    assert_eq!(back, img0);
    assert_eq!(back.canonical_bytes(), img0.canonical_bytes());
    assert_eq!(back.compute_id(), img0.compute_id());
}

#[test]
fn identity_stable_under_abstraction() {
    let img0 = img0();
    let img1 = gamma(&img0);
    assert_eq!(img1.session_id(), img0.compute_id());
    assert_eq!(alpha(&img1).compute_id(), img1.session_id());
}

#[test]
fn l2_operational_resets_to_top() {
    let img0 = img0();
    let mut img1 = gamma(&img0);
    img1.coefficients[0].coefficient = constrained();
    assert!(!img1.coeff_is_top());
    let ga = gamma(&alpha(&img1));
    assert!(ga.base_eq(&img1));
    assert!(ga.coeff_is_top());
}

#[test]
fn l2_order_is_inflationary_to_top() {
    let img0 = img0();
    let mut img1 = gamma(&img0);
    img1.coefficients[0].coefficient = constrained();

    let ga = gamma(&alpha(&img1));
    assert!(img1.leq(&ga), "img1 should be below its top-reset round-trip");
    assert!(!ga.leq(&img1), "the round-trip strictly dominates a non-top image");

    let top1 = gamma(&img0);
    assert!(top1.leq(&gamma(&alpha(&top1))));
    assert!(gamma(&alpha(&top1)).leq(&top1));
    assert_eq!(gamma(&alpha(&top1)), top1);
}

#[test]
fn galois_connection_law() {
    let img0 = img0();
    let mut x = gamma(&img0);
    x.coefficients[1].coefficient = constrained();

    let y_same = img0.clone();
    let lhs = alpha(&x).canonical_bytes() == y_same.canonical_bytes();
    let rhs = x.leq(&gamma(&y_same));
    assert!(lhs && rhs);
    assert_eq!(lhs, rhs);

    let mut other = img0.clone();
    other.surfaces[0].name = "different".into();
    let lhs2 = alpha(&x).canonical_bytes() == other.canonical_bytes();
    let rhs2 = x.leq(&gamma(&other));
    assert!(!lhs2 && !rhs2);
    assert_eq!(lhs2, rhs2);
}

#[test]
fn l3_migration_with_identity_stub() {
    let load_v1 = |x: SessionImageV1| x;
    let checkpoint_v1 = |x: SessionImageV1| x;
    let img0 = img0();
    let migrated = alpha(&checkpoint_v1(load_v1(gamma(&img0))));
    assert_eq!(migrated, img0);
    assert_eq!(migrated.compute_id(), img0.compute_id());
}

#[test]
fn v1_xml_roundtrips() {
    let mut img1 = gamma(&img0().with_computed_id());
    img1.coefficients[0].coefficient = constrained();
    let xml = img1.to_xml();
    let parsed = SessionImageV1::from_xml(&xml).unwrap();
    assert_eq!(parsed, img1);
}

#[test]
fn gamma_inserts_top_in_xml() {
    let xml = gamma(&img0()).to_xml();
    assert!(xml.contains("lo=\"-INF\""));
    assert!(xml.contains("hi=\"+INF\""));
    assert!(xml.contains("confidentiality=\"public\""));
    assert!(xml.contains("integrity=\"untrusted\""));
    assert!(xml.contains("count=\"omega\""));
    assert!(xml.contains(COEFFICIENTS_NAMESPACE));
}

#[test]
fn v0_parser_ignores_coefficients() {
    let img0 = img0();
    let v1_xml = gamma(&img0).to_xml();
    let base_from_v1 = SessionImage::from_xml(&v1_xml).unwrap();
    assert_eq!(base_from_v1.canonical_bytes(), img0.canonical_bytes());
    assert_eq!(base_from_v1.compute_id(), img0.compute_id());
}

#[test]
fn validate_rejects_surface_count_mismatch() {
    let mut img1 = gamma(&img0());
    img1.coefficients.pop();
    assert!(img1.validate().is_err());
}

#[test]
fn validate_messages() {
    let mut img1 = gamma(&img0());
    img1.coefficients.pop();
    assert_eq!(
        img1.validate(),
        Err(SessionError::Malformed("v1 image has 2 surfaces but 1 coefficients".into()))
    );
    let mut dup = gamma(&img0());
    dup.coefficients[1].surface_ref = sid(0xaa);
    assert_eq!(
        dup.validate(),
        Err(SessionError::Malformed(format!(
            "surface sha256:{} has 2 coefficients (expected 1)",
            "aa".repeat(32)
        )))
    );
}

#[test]
fn coefficient_lookup() {
    let mut img1 = gamma(&img0());
    img1.coefficients[1].coefficient = constrained();
    assert_eq!(img1.coefficient_for(&sid(0xbb)), Some(&constrained()));
    assert_eq!(img1.coefficient_for(&sid(0xaa)), Some(&Coefficient::top()));
    assert_eq!(img1.coefficient_for(&sid(0xcc)), None);
}

fn attr(k: &str, v: &str) -> XmlAttr {
    XmlAttr::Attr { key: k.into(), value: Ok(v.into()) }
}

fn open(name: &str, attrs: Vec<XmlAttr>) -> XmlTok {
    XmlTok::Open { name: name.into(), attrs }
}

#[test]
fn coefficient_tokens() {
    let id = format!("sha256:{}", "aa".repeat(32));
    let toks = vec![
        open("coefficients", vec![]),
        open("surface-coefficient", vec![attr("surface-ref", &id)]),
        open("delay-path", vec![attr("hi", "+INF"), attr("lo", " 2.5 ")]),
        open("security", vec![attr("confidentiality", "secret"), attr("integrity", "endorsed")]),
        open("linearity", vec![attr("count", "3")]),
        XmlTok::Close { name: "surface-coefficient".into() },
        XmlTok::Close { name: "coefficients".into() },
    ];
    let cs = coefficients_from_tokens(&toks).unwrap();
    assert_eq!(
        cs,
        vec![SurfaceCoefficient {
            surface_ref: sid(0xaa),
            coefficient: Coefficient {
                timing: vec![Interval { lo: Bound::Finite("2.5".into()), hi: Bound::PosInf }],
                confidentiality: Confidentiality::Secret,
                integrity: Integrity::Endorsed,
                linearity: Linearity::Finite(3),
            },
        }]
    );
    let outside = vec![open("coefficients", vec![]), open("security", vec![])];
    assert_eq!(
        coefficients_from_tokens(&outside),
        Err(SessionError::Malformed("<security> outside <surface-coefficient>".into()))
    );
    let bad_count = vec![
        open("coefficients", vec![]),
        open("surface-coefficient", vec![attr("surface-ref", &id)]),
        open("linearity", vec![attr("count", "many")]),
    ];
    assert_eq!(
        coefficients_from_tokens(&bad_count),
        Err(SessionError::Malformed("bad linearity/@count \"many\"".into()))
    );
    let no_timing = vec![
        open("coefficients", vec![]),
        open("surface-coefficient", vec![attr("surface-ref", &id)]),
        XmlTok::Close { name: "surface-coefficient".into() },
    ];
    assert_eq!(
        coefficients_from_tokens(&no_timing),
        Err(SessionError::Malformed("surface-coefficient missing <timing/delay-path>".into()))
    );
    // Outside the block the coefficient elements are passed over.
    assert_eq!(coefficients_from_tokens(&vec![open("security", vec![])]), Ok(vec![]));
}

#[test]
fn only_all_top_images_lie_above_their_round_trip() {
    let img0 = img0();
    let top = gamma(&img0);
    assert!(gamma(&alpha(&top)).leq(&top));
    let mut x = gamma(&img0);
    x.coefficients[0].coefficient = constrained();
    assert!(!gamma(&alpha(&x)).leq(&x));
}

#[test]
fn v1_parse_reads_text_events() {
    let mut img1 = gamma(&img0().with_computed_id());
    img1.coefficients[1].coefficient = constrained();
    let xml = img1.to_xml();
    let truncated = &xml[..xml.len() - 3];
    assert!(matches!(SessionImageV1::from_xml(truncated), Err(SessionError::Xml(_))));
    assert_eq!(SessionImageV1::from_xml(&xml).unwrap(), img1);
}

#[test]
fn galois_connection_with_reordered_surfaces() {
    let img0 = img0();
    let x = gamma(&img0);
    let mut swapped = img0.clone();
    swapped.surfaces.swap(0, 1);
    let lhs = alpha(&x).canonical_bytes() == swapped.canonical_bytes();
    let rhs = x.leq(&gamma(&swapped));
    assert!(!lhs && !rhs);
}
