use simulboot::session::{
    parse_surface_id, surface_id_to_str, HostEntry, Layout, SessionError, SessionImage, SurfaceEntry,
};
use simulboot::session_parse::image_from_tokens;
use simulboot::wire::{Codec, OsKind, SurfaceId};
use simulboot::xml::{XmlAttr, XmlTok};

const SESSION_NAMESPACE: &str = "https://simulboot.dev/session/v1";

fn sid(byte: u8) -> SurfaceId {
    [byte; 32]
}

fn sample() -> SessionImage {
    let surfaces = vec![
        SurfaceEntry {
            id: sid(0xaa),
            name: "macOS".into(),
            order: 0,
            host: HostEntry {
                address: "127.0.0.1:7001".into(),
                os: OsKind::MacOS,
                machine: "Aleth-MacBook".into(),
                capture: "window:Safari".into(),
            },
            codec: Codec::H265,
            width: 960,
            height: 540,
        },
        SurfaceEntry {
            id: sid(0xbb),
            name: "Windows".into(),
            order: 1,
            host: HostEntry {
                address: "100.0.0.2:7001".into(),
                os: OsKind::Windows,
                machine: "Aleth-PC".into(),
                capture: "display:0".into(),
            },
            codec: Codec::H265,
            width: 960,
            height: 540,
        },
    ];
    let layout = Layout { scroll_pos: "0".into(), focus: Some(sid(0xaa)) };
    SessionImage::new("2026-06-28T19:44:09Z".into(), surfaces, layout)
}

#[test]
fn roundtrip_preserves_data() {
    let written = sample().with_computed_id();
    let xml = written.to_xml();
    let parsed = SessionImage::from_xml(&xml).unwrap();
    assert_eq!(parsed, written);
}

#[test]
fn id_is_stable_across_serialisation() {
    let img = sample();
    let id1 = img.compute_id();
    let xml = img.to_xml();
    let parsed = SessionImage::from_xml(&xml).unwrap();
    assert_eq!(parsed.compute_id(), id1);
    assert_eq!(parsed.id.as_deref(), Some(id1.as_str()));
}

#[test]
fn verify_accepts_untampered_image() {
    let img = sample().with_computed_id();
    img.verify().unwrap();
}

#[test]
fn verify_rejects_tampered_image() {
    let mut img = sample().with_computed_id();
    // Mutate content without recomputing the id.
    img.surfaces[0].name = "tampered".into();
    let err = img.verify().unwrap_err();
    assert!(matches!(err, SessionError::IntegrityMismatch { .. }));
}

#[test]
fn canonical_form_omits_id_and_declaration() {
    let img = sample().with_computed_id();
    let canon = String::from_utf8(img.canonical_bytes()).unwrap();
    assert!(!canon.contains("<?xml"));
    // The <session> element itself carries no id attribute (that would be
    // circular); surfaces still do.
    let session_tag = &canon[..canon.find('>').unwrap()];
    assert!(!session_tag.contains(" id="), "session tag was: {session_tag}");
    assert!(session_tag.contains("schema-version="));
    assert!(canon.contains(SESSION_NAMESPACE));
}

#[test]
fn focusless_layout_roundtrips() {
    let mut img = sample();
    img.layout.focus = None;
    let img = img.with_computed_id();
    let parsed = SessionImage::from_xml(&img.to_xml()).unwrap();
    assert_eq!(parsed.layout.focus, None);
    assert_eq!(parsed, img);
}

#[test]
fn surface_id_string_roundtrips() {
    let id = sid(0x3c);
    let s = surface_id_to_str(&id);
    assert_eq!(parse_surface_id(&s).unwrap(), id);
}

#[test]
fn verify_without_id_is_malformed() {
    let err = sample().verify().unwrap_err();
    assert_eq!(err, SessionError::Malformed("no id to verify against".into()));
}

#[test]
fn surface_id_errors() {
    assert_eq!(
        parse_surface_id("abc"),
        Err(SessionError::BadSurfaceId {
            value: "abc".into(),
            reason: "missing 'sha256:' prefix".into()
        })
    );
    assert_eq!(
        parse_surface_id("sha256:abcd"),
        Err(SessionError::BadSurfaceId {
            value: "sha256:abcd".into(),
            reason: "expected 32 bytes, got 2".into()
        })
    );
    assert_eq!(
        parse_surface_id("sha256:zz"),
        Err(SessionError::BadSurfaceId {
            value: "sha256:zz".into(),
            reason: "Invalid character 'z' at position 0".into()
        })
    );
    assert_eq!(
        parse_surface_id("sha256:abc"),
        Err(SessionError::BadSurfaceId { value: "sha256:abc".into(), reason: "Odd number of digits".into() })
    );
}

#[test]
fn pretty_xml_shape() {
    let xml = sample().with_computed_id().to_xml();
    assert!(xml.starts_with("<?xml version=\"1.0\" encoding=\"UTF-8\"?>\n<session xmlns=\""));
    assert!(xml.contains("\n  <surfaces>\n    <surface id=\"sha256:"));
    assert!(xml.contains("      <host>\n        <address>127.0.0.1:7001</address>\n"));
    assert!(xml.contains("      <dimensions height=\"540\" width=\"960\"/>\n"));
    assert!(xml.contains("    <strip scroll-pos=\"0\"/>\n"));
    assert!(xml.ends_with("</session>"));
}

#[test]
fn parse_sorts_surfaces_by_order() {
    let mut img = sample();
    img.surfaces[0].order = 5;
    let parsed = SessionImage::from_xml(&img.to_xml()).unwrap();
    assert_eq!(parsed.surfaces[0].name, "Windows");
    assert_eq!(parsed.surfaces[1].name, "macOS");
}

#[test]
fn parse_errors() {
    let missing = "<session xmlns=\"x\" schema-version=\"1\"></session>";
    assert_eq!(
        SessionImage::from_xml(missing),
        Err(SessionError::Malformed("missing session/@created".into()))
    );
    let bad_os = sample().to_xml().replace("<os>macOS</os>", "<os>BeOS</os>");
    assert_eq!(
        SessionImage::from_xml(&bad_os),
        Err(SessionError::UnknownEnum { kind: "os".into(), value: "BeOS".into() })
    );
    let no_codec = sample().to_xml().replace("<codec>H265</codec>", "");
    assert_eq!(
        SessionImage::from_xml(&no_codec),
        Err(SessionError::Malformed("surface missing <codec>".into()))
    );
    let bad_scroll = sample().to_xml().replace("scroll-pos=\"0\"", "scroll-pos=\"fast\"");
    assert_eq!(
        SessionImage::from_xml(&bad_scroll),
        Err(SessionError::Malformed("attribute @scroll-pos is not an f32: \"fast\"".into()))
    );
    let bad_order = sample().to_xml().replace("order=\"1\"", "order=\"-1\"");
    assert_eq!(
        SessionImage::from_xml(&bad_order),
        Err(SessionError::Malformed("attribute @order is not a u32: \"-1\"".into()))
    );
    assert!(matches!(SessionImage::from_xml("<session><a></b></session>"), Err(SessionError::Xml(_))));
}

fn attr(k: &str, v: &str) -> XmlAttr {
    XmlAttr::Attr { key: k.into(), value: Ok(v.into()) }
}

#[test]
fn tokens_read_as_an_image() {
    let toks = vec![
        XmlTok::Open {
            name: "session".into(),
            attrs: vec![attr("created", "now"), attr("schema-version", "3")],
        },
        XmlTok::Open { name: "strip".into(), attrs: vec![attr("scroll-pos", "12.5")] },
        XmlTok::Close { name: "session".into() },
    ];
    let img = image_from_tokens(&toks).unwrap();
    assert_eq!(img.created, "now");
    assert_eq!(img.schema_version, 3);
    assert_eq!(img.layout.scroll_pos, "12.5");
    assert_eq!(img.id, None);
    assert!(img.surfaces.is_empty());
    let no_surface = vec![XmlTok::Open { name: "dimensions".into(), attrs: vec![] }];
    assert_eq!(
        image_from_tokens(&no_surface),
        Err(SessionError::Malformed("<dimensions> outside <surface>".into()))
    );
}

#[test]
fn to_xml_writes_the_computed_id() {
    let mut img = sample();
    img.id = Some("sha256:bogus".into());
    let xml = img.to_xml();
    let id = img.compute_id();
    assert!(xml.contains(&format!("id=\"{id}\"")));
    assert!(!xml.contains("sha256:bogus"));
    let parsed = SessionImage::from_xml(&xml).unwrap();
    assert_eq!(parsed.id.as_deref(), Some(id.as_str()));
}

#[test]
fn parses_two_surfaces_in_order() {
    let s = |o: u32, h: &str| {
        format!(
            r#"<surface id="sha256:{}" name="n" order="{o}"><host><address>a</address><os>Linux</os><machine>m</machine><capture>c</capture></host><codec>AV1</codec><dimensions height="1" width="2"/></surface>"#,
            h.repeat(32)
        )
    };
    let xml = format!(r#"<session created="t"><surfaces>{}{}</surfaces></session>"#, s(1, "bb"), s(0, "aa"));
    let i = SessionImage::from_xml(&xml).unwrap();
    assert_eq!(i.surfaces.len(), 2);
    assert_eq!(i.surfaces[0].id, [0xaa; 32]);
    assert_eq!(i.surfaces[0].order, 0);
    assert_eq!(i.surfaces[1].id, [0xbb; 32]);
    assert_eq!(i.surfaces[1].order, 1);
    assert_eq!(i.surfaces[1].width, 2);
    assert_eq!(i.created, "t");
    assert!(i.id.is_none());
    assert_eq!(i.schema_version, 1);
}

#[test]
fn minimal_and_missing_created() {
    assert!(matches!(SessionImage::from_xml("<session/>"), Err(SessionError::Malformed(_))));
    let m = SessionImage::from_xml(r#"<session created="t"/>"#).unwrap();
    assert_eq!(m.created, "t");
    assert!(m.surfaces.is_empty());
    assert!(m.id.is_none());
    assert_eq!(m.layout.focus, None);
}

#[test]
fn surface_id_texts_accepted() {
    let upper = format!("sha256:{}", "AB".repeat(32));
    assert_eq!(parse_surface_id(&upper).unwrap(), [0xab; 32]);
    assert!(parse_surface_id(&format!("sha256:{}", "a".repeat(63))).is_err());
    assert!(parse_surface_id(&format!("sha256:{}", "a".repeat(66))).is_err());
    assert!(parse_surface_id(&format!("sha256:{}g", "a".repeat(63))).is_err());
    assert!(parse_surface_id(&"ab".repeat(32)).is_err());
    assert!(parse_surface_id(&format!("sha256:{}é", "a".repeat(62))).is_err());
    assert!(parse_surface_id(&format!("sha256:{}", "é".repeat(32))).is_err());
}
