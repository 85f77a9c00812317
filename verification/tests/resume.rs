use simulboot::calendar::{civil_from_days, format_epoch_utc};
use simulboot::resume::{
    check_against_url, get_request, image_from_body, now_rfc3339, parse_http_url, response_body,
    url_id, FetchError, UrlError,
};
use simulboot::session::{Layout, SessionImage};

#[test]
fn epoch_formats_known_instant() {
    // 2026-06-28T19:44:09Z (the design doc's example timestamp).
    assert_eq!(format_epoch_utc(1_782_675_849), "2026-06-28T19:44:09Z");
}

#[test]
fn epoch_zero_is_unix_epoch() {
    assert_eq!(format_epoch_utc(0), "1970-01-01T00:00:00Z");
}

#[test]
fn parses_url_parts() {
    let (h, p, path) = parse_http_url("http://100.0.0.1:7000/session/sha256:abc").unwrap();
    assert_eq!(h, "100.0.0.1");
    assert_eq!(p, 7000);
    assert_eq!(path, "/session/sha256:abc");
}

#[test]
fn calendar_edges() {
    // Leap days and century rules.
    assert_eq!(format_epoch_utc(951_782_400), "2000-02-29T00:00:00Z");
    assert_eq!(format_epoch_utc(4_107_542_400), "2100-03-01T00:00:00Z");
    assert_eq!(format_epoch_utc(1_709_164_800), "2024-02-29T00:00:00Z");
    assert_eq!(format_epoch_utc(86_399), "1970-01-01T23:59:59Z");
    assert_eq!(format_epoch_utc(1_704_067_199), "2023-12-31T23:59:59Z");
    assert_eq!(civil_from_days(0), (1970, 1, 1));
    assert_eq!(civil_from_days(59), (1970, 3, 1));
    // The latest instant a u64 holds.
    assert_eq!(format_epoch_utc(u64::MAX), "584554051223-11-09T07:00:15Z");
}

#[test]
fn now_is_a_timestamp() {
    let t = now_rfc3339();
    assert_eq!(t.len(), 20);
    assert!(t.ends_with('Z'));
    assert_eq!(&t[10..11], "T");
}

#[test]
fn url_without_port_or_path() {
    assert_eq!(parse_http_url("http://broker").unwrap(), ("broker".to_string(), 80, "/".to_string()));
    assert_eq!(
        parse_http_url("http://broker/a/b").unwrap(),
        ("broker".to_string(), 80, "/a/b".to_string())
    );
}

#[test]
fn url_errors() {
    assert_eq!(parse_http_url("https://x/"), Err(UrlError::MissingScheme));
    assert_eq!(parse_http_url("http://x:port/"), Err(UrlError::InvalidPort));
    assert_eq!(parse_http_url("http://x:70000/"), Err(UrlError::InvalidPort));
    assert_eq!(UrlError::MissingScheme.message(), "resume URL must start with http://");
    assert_eq!(UrlError::InvalidPort.message(), "invalid port in URL");
}

#[test]
fn url_id_is_last_segment() {
    assert_eq!(url_id("/session/sha256:abc"), "sha256:abc");
    assert_eq!(url_id("abc"), "abc");
    assert_eq!(url_id("/session/"), "");
}

#[test]
fn get_request_text() {
    assert_eq!(
        get_request("h", "/p"),
        "GET /p HTTP/1.1\r\nHost: h\r\nConnection: close\r\nAccept: */*\r\n\r\n"
    );
}

#[test]
fn response_body_after_head() {
    assert_eq!(response_body(b"HTTP/1.1 200 OK\r\nA: b\r\n\r\nbody").unwrap(), b"body".to_vec());
    assert_eq!(response_body(b"HTTP/1.1 200 OK"), Err(FetchError::NoHeaderEnd));
    assert_eq!(
        response_body(b"HTTP/1.1 404 Not Found\r\n\r\nx"),
        Err(FetchError::Status("HTTP/1.1 404 Not Found".to_string()))
    );
}

fn image() -> SessionImage {
    SessionImage::new(
        "2026-06-28T19:44:09Z".to_string(),
        Vec::new(),
        Layout { scroll_pos: "0".to_string(), focus: None },
    )
}

#[test]
fn fetched_image_must_match_url() {
    let img = image();
    let id = img.compute_id();
    let path = format!("/session/{id}");
    assert_eq!(check_against_url(&path, img.clone()).unwrap(), img);
    let bare = format!("/session/{}", &id[7..]);
    assert!(check_against_url(&bare, img.clone()).is_ok());
    match check_against_url("/session/sha256:00", img.clone()) {
        Err(FetchError::IdMismatch { url_id, computed }) => {
            assert_eq!(url_id, "sha256:00");
            assert_eq!(computed, id);
        }
        other => panic!("unexpected {other:?}"),
    }
    let body = img.to_xml().into_bytes();
    let parsed = image_from_body(&path, body).unwrap();
    assert_eq!(parsed.compute_id(), id);
    assert_eq!(image_from_body(&path, vec![0xff, 0xfe]), Err(FetchError::NotUtf8));
}
