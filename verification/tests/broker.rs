use simulboot::broker::{
    find_header_end, head_read_done, parse_request, request_line_parts, response_for, route, Route,
    ServedImage,
};

fn img() -> ServedImage {
    ServedImage::new_xml("sha256:deadbeef".to_string(), b"<session/>".to_vec())
}

#[test]
fn routes_full_id() {
    assert_eq!(route("GET", "/session/sha256:deadbeef", &img()), Route::Serve);
}

#[test]
fn routes_bare_hex() {
    assert_eq!(route("GET", "/session/deadbeef", &img()), Route::Serve);
}

#[test]
fn unknown_id_is_404() {
    assert_eq!(route("GET", "/session/cafe", &img()), Route::NotFound);
}

#[test]
fn post_is_405() {
    assert_eq!(route("POST", "/session/deadbeef", &img()), Route::MethodNotAllowed);
}

#[test]
fn header_end_detection() {
    assert_eq!(find_header_end(b"GET / HTTP/1.1\r\n\r\n"), Some(14));
    assert_eq!(find_header_end(b"partial\r\n"), None);
}

#[test]
fn trailing_slashes_are_ignored() {
    assert_eq!(route("GET", "/session/deadbeef//", &img()), Route::Serve);
    assert_eq!(route("GET", "/session/", &img()), Route::NotFound);
    assert_eq!(route("GET", "/other/deadbeef", &img()), Route::NotFound);
}

#[test]
fn bare_hex_strips_only_the_prefix() {
    assert_eq!(img().bare_hex(), "deadbeef");
    let plain = ServedImage::new_xml("cafe".to_string(), Vec::new());
    assert_eq!(plain.bare_hex(), "cafe");
    assert!(plain.matches("cafe"));
    assert!(!plain.matches("sha256:cafe"));
}

#[test]
fn new_xml_defaults_content_type() {
    assert_eq!(img().content_type, "application/xml; charset=utf-8");
    assert_eq!(img().body, b"<session/>".to_vec());
}

#[test]
fn request_line_gives_method_and_path() {
    let (m, p) = request_line_parts("GET /session/abc HTTP/1.1\r\nHost: x\r\n\r\n");
    assert_eq!(m, "GET");
    assert_eq!(p, "/session/abc");
    let (m, p) = request_line_parts("");
    assert_eq!(m, "");
    assert_eq!(p, "");
    let (m, p) = request_line_parts("  PUT\t/x  ");
    assert_eq!(m, "PUT");
    assert_eq!(p, "/x");
    let (m, p) = parse_request(b"DELETE /a HTTP/1.0\r\n\r\n");
    assert_eq!((m.as_str(), p.as_str()), ("DELETE", "/a"));
}

#[test]
fn head_reading_stops_at_blank_line_or_limit() {
    assert!(head_read_done(b"GET / HTTP/1.1\r\n\r\n"));
    assert!(!head_read_done(b"GET / HTTP/1.1\r\n"));
    assert!(head_read_done(&vec![b'a'; 65537]));
    assert!(!head_read_done(&vec![b'a'; 65536]));
}

#[test]
fn responses_carry_status_length_and_body() {
    let (head, body) = response_for(Route::Serve, &img());
    assert_eq!(
        head,
        "HTTP/1.1 200 OK\r\nContent-Type: application/xml; charset=utf-8\r\nContent-Length: 10\r\nConnection: close\r\n\r\n"
    );
    assert_eq!(body, b"<session/>".to_vec());
    let (head, body) = response_for(Route::NotFound, &img());
    assert_eq!(
        head,
        "HTTP/1.1 404 Not Found\r\nContent-Type: text/plain\r\nContent-Length: 18\r\nConnection: close\r\n\r\n"
    );
    assert_eq!(body, b"session not found\n".to_vec());
    let (head, body) = response_for(Route::MethodNotAllowed, &img());
    assert_eq!(
        head,
        "HTTP/1.1 405 Method Not Allowed\r\nAllow: GET\r\nContent-Type: text/plain\r\nContent-Length: 19\r\nConnection: close\r\n\r\n"
    );
    assert_eq!(body, b"method not allowed\n".to_vec());
}
