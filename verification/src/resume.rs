//! The compositor's side of suspending and resuming: the resume URL, the
//! HTTP exchange with the broker, the integrity check of a fetched image, and
//! the suspension timestamp.
use vstd::prelude::*;
use crate::broker::{bare_hex_spec, blank_line_at, find_header_end};
use crate::calendar::{format_epoch_utc, is_utc_text};
use crate::session::{content_id, rv, ErrorModel, ImageModel, SessionError, SessionImage};
use crate::text::{chars_contain, chars_of, chars_range, chars_start_with, contains_text, find_first,
    find_last, first_pos, has_prefix, last_pos, parse_unsigned, parse_unsigned_chars, push_str, str_eq,
    string_from_chars};

verus! {

// ---------------------------------------------------------------------------
// The resume URL

/// Why a resume URL was refused.
#[derive(Debug, Clone, Copy, PartialEq, Eq, Structural)]
pub enum UrlError {
    /// It does not start with `http://`.
    MissingScheme,
    /// The text after the last `:` of the authority is not a port number.
    InvalidPort,
}

impl UrlError {
    /// The error message.
    pub fn message(&self) -> (out: String)
        ensures
            out@ == match *self {
                UrlError::MissingScheme => "resume URL must start with http://"@,
                UrlError::InvalidPort => "invalid port in URL"@,
            },
    {
        match self {
            UrlError::MissingScheme => String::from_str("resume URL must start with http://"),
            UrlError::InvalidPort => String::from_str("invalid port in URL"),
        }
    }
}

/// The authority and the path of what follows `http://`: the path starts at
/// the first `/` (and is `/` when there is none).
pub open spec fn split_authority(rest: Seq<char>) -> (Seq<char>, Seq<char>) {
    match first_pos(rest, '/') {
        Some(i) => (rest.take(i), rest.skip(i)),
        None => (rest, seq!['/']),
    }
}

/// The parts of an `http://host[:port]/path` URL: host, port (80 when not
/// given) and path.
pub open spec fn url_parts(url: Seq<char>) -> Result<(Seq<char>, u16, Seq<char>), UrlError> {
    if !has_prefix(url, "http://"@) {
        Err(UrlError::MissingScheme)
    } else {
        let (authority, path) = split_authority(url.skip(7));
        match last_pos(authority, ':') {
            Some(j) => match parse_unsigned(authority.skip(j + 1), 65535) {
                Some(p) => Ok((authority.take(j), p as u16, path)),
                None => Err(UrlError::InvalidPort),
            },
            None => Ok((authority, 80u16, path)),
        }
    }
}

/// Split an `http://host[:port]/path` URL into its parts. Only plain HTTP is
/// supported.
pub fn parse_http_url(url: &str) -> (r: Result<(String, u16, String), UrlError>)
    ensures
        match r {
            Ok((h, p, path)) => url_parts(url@) == Ok::<(Seq<char>, u16, Seq<char>), UrlError>(
                (h@, p, path@),
            ),
            Err(e) => url_parts(url@) == Err::<(Seq<char>, u16, Seq<char>), UrlError>(e),
        },
{
    proof {
        reveal_strlit("http://");
    }
    let cs = chars_of(url);
    let scheme = chars_of("http://");
    if !chars_start_with(cs.as_slice(), scheme.as_slice()) {
        return Err(UrlError::MissingScheme);
    }
    let rest = chars_range(cs.as_slice(), 7, cs.len());
    proof {
        assert(rest@ =~= url@.skip(7));
    }
    let (authority, path) = match find_first(rest.as_slice(), '/') {
        Some(i) => {
            let a = chars_range(rest.as_slice(), 0, i);
            let p = chars_range(rest.as_slice(), i, rest.len());
            proof {
                assert(a@ =~= rest@.take(i as int));
                assert(p@ =~= rest@.skip(i as int));
            }
            (a, p)
        },
        None => {
            let mut p: Vec<char> = Vec::new();
            p.push('/');
            proof {
                assert(p@ =~= seq!['/']);
            }
            (rest, p)
        },
    };
    let path_text = string_from_chars(path.as_slice());
    match find_last(authority.as_slice(), ':') {
        Some(j) => {
            let port_text = chars_range(authority.as_slice(), j + 1, authority.len());
            proof {
                assert(port_text@ =~= authority@.skip(j + 1));
            }
            match parse_unsigned_chars(port_text.as_slice(), 65535) {
                Some(p) => {
                    let host = chars_range(authority.as_slice(), 0, j);
                    proof {
                        assert(host@ =~= authority@.take(j as int));
                    }
                    Ok((string_from_chars(host.as_slice()), p as u16, path_text))
                },
                None => Err(UrlError::InvalidPort),
            }
        },
        None => Ok((string_from_chars(authority.as_slice()), 80, path_text)),
    }
}

/// The id named by a resume path: its last `/`-separated segment.
pub open spec fn url_id_spec(path: Seq<char>) -> Seq<char> {
    match last_pos(path, '/') {
        Some(i) => path.skip(i + 1),
        None => path,
    }
}

/// The id named by a resume path.
pub fn url_id(path: &str) -> (out: String)
    ensures
        out@ == url_id_spec(path@),
{
    let cs = chars_of(path);
    let n = cs.len();
    match find_last(cs.as_slice(), '/') {
        Some(i) => {
            proof {
                assert(i < n);
            }
            let rest = chars_range(cs.as_slice(), i + 1, n);
            proof {
                assert(rest@ =~= path@.skip(i + 1));
            }
            string_from_chars(rest.as_slice())
        },
        None => string_from_chars(cs.as_slice()),
    }
}

/// Whether the id in a URL names a computed content id: in full, or as its
/// bare hex.
pub open spec fn url_names_spec(url_id: Seq<char>, computed: Seq<char>) -> bool {
    url_id == computed || url_id == bare_hex_spec(computed)
}

// ---------------------------------------------------------------------------
// The exchange with the broker

/// The GET request for `path` on `host`.
pub open spec fn get_request_spec(host: Seq<char>, path: Seq<char>) -> Seq<char> {
    "GET "@ + path + " HTTP/1.1\r\nHost: "@ + host + "\r\nConnection: close\r\nAccept: */*\r\n\r\n"@
}

/// The GET request for `path` on `host`.
pub fn get_request(host: &str, path: &str) -> (out: String)
    ensures
        out@ == get_request_spec(host@, path@),
{
    let mut out = String::from_str("GET ");
    push_str(&mut out, path);
    push_str(&mut out, " HTTP/1.1\r\nHost: ");
    push_str(&mut out, host);
    push_str(&mut out, "\r\nConnection: close\r\nAccept: */*\r\n\r\n");
    out
}

/// Why fetching a session image failed.
#[derive(Debug, Clone, PartialEq, Eq)]
pub enum FetchError {
    /// The response has no blank line ending its head.
    NoHeaderEnd,
    /// The status line is not a success; the text is the status line.
    Status(String),
    /// The body is not UTF-8.
    NotUtf8,
    /// The body is not a session image.
    Image(SessionError),
    /// The image's content id is not the one the URL names.
    IdMismatch { url_id: String, computed: String },
}

/// The first line of a text as `str::lines` gives it: up to the first line
/// feed, without a carriage return just before it.
pub open spec fn status_line(head: Seq<char>) -> Seq<char> {
    match first_pos(head, '\n') {
        Some(i) => if i > 0 && head[i - 1] == '\r' {
            head.take(i - 1)
        } else {
            head.take(i)
        },
        None => head,
    }
}

/// The first line of a text.
fn first_line_of(head: &str) -> (out: String)
    ensures
        out@ == status_line(head@),
{
    let cs = chars_of(head);
    match find_first(cs.as_slice(), '\n') {
        Some(i) => {
            let end = if i > 0 && cs[i - 1] == '\r' { i - 1 } else { i };
            let line = chars_range(cs.as_slice(), 0, end);
            proof {
                assert(line@ =~= head@.take(end as int));
            }
            string_from_chars(line.as_slice())
        },
        None => string_from_chars(cs.as_slice()),
    }
}

/// The body of a broker response: what follows the first blank line, when
/// the status line carries ` 200`. The status line is read from the head as
/// UTF-8, invalid sequences replaced (see [`crate::xml::utf8_lossy_text`]).
pub fn response_body(raw: &[u8]) -> (r: Result<Vec<u8>, FetchError>)
    ensures
        (forall|j: int| !blank_line_at(raw@, j)) <==> r == Err::<Vec<u8>, FetchError>(
            FetchError::NoHeaderEnd,
        ),
        forall|i: int|
            blank_line_at(raw@, i) && (forall|j: int| 0 <= j < i ==> !blank_line_at(raw@, j)) ==> {
                &&& r matches Ok(body) ==> body@ == raw@.skip(i + 4)
                &&& {
                    let status = status_line(crate::xml::utf8_lossy_text(raw@.take(i)));
                    if contains_text(status, " 200"@) {
                        r is Ok
                    } else {
                        (r matches Err(FetchError::Status(s)) && s@ == status)
                    }
                }
            },
{
    let found = find_header_end(raw);
    let split = match found {
        Some(i) => i,
        None => {
            return Err(FetchError::NoHeaderEnd);
        },
    };
    proof {
        assert(blank_line_at(raw@, split as int));
        assert(raw@.len() == raw.len());
    }
    let head_bytes = vstd::slice::slice_subrange(raw, 0, split);
    let head = crate::xml::utf8_lossy(head_bytes);
    let status = first_line_of(head.as_str());
    let sc = chars_of(status.as_str());
    let marker = chars_of(" 200");
    if !chars_contain(sc.as_slice(), marker.as_slice()) {
        return Err(FetchError::Status(status));
    }
    let body = vstd::slice::slice_to_vec(vstd::slice::slice_subrange(raw, split + 4, raw.len()));
    proof {
        assert(body@ =~= raw@.skip(split + 4));
        assert(head_bytes@ =~= raw@.take(split as int));
    }
    Ok(body)
}

/// `String::from_utf8`: the text of valid UTF-8 bytes, and nothing for
/// invalid ones.
#[verifier::external_body]
fn utf8_text(bytes: Vec<u8>) -> (r: Option<String>)
    ensures
        r is Some <==> vstd::utf8::valid_utf8(bytes@),
        r matches Some(s) ==> s@ == vstd::utf8::decode_utf8(bytes@),
{
    String::from_utf8(bytes).ok()
}

/// Accepts a fetched image only if its content id is the one that the
/// resume path names (in full or as bare hex), so a resuming compositor
/// cannot be handed a substituted image.
pub fn check_against_url(path: &str, image: SessionImage) -> (r: Result<SessionImage, FetchError>)
    ensures
        url_names_spec(url_id_spec(path@), content_id(image@)) ==> (r matches Ok(img) && img@
            == image@),
        !url_names_spec(url_id_spec(path@), content_id(image@)) ==> (r matches Err(
            FetchError::IdMismatch { url_id, computed },
        ) && url_id@ == url_id_spec(path@) && computed@ == content_id(image@)),
{
    let id = url_id(path);
    let computed = image.compute_id();
    proof {
        reveal_strlit("sha256:");
    }
    let cs = chars_of(computed.as_str());
    let p = chars_of("sha256:");
    let bare = if chars_start_with(cs.as_slice(), p.as_slice()) {
        let rest = chars_range(cs.as_slice(), 7, cs.len());
        proof {
            assert(rest@ =~= computed@.skip(7));
        }
        string_from_chars(rest.as_slice())
    } else {
        computed.clone()
    };
    if str_eq(id.as_str(), computed.as_str()) || str_eq(id.as_str(), bare.as_str()) {
        Ok(image)
    } else {
        Err(FetchError::IdMismatch { url_id: id, computed })
    }
}

/// The session image in a fetched body: UTF-8 text, read as a session image
/// (see [`SessionImage::from_xml`]), then checked against the resume path.
pub fn image_from_body(path: &str, body: Vec<u8>) -> (r: Result<SessionImage, FetchError>)
    ensures
        !vstd::utf8::valid_utf8(body@) <==> r == Err::<SessionImage, FetchError>(FetchError::NotUtf8),
        vstd::utf8::valid_utf8(body@) ==> match crate::session_parse::read_document_spec(
            crate::xml::doc_events(vstd::utf8::decode_utf8(body@)),
        ) {
            Err(e) => r matches Err(FetchError::Image(x)) && x@ == e,
            Ok(m) => if url_names_spec(url_id_spec(path@), content_id(m)) {
                r matches Ok(img) && img@ == m
            } else {
                r matches Err(FetchError::IdMismatch { url_id, computed }) && url_id@ == url_id_spec(
                    path@,
                ) && computed@ == content_id(m)
            },
        },
{
    let xml = match utf8_text(body) {
        Some(t) => t,
        None => {
            return Err(FetchError::NotUtf8);
        },
    };
    let parsed = SessionImage::from_xml(xml.as_str());
    let image = match parsed {
        Ok(img) => img,
        Err(e) => {
            return Err(FetchError::Image(e));
        },
    };
    check_against_url(path, image)
}

// ---------------------------------------------------------------------------
// The suspension timestamp

/// The seconds since the Unix epoch now (`SystemTime::now` since
/// `UNIX_EPOCH`), or 0 for a clock set before it. Nothing is promised of the
/// value: it is the machine's clock.
#[verifier::external_body]
fn unix_time_secs() -> u64 {
    match std::time::SystemTime::now().duration_since(std::time::UNIX_EPOCH) {
        Ok(d) => d.as_secs(),
        Err(_) => 0,
    }
}

/// An RFC 3339 UTC timestamp for "now", e.g. `2026-06-28T19:44:09Z`.
pub fn now_rfc3339() -> (out: String)
    ensures
        exists|secs: u64| #[trigger] is_utc_text(secs as nat, out@),
{
    let secs = unix_time_secs();
    format_epoch_utc(secs)
}

/// The parts of a URL written as `http://` + host + `:` + port + path read
/// back as that host, port and path, for a host without `:` or `/` and a
/// path that starts with `/`.
pub proof fn law_url_parts_read_back(host: Seq<char>, port: u16, path: Seq<char>)
    requires
        forall|i: int| 0 <= i < host.len() ==> host[i] != ':' && host[i] != '/',
        path.len() > 0 && path[0] == '/',
    ensures
        url_parts("http://"@ + host + seq![':'] + crate::text::decimal(port as nat) + path) == Ok::<
            (Seq<char>, u16, Seq<char>),
            UrlError,
        >((host, port, path)),
{
    reveal_strlit("http://");
    let d = crate::text::decimal(port as nat);
    let url = "http://"@ + host + seq![':'] + d + path;
    let rest = host + seq![':'] + d + path;
    assert(url.subrange(0, 7) =~= "http://"@);
    assert(url.skip(7) =~= rest);
    crate::roundtrip::lemma_decimal_digits(port as nat);
    let k = host.len() + 1 + d.len();
    assert(rest[k as int] == '/');
    assert forall|j: int| 0 <= j < k implies rest[j] != '/' by {
        if j < host.len() {
            assert(rest[j] == host[j]);
        } else if j == host.len() {
            assert(rest[j] == ':');
        } else {
            assert(rest[j] == d[j - host.len() - 1]);
            assert(crate::text::is_digit(d[j - host.len() - 1]));
        }
    }
    let f = choose|i: int| 0 <= i < rest.len() && rest[i] == '/' && forall|j: int| 0 <= j < i ==> rest[j] != '/';
    if f < k {
        assert(rest[f] != '/');
    } else if f > k {
        assert(rest[k as int] != '/');
    }
    let authority = rest.take(k as int);
    assert(authority =~= host + seq![':'] + d);
    assert(rest.skip(k as int) =~= path);
    let c = host.len() as int;
    assert(authority[c] == ':');
    assert forall|j: int| c < j < authority.len() implies authority[j] != ':' by {
        assert(authority[j] == d[j - c - 1]);
        assert(crate::text::is_digit(d[j - c - 1]));
    }
    let l = choose|i: int|
        0 <= i < authority.len() && authority[i] == ':' && forall|j: int| i < j < authority.len() ==> authority[j] != ':';
    if l < c {
        assert(authority[c] != ':');
    } else if l > c {
        assert(authority[l] != ':');
        assert(authority[l] == d[l - c - 1]);
    }
    assert(authority.take(c) =~= host);
    assert(authority.skip(c + 1) =~= d);
    crate::roundtrip::lemma_decimal_parses(port as nat, 65535);
}

} // verus!
