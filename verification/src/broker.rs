//! The session broker: serving one suspended session image over a tiny
//! hand-rolled HTTP/1.1.
//!
//! ```text
//! GET /session/{id}  ->  200 OK, the session image body
//! ```
//!
//! `{id}` may be the full `sha256:<hex>` id or the bare hex. This module holds
//! the broker's decisions — when a request head is complete, what the request
//! line asks for, how it is routed and what is answered — and the listener
//! drives them.
use vstd::prelude::*;
use crate::decimal::{is_whitespace, is_whitespace_char};
use crate::text::{chars_of, chars_range, chars_start_with, decimal, has_prefix, push_decimal, push_str,
    str_eq, string_from_chars};

verus! {

/// A session image ready to be served.
pub struct ServedImage {
    /// The full content id, e.g. `sha256:abcd...`.
    pub id: String,
    /// The serialised image body (text XML).
    pub body: Vec<u8>,
    /// MIME type sent in the `Content-Type` header.
    pub content_type: String,
}

/// The model of a [`ServedImage`].
pub struct ServedModel {
    pub id: Seq<char>,
    pub body: Seq<u8>,
    pub content_type: Seq<char>,
}

impl View for ServedImage {
    type V = ServedModel;

    open spec fn view(&self) -> ServedModel {
        ServedModel { id: self.id@, body: self.body@, content_type: self.content_type@ }
    }
}

/// The content type of text XML.
pub open spec fn xml_content_type() -> Seq<char> {
    "application/xml; charset=utf-8"@
}

/// The id without its `sha256:` prefix (the id itself when it has none).
pub open spec fn bare_hex_spec(id: Seq<char>) -> Seq<char> {
    if has_prefix(id, "sha256:"@) {
        id.skip(7)
    } else {
        id
    }
}

/// Whether a requested id names the image: its full id or its bare hex.
pub open spec fn matches_spec(img: ServedModel, requested: Seq<char>) -> bool {
    requested == img.id || requested == bare_hex_spec(img.id)
}

impl ServedImage {
    /// An image with an XML body, served as `application/xml; charset=utf-8`.
    pub fn new_xml(id: String, body: Vec<u8>) -> (out: ServedImage)
        ensures
            out@ == (ServedModel { id: id@, body: body@, content_type: xml_content_type() }),
    {
        ServedImage { id, body, content_type: String::from_str("application/xml; charset=utf-8") }
    }

    /// The bare hex form of the id (the `sha256:` prefix stripped).
    pub fn bare_hex(&self) -> (out: String)
        ensures
            out@ == bare_hex_spec(self.id@),
    {
        proof {
            reveal_strlit("sha256:");
        }
        let cs = chars_of(self.id.as_str());
        let p = chars_of("sha256:");
        if chars_start_with(cs.as_slice(), p.as_slice()) {
            let rest = chars_range(cs.as_slice(), 7, cs.len());
            proof {
                assert(rest@ =~= self.id@.skip(7));
            }
            string_from_chars(rest.as_slice())
        } else {
            self.id.clone()
        }
    }

    /// Whether `requested` (the path segment after `/session/`) names this
    /// image.
    pub fn matches(&self, requested: &str) -> (r: bool)
        ensures
            r == matches_spec(self@, requested@),
    {
        let bare = self.bare_hex();
        str_eq(requested, self.id.as_str()) || str_eq(requested, bare.as_str())
    }
}

// ---------------------------------------------------------------------------
// Routing

/// The outcome of routing a request.
#[derive(Debug, Clone, Copy, PartialEq, Eq, Structural)]
pub enum Route {
    /// Serve the image body (200).
    Serve,
    /// 404.
    NotFound,
    /// 405.
    MethodNotAllowed,
}

/// `s` without its trailing slashes.
pub open spec fn trim_slashes(s: Seq<char>) -> Seq<char>
    decreases s.len(),
{
    if s.len() > 0 && s.last() == '/' {
        trim_slashes(s.drop_last())
    } else {
        s
    }
}

/// Where a request goes: only `GET` is allowed, and only
/// `/session/{id}` (trailing slashes ignored) naming the image is found.
pub open spec fn route_spec(method: Seq<char>, path: Seq<char>, img: ServedModel) -> Route {
    if method != "GET"@ {
        Route::MethodNotAllowed
    } else if has_prefix(path, "/session/"@) && matches_spec(img, trim_slashes(path.skip(9))) {
        Route::Serve
    } else {
        Route::NotFound
    }
}

/// Where a request goes.
pub fn route(method: &str, path: &str, image: &ServedImage) -> (r: Route)
    ensures
        r == route_spec(method@, path@, image@),
{
    proof {
        reveal_strlit("/session/");
    }
    if !str_eq(method, "GET") {
        return Route::MethodNotAllowed;
    }
    let cs = chars_of(path);
    let p = chars_of("/session/");
    if !chars_start_with(cs.as_slice(), p.as_slice()) {
        return Route::NotFound;
    }
    let mut end: usize = cs.len();
    while end > 9 && cs[end - 1] == '/'
        invariant
            9 <= end <= cs@.len(),
            cs@ == path@,
            trim_slashes(path@.skip(9)) == trim_slashes(path@.subrange(9, end as int)),
        decreases end,
    {
        proof {
            assert(path@.subrange(9, end as int).drop_last() =~= path@.subrange(9, end - 1));
        }
        end = end - 1;
    }
    proof {
        assert(path@.subrange(9, path@.len() as int) =~= path@.skip(9));
    }
    let id = chars_range(cs.as_slice(), 9, end);
    let ids = string_from_chars(id.as_slice());
    proof {
        let t = path@.subrange(9, end as int);
        assert(!(t.len() > 0 && t.last() == '/'));
        assert(ids@ == t);
    }
    if image.matches(ids.as_str()) {
        Route::Serve
    } else {
        Route::NotFound
    }
}

// ---------------------------------------------------------------------------
// The request head

/// Whether the four bytes at `i` are `\r\n\r\n`.
pub open spec fn blank_line_at(b: Seq<u8>, i: int) -> bool {
    &&& 0 <= i
    &&& i + 4 <= b.len()
    &&& b[i] == 13
    &&& b[i + 1] == 10
    &&& b[i + 2] == 13
    &&& b[i + 3] == 10
}

/// The position of the first `\r\n\r\n`, which ends a request head.
pub fn find_header_end(buf: &[u8]) -> (r: Option<usize>)
    ensures
        r matches Some(i) ==> blank_line_at(buf@, i as int) && forall|j: int|
            0 <= j < i ==> !blank_line_at(buf@, j),
        r is None ==> forall|j: int| !blank_line_at(buf@, j),
{
    let n = buf.len();
    if n < 4 {
        return None;
    }
    let mut i: usize = 0;
    while i <= n - 4
        invariant
            n == buf@.len(),
            n >= 4,
            i <= n - 3,
            forall|j: int| 0 <= j < i ==> !blank_line_at(buf@, j),
        decreases n - i,
    {
        if buf[i] == 13 && buf[i + 1] == 10 && buf[i + 2] == 13 && buf[i + 3] == 10 {
            return Some(i);
        }
        i = i + 1;
    }
    None
}

/// The most bytes of a request head that are read.
pub const MAX_HEAD_LEN: usize = 65536;

/// Whether reading a request can stop: the head is complete, or more than
/// [`MAX_HEAD_LEN`] bytes have come.
pub fn head_read_done(buf: &[u8]) -> (r: bool)
    ensures
        r == ((exists|j: int| blank_line_at(buf@, j)) || buf@.len() > MAX_HEAD_LEN),
{
    match find_header_end(buf) {
        Some(i) => {
            proof {
                assert(blank_line_at(buf@, i as int));
            }
            true
        },
        None => buf.len() > MAX_HEAD_LEN,
    }
}

/// The first line of a text: up to its first line feed.
pub open spec fn first_line(s: Seq<char>) -> Seq<char> {
    if exists|i: int| 0 <= i < s.len() && s[i] == '\n' {
        let i = choose|i: int|
            0 <= i < s.len() && s[i] == '\n' && forall|j: int| 0 <= j < i ==> s[j] != '\n';
        s.take(i)
    } else {
        s
    }
}

/// The first position at or after `i` that is not whitespace.
pub open spec fn skip_space(s: Seq<char>, i: int) -> int
    decreases s.len() - i,
{
    if i < s.len() && is_whitespace(s[i]) {
        skip_space(s, i + 1)
    } else {
        i
    }
}

/// The first position at or after `i` that is whitespace (or the end).
pub open spec fn word_end(s: Seq<char>, i: int) -> int
    decreases s.len() - i,
{
    if i < s.len() && !is_whitespace(s[i]) {
        word_end(s, i + 1)
    } else {
        i
    }
}

/// The first two whitespace-separated words of a line (empty when absent).
pub open spec fn two_words(l: Seq<char>) -> (Seq<char>, Seq<char>) {
    let a = skip_space(l, 0);
    let b = word_end(l, a);
    let c = skip_space(l, b);
    let d = word_end(l, c);
    (l.subrange(a, b), l.subrange(c, d))
}

/// The method and the path of a request head: the first two words of its
/// first line.
pub open spec fn request_parts(head: Seq<char>) -> (Seq<char>, Seq<char>) {
    two_words(first_line(head))
}

proof fn lemma_skip_space_bounds(s: Seq<char>, i: int)
    requires
        0 <= i <= s.len(),
    ensures
        i <= skip_space(s, i) <= s.len(),
    decreases s.len() - i,
{
    if i < s.len() && is_whitespace(s[i]) {
        lemma_skip_space_bounds(s, i + 1);
    }
}

proof fn lemma_word_end_bounds(s: Seq<char>, i: int)
    requires
        0 <= i <= s.len(),
    ensures
        i <= word_end(s, i) <= s.len(),
    decreases s.len() - i,
{
    if i < s.len() && !is_whitespace(s[i]) {
        lemma_word_end_bounds(s, i + 1);
    }
}

fn skip_space_exec(s: &[char], i: usize) -> (r: usize)
    requires
        i <= s@.len(),
    ensures
        r as int == skip_space(s@, i as int),
{
    let mut k = i;
    while k < s.len() && is_whitespace_char(s[k])
        invariant
            i <= k <= s@.len(),
            skip_space(s@, i as int) == skip_space(s@, k as int),
        decreases s@.len() - k,
    {
        k = k + 1;
    }
    k
}

fn word_end_exec(s: &[char], i: usize) -> (r: usize)
    requires
        i <= s@.len(),
    ensures
        r as int == word_end(s@, i as int),
{
    let mut k = i;
    while k < s.len() && !is_whitespace_char(s[k])
        invariant
            i <= k <= s@.len(),
            word_end(s@, i as int) == word_end(s@, k as int),
        decreases s@.len() - k,
    {
        k = k + 1;
    }
    k
}

/// The method and the path of a request head.
pub fn request_line_parts(head: &str) -> (out: (String, String))
    ensures
        (out.0@, out.1@) == request_parts(head@),
{
    let cs = chars_of(head);
    let n = cs.len();
    let mut k: usize = 0;
    while k < n && cs[k] != '\n'
        invariant
            k <= n,
            n == cs@.len(),
            cs@ == head@,
            forall|j: int| 0 <= j < k ==> cs@[j] != '\n',
        decreases n - k,
    {
        k = k + 1;
    }
    let line = chars_range(cs.as_slice(), 0, k);
    proof {
        let s = head@;
        if k < n {
            assert(s[k as int] == '\n');
            let c = choose|i: int|
                0 <= i < s.len() && s[i] == '\n' && forall|j: int| 0 <= j < i ==> s[j] != '\n';
            if c < k {
                assert(s[c] != '\n');
            } else if c > k {
                assert(s[k as int] != '\n');
            }
            assert(line@ =~= s.take(k as int));
        } else {
            assert(line@ =~= s);
        }
        assert(line@ == first_line(s));
    }
    let a = skip_space_exec(line.as_slice(), 0);
    proof {
        lemma_skip_space_bounds(line@, 0);
    }
    let b = word_end_exec(line.as_slice(), a);
    proof {
        lemma_word_end_bounds(line@, a as int);
    }
    let c = skip_space_exec(line.as_slice(), b);
    proof {
        lemma_skip_space_bounds(line@, b as int);
    }
    let d = word_end_exec(line.as_slice(), c);
    proof {
        lemma_word_end_bounds(line@, c as int);
    }
    let m = chars_range(line.as_slice(), a, b);
    let p = chars_range(line.as_slice(), c, d);
    (string_from_chars(m.as_slice()), string_from_chars(p.as_slice()))
}

/// The method and the path of the request in `buf`, read as UTF-8 (invalid
/// sequences replaced).
pub fn parse_request(buf: &[u8]) -> (out: (String, String))
    ensures
        (out.0@, out.1@) == request_parts(crate::xml::utf8_lossy_text(buf@)),
        vstd::utf8::valid_utf8(buf@) ==> (out.0@, out.1@) == request_parts(
            vstd::utf8::decode_utf8(buf@),
        ),
{
    let head = crate::xml::utf8_lossy(buf);
    request_line_parts(head.as_str())
}

// ---------------------------------------------------------------------------
// The response

/// The body of a 404 answer.
pub open spec fn not_found_body() -> Seq<u8> {
    vstd::utf8::encode_utf8("session not found\n"@)
}

/// The body of a 405 answer.
pub open spec fn not_allowed_body() -> Seq<u8> {
    vstd::utf8::encode_utf8("method not allowed\n"@)
}

/// The status line and headers of the answer to a route.
pub open spec fn response_head_spec(r: Route, img: ServedModel) -> Seq<char> {
    match r {
        Route::Serve => "HTTP/1.1 200 OK\r\nContent-Type: "@ + img.content_type + "\r\nContent-Length: "@
            + decimal(img.body.len()) + "\r\nConnection: close\r\n\r\n"@,
        Route::NotFound => "HTTP/1.1 404 Not Found\r\nContent-Type: text/plain\r\nContent-Length: "@
            + decimal(not_found_body().len()) + "\r\nConnection: close\r\n\r\n"@,
        Route::MethodNotAllowed =>
            "HTTP/1.1 405 Method Not Allowed\r\nAllow: GET\r\nContent-Type: text/plain\r\nContent-Length: "@
            + decimal(not_allowed_body().len()) + "\r\nConnection: close\r\n\r\n"@,
    }
}

/// The body of the answer to a route.
pub open spec fn response_body_spec(r: Route, img: ServedModel) -> Seq<u8> {
    match r {
        Route::Serve => img.body,
        Route::NotFound => not_found_body(),
        Route::MethodNotAllowed => not_allowed_body(),
    }
}

/// The answer to a route: its head (status line and headers) and its body.
pub fn response_for(r: Route, image: &ServedImage) -> (out: (String, Vec<u8>))
    ensures
        out.0@ == response_head_spec(r, image@),
        out.1@ == response_body_spec(r, image@),
{
    match r {
        Route::Serve => {
            let mut head = String::from_str("HTTP/1.1 200 OK\r\nContent-Type: ");
            push_str(&mut head, image.content_type.as_str());
            push_str(&mut head, "\r\nContent-Length: ");
            push_decimal(&mut head, image.body.len() as u64);
            push_str(&mut head, "\r\nConnection: close\r\n\r\n");
            (head, image.body.clone())
        },
        Route::NotFound => {
            let body = vstd::slice::slice_to_vec("session not found\n".as_bytes());
            let mut head = String::from_str(
                "HTTP/1.1 404 Not Found\r\nContent-Type: text/plain\r\nContent-Length: ",
            );
            push_decimal(&mut head, body.len() as u64);
            push_str(&mut head, "\r\nConnection: close\r\n\r\n");
            (head, body)
        },
        Route::MethodNotAllowed => {
            let body = vstd::slice::slice_to_vec("method not allowed\n".as_bytes());
            let mut head = String::from_str(
                "HTTP/1.1 405 Method Not Allowed\r\nAllow: GET\r\nContent-Type: text/plain\r\nContent-Length: ",
            );
            push_decimal(&mut head, body.len() as u64);
            push_str(&mut head, "\r\nConnection: close\r\n\r\n");
            (head, body)
        },
    }
}

/// A `GET` of `/session/` followed by the image's full id, or by its bare
/// hex when the id has the `sha256:` prefix, serves the image (for an id
/// that does not end in `/`).
pub proof fn law_serves_its_own_id(img: ServedModel)
    requires
        img.id.len() == 0 || img.id.last() != '/',
    ensures
        route_spec("GET"@, "/session/"@ + img.id, img) == Route::Serve,
        has_prefix(img.id, "sha256:"@) ==> route_spec("GET"@, "/session/"@ + img.id.skip(7), img)
            == Route::Serve,
{
    reveal_strlit("/session/");
    reveal_strlit("sha256:");
    let p = "/session/"@ + img.id;
    assert(p.subrange(0, 9) =~= "/session/"@);
    assert(p.skip(9) =~= img.id);
    if has_prefix(img.id, "sha256:"@) {
        let b = img.id.skip(7);
        let q = "/session/"@ + b;
        assert(q.subrange(0, 9) =~= "/session/"@);
        assert(q.skip(9) =~= b);
        assert(b.len() > 0 ==> b.last() == img.id.last());
    }
}

/// Any method but `GET` is refused, whatever the path.
pub proof fn law_only_get(method: Seq<char>, path: Seq<char>, img: ServedModel)
    requires
        method != "GET"@,
    ensures
        route_spec(method, path, img) == Route::MethodNotAllowed,
{
}

} // verus!
