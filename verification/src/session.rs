//! The session image: a self-describing, content-addressed snapshot of a
//! running session, its XML serialisations (pretty text XML and the canonical
//! form used for content addressing) and its integrity check.
//!
//! `session_id = "sha256:" + hex(SHA256(canonical_bytes))`, where the
//! canonical form omits the `<session>` `id` attribute, so the id is never an
//! input to the hash that produces it.
//!
//! The strip's scroll position is a 32-bit floating-point value; the image
//! holds it as its canonical decimal text (the shortest text that reads back
//! to the same value, with negative zero written `0`), which is exactly what
//! both serialisations write.
use vstd::prelude::*;
use vstd::slice::slice_to_vec;
use vstd::string::StringSliceAdditionalSpecFns;
use vstd::utf8::encode_utf8;
use crate::digest::{hex_encode, hex_lower, sha256, sha256_spec, hex_decode, hex_decode_spec,
    hex_error_display, hex_error_message, HexError};
use crate::text::{chars_of, push_char, push_str, push_decimal, decimal, decimal_string, has_prefix,
    chars_start_with, string_from_chars};
use crate::wire::{Codec, OsKind, SurfaceId};

verus! {

/// The XML namespace of session images.
pub open spec fn session_namespace() -> Seq<char> {
    "https://simulboot.dev/session/v1"@
}

/// Current schema version written into every image.
pub const SCHEMA_VERSION: u32 = 1;

// ---------------------------------------------------------------------------
// Errors

/// Errors from building, serialising, or parsing a session image.
#[derive(Debug, Clone, PartialEq, Eq)]
pub enum SessionError {
    /// The XML reader rejected the document; the text is its message.
    Xml(String),
    Malformed(String),
    UnknownEnum { kind: String, value: String },
    BadSurfaceId { value: String, reason: String },
    /// The recomputed content hash does not match the declared id.
    IntegrityMismatch { declared: String, computed: String },
}

/// The mathematical model of a [`SessionError`].
#[verifier::ext_equal]
pub enum ErrorModel {
    Xml(Seq<char>),
    Malformed(Seq<char>),
    UnknownEnum { kind: Seq<char>, value: Seq<char> },
    BadSurfaceId { value: Seq<char>, reason: Seq<char> },
    IntegrityMismatch { declared: Seq<char>, computed: Seq<char> },
}

impl View for SessionError {
    type V = ErrorModel;

    open spec fn view(&self) -> ErrorModel {
        match self {
            SessionError::Xml(m) => ErrorModel::Xml(m@),
            SessionError::Malformed(m) => ErrorModel::Malformed(m@),
            SessionError::UnknownEnum { kind, value } => ErrorModel::UnknownEnum {
                kind: kind@,
                value: value@,
            },
            SessionError::BadSurfaceId { value, reason } => ErrorModel::BadSurfaceId {
                value: value@,
                reason: reason@,
            },
            SessionError::IntegrityMismatch { declared, computed } => ErrorModel::IntegrityMismatch {
                declared: declared@,
                computed: computed@,
            },
        }
    }
}

/// A result seen through the models of its value and its error.
pub open spec fn rv<T: View>(r: Result<T, SessionError>) -> Result<T::V, ErrorModel> {
    match r {
        Ok(v) => Ok(v@),
        Err(e) => Err(e@),
    }
}

// ---------------------------------------------------------------------------
// The image and its model

/// A host endpoint plus the provenance of what it captures.
#[derive(Debug, Clone, PartialEq, Eq)]
pub struct HostEntry {
    /// Socket address the compositor reconnects to, e.g. `100.x.x.y:7001`.
    pub address: String,
    pub os: OsKind,
    pub machine: String,
    /// e.g. `window:Safari`, `display:0`, `vm:PhysicalDrive1`.
    pub capture: String,
}

/// One surface as recorded in the image.
#[derive(Debug, Clone, PartialEq, Eq)]
pub struct SurfaceEntry {
    pub id: SurfaceId,
    pub name: String,
    /// Position in the strip, left to right, starting at 0.
    pub order: u32,
    pub host: HostEntry,
    pub codec: Codec,
    pub width: u32,
    pub height: u32,
}

/// Strip layout state: scroll position and which surface (if any) has focus.
#[derive(Debug, Clone, PartialEq, Eq)]
pub struct Layout {
    /// Pixels scrolled from the left edge of the strip, as canonical decimal
    /// text (see the module documentation).
    pub scroll_pos: String,
    /// The focused surface, if any.
    pub focus: Option<SurfaceId>,
}

/// A complete session image.
#[derive(Debug, Clone, PartialEq, Eq)]
pub struct SessionImage {
    /// The content-addressed id (`sha256:...`), if computed or parsed.
    pub id: Option<String>,
    /// Creation timestamp, RFC 3339, supplied by the caller.
    pub created: String,
    pub schema_version: u32,
    pub surfaces: Vec<SurfaceEntry>,
    pub layout: Layout,
}

#[verifier::ext_equal]
pub struct HostModel {
    pub address: Seq<char>,
    pub os: OsKind,
    pub machine: Seq<char>,
    pub capture: Seq<char>,
}

#[verifier::ext_equal]
pub struct SurfaceModel {
    pub id: Seq<u8>,
    pub name: Seq<char>,
    pub order: u32,
    pub host: HostModel,
    pub codec: Codec,
    pub width: u32,
    pub height: u32,
}

#[verifier::ext_equal]
pub struct LayoutModel {
    pub scroll_pos: Seq<char>,
    pub focus: Option<Seq<u8>>,
}

/// The mathematical model of a session image.
#[verifier::ext_equal]
pub struct ImageModel {
    pub id: Option<Seq<char>>,
    pub created: Seq<char>,
    pub schema_version: u32,
    pub surfaces: Seq<SurfaceModel>,
    pub layout: LayoutModel,
}

impl View for HostEntry {
    type V = HostModel;

    open spec fn view(&self) -> HostModel {
        HostModel {
            address: self.address@,
            os: self.os,
            machine: self.machine@,
            capture: self.capture@,
        }
    }
}

impl View for SurfaceEntry {
    type V = SurfaceModel;

    open spec fn view(&self) -> SurfaceModel {
        SurfaceModel {
            id: self.id@,
            name: self.name@,
            order: self.order,
            host: self.host@,
            codec: self.codec,
            width: self.width,
            height: self.height,
        }
    }
}

/// The model of an optional surface id.
pub open spec fn opt_id_view(o: Option<SurfaceId>) -> Option<Seq<u8>> {
    match o {
        Some(id) => Some(id@),
        None => None,
    }
}

/// The model of an optional string.
pub open spec fn opt_str_view(o: Option<String>) -> Option<Seq<char>> {
    match o {
        Some(s) => Some(s@),
        None => None,
    }
}

impl View for Layout {
    type V = LayoutModel;

    open spec fn view(&self) -> LayoutModel {
        LayoutModel { scroll_pos: self.scroll_pos@, focus: opt_id_view(self.focus) }
    }
}

/// The models of a sequence of surfaces.
pub open spec fn surfaces_view(v: Seq<SurfaceEntry>) -> Seq<SurfaceModel> {
    v.map_values(|s: SurfaceEntry| s@)
}

impl View for SessionImage {
    type V = ImageModel;

    open spec fn view(&self) -> ImageModel {
        ImageModel {
            id: opt_str_view(self.id),
            created: self.created@,
            schema_version: self.schema_version,
            surfaces: surfaces_view(self.surfaces@),
            layout: self.layout@,
        }
    }
}

// --- copies with the same model ---

impl HostEntry {
    /// A copy of this entry.
    pub fn duplicate(&self) -> (out: HostEntry)
        ensures
            out@ == self@,
    {
        HostEntry {
            address: self.address.clone(),
            os: self.os,
            machine: self.machine.clone(),
            capture: self.capture.clone(),
        }
    }
}

impl SurfaceEntry {
    /// A copy of this entry.
    pub fn duplicate(&self) -> (out: SurfaceEntry)
        ensures
            out@ == self@,
    {
        SurfaceEntry {
            id: self.id,
            name: self.name.clone(),
            order: self.order,
            host: self.host.duplicate(),
            codec: self.codec,
            width: self.width,
            height: self.height,
        }
    }
}

/// A copy of a list of surfaces.
pub fn duplicate_surfaces(v: &Vec<SurfaceEntry>) -> (out: Vec<SurfaceEntry>)
    ensures
        surfaces_view(out@) == surfaces_view(v@),
{
    let mut out: Vec<SurfaceEntry> = Vec::new();
    let n = v.len();
    let mut i: usize = 0;
    while i < n
        invariant
            n == v@.len(),
            i <= n,
            out@.len() == i,
            forall|k: int| 0 <= k < i ==> (#[trigger] out@[k])@ == v@[k]@,
        decreases n - i,
    {
        out.push(v[i].duplicate());
        i = i + 1;
    }
    proof {
        assert(surfaces_view(out@) =~= surfaces_view(v@));
    }
    out
}

impl Layout {
    /// A copy of this layout.
    pub fn duplicate(&self) -> (out: Layout)
        ensures
            out@ == self@,
    {
        Layout { scroll_pos: self.scroll_pos.clone(), focus: self.focus }
    }
}

impl Default for Layout {
    /// Scrolled to the left edge, nothing focused.
    fn default() -> (out: Layout)
        ensures
            out@.scroll_pos == seq!['0'],
            out@.focus is None,
    {
        let mut s = String::new();
        push_char(&mut s, '0');
        Layout { scroll_pos: s, focus: None }
    }
}

impl SessionImage {
    /// A copy of this image.
    pub fn duplicate(&self) -> (out: SessionImage)
        ensures
            out@ == self@,
    {
        SessionImage {
            id: match &self.id {
                Some(s) => Some(s.clone()),
                None => None,
            },
            created: self.created.clone(),
            schema_version: self.schema_version,
            surfaces: duplicate_surfaces(&self.surfaces),
            layout: self.layout.duplicate(),
        }
    }
}

// ---------------------------------------------------------------------------
// Text forms

/// The XML spelling of an OS.
pub open spec fn os_text(os: OsKind) -> Seq<char> {
    match os {
        OsKind::MacOS => "macOS"@,
        OsKind::Windows => "Windows"@,
        OsKind::Linux => "Linux"@,
    }
}

/// The XML spelling of a codec.
pub open spec fn codec_text(c: Codec) -> Seq<char> {
    match c {
        Codec::H265 => "H265"@,
        Codec::AV1 => "AV1"@,
    }
}

/// `sha256:` followed by the lower-case hex of the id.
pub open spec fn surface_id_text(id: Seq<u8>) -> Seq<char> {
    "sha256:"@ + hex_lower(id)
}

/// Render a [`SurfaceId`] as `sha256:<64 hex chars>`.
pub fn surface_id_to_str(id: &SurfaceId) -> (out: String)
    ensures
        out@ == surface_id_text(id@),
{
    let h = hex_encode(id);
    let mut out = String::from_str("sha256:");
    push_str(&mut out, h.as_str());
    out
}

fn push_os(out: &mut String, os: OsKind)
    ensures
        final(out)@ == old(out)@ + os_text(os),
{
    match os {
        OsKind::MacOS => out.append("macOS"),
        OsKind::Windows => out.append("Windows"),
        OsKind::Linux => out.append("Linux"),
    }
}

fn push_codec(out: &mut String, c: Codec)
    ensures
        final(out)@ == old(out)@ + codec_text(c),
{
    match c {
        Codec::H265 => out.append("H265"),
        Codec::AV1 => out.append("AV1"),
    }
}

/// The replacement of one character in an attribute value.
pub open spec fn attr_escape_char(c: char) -> Seq<char> {
    if c == '&' {
        "&amp;"@
    } else if c == '<' {
        "&lt;"@
    } else if c == '>' {
        "&gt;"@
    } else if c == '"' {
        "&quot;"@
    } else {
        seq![c]
    }
}

/// An attribute value with `&`, `<`, `>` and `"` written as entities.
pub open spec fn escape_attr(s: Seq<char>) -> Seq<char>
    decreases s.len(),
{
    if s.len() == 0 {
        Seq::empty()
    } else {
        escape_attr(s.drop_last()) + attr_escape_char(s.last())
    }
}

/// The replacement of one character in element text.
pub open spec fn text_escape_char(c: char) -> Seq<char> {
    if c == '&' {
        "&amp;"@
    } else if c == '<' {
        "&lt;"@
    } else if c == '>' {
        "&gt;"@
    } else {
        seq![c]
    }
}

/// Element text with `&`, `<` and `>` written as entities.
pub open spec fn escape_text(s: Seq<char>) -> Seq<char>
    decreases s.len(),
{
    if s.len() == 0 {
        Seq::empty()
    } else {
        escape_text(s.drop_last()) + text_escape_char(s.last())
    }
}

/// Reading XML character data: each predefined entity (`&amp;`, `&lt;`,
/// `&gt;`, `&quot;`, `&apos;`) stands for its character; every other
/// character stands for itself.
pub open spec fn unescape_entities(s: Seq<char>) -> Seq<char>
    decreases s.len(),
{
    if s.len() == 0 {
        s
    } else if s.len() >= 5 && s.take(5) == "&amp;"@ {
        seq!['&'] + unescape_entities(s.skip(5))
    } else if s.len() >= 4 && s.take(4) == "&lt;"@ {
        seq!['<'] + unescape_entities(s.skip(4))
    } else if s.len() >= 4 && s.take(4) == "&gt;"@ {
        seq!['>'] + unescape_entities(s.skip(4))
    } else if s.len() >= 6 && s.take(6) == "&quot;"@ {
        seq!['"'] + unescape_entities(s.skip(6))
    } else if s.len() >= 6 && s.take(6) == "&apos;"@ {
        seq!['\''] + unescape_entities(s.skip(6))
    } else {
        seq![s[0]] + unescape_entities(s.drop_first())
    }
}

/// Reading back one written character, then the rest.
proof fn lemma_unescape_char(r: Seq<char>, c: char, w: Seq<char>)
    requires
        w == text_escape_char(c) || w == attr_escape_char(c),
    ensures
        unescape_entities(w + r) == seq![c] + unescape_entities(r),
{
    reveal_strlit("&amp;");
    reveal_strlit("&lt;");
    reveal_strlit("&gt;");
    reveal_strlit("&quot;");
    reveal_strlit("&apos;");
    let s = w + r;
    if c == '&' {
        assert(w == "&amp;"@);
        assert(s.take(5) =~= "&amp;"@);
        assert(s.skip(5) =~= r);
    } else if c == '<' {
        assert(w == "&lt;"@);
        assert(s.take(4) =~= "&lt;"@);
        assert(s[1] == 'l');
        assert(s.len() >= 5 ==> s.take(5)[1] == 'l');
        assert(s.skip(4) =~= r);
    } else if c == '>' {
        assert(w == "&gt;"@);
        assert(s.take(4) =~= "&gt;"@);
        assert(s[1] == 'g');
        assert(s.len() >= 5 ==> s.take(5)[1] == 'g');
        assert(s.take(4)[1] == 'g');
        assert(s.skip(4) =~= r);
    } else if c == '"' && w == attr_escape_char(c) {
        assert(w == "&quot;"@);
        assert(s.take(6) =~= "&quot;"@);
        assert(s[1] == 'q');
        assert(s.take(5)[1] == 'q');
        assert(s.take(4)[1] == 'q');
        assert(s.skip(6) =~= r);
    } else {
        assert(w == seq![c]);
        assert(s[0] == c);
        assert(s.len() >= 5 ==> s.take(5)[0] == c);
        assert(s.len() >= 4 ==> s.take(4)[0] == c);
        assert(s.len() >= 6 ==> s.take(6)[0] == c);
        assert(c != '&');
        assert(s.drop_first() =~= r);
    }
}

proof fn lemma_escape_text_concat(a: Seq<char>, b: Seq<char>)
    ensures
        escape_text(a + b) == escape_text(a) + escape_text(b),
    decreases b.len(),
{
    if b.len() == 0 {
        assert(a + b =~= a);
        assert(escape_text(a) + escape_text(b) =~= escape_text(a));
    } else {
        lemma_escape_text_concat(a, b.drop_last());
        assert((a + b).drop_last() =~= a + b.drop_last());
        assert((a + b).last() == b.last());
        assert(escape_text(a + b) =~= escape_text(a) + escape_text(b));
    }
}

proof fn lemma_escape_attr_concat(a: Seq<char>, b: Seq<char>)
    ensures
        escape_attr(a + b) == escape_attr(a) + escape_attr(b),
    decreases b.len(),
{
    if b.len() == 0 {
        assert(a + b =~= a);
        assert(escape_attr(a) + escape_attr(b) =~= escape_attr(a));
    } else {
        lemma_escape_attr_concat(a, b.drop_last());
        assert((a + b).drop_last() =~= a + b.drop_last());
        assert((a + b).last() == b.last());
        assert(escape_attr(a + b) =~= escape_attr(a) + escape_attr(b));
    }
}

/// Written element text reads back as the text that was written: reading
/// the entities of `escape_text(s)` gives `s`, for every `s`.
pub proof fn law_escaped_text_reads_back(s: Seq<char>)
    ensures
        unescape_entities(escape_text(s)) == s,
    decreases s.len(),
{
    if s.len() > 0 {
        let t = s.drop_first();
        assert(s =~= seq![s[0]] + t);
        lemma_escape_text_concat(seq![s[0]], t);
        assert(seq![s[0]].drop_last() =~= Seq::<char>::empty());
        assert(seq![s[0]].last() == s[0]);
        assert(escape_text(Seq::<char>::empty()) =~= Seq::<char>::empty());
        assert(escape_text(seq![s[0]]) =~= text_escape_char(s[0]));
        law_escaped_text_reads_back(t);
        lemma_unescape_char(escape_text(t), s[0], text_escape_char(s[0]));
    }
}

/// A written attribute value reads back as the value that was written:
/// reading the entities of `escape_attr(s)` gives `s`, for every `s`.
pub proof fn law_escaped_attr_reads_back(s: Seq<char>)
    ensures
        unescape_entities(escape_attr(s)) == s,
    decreases s.len(),
{
    if s.len() > 0 {
        let t = s.drop_first();
        assert(s =~= seq![s[0]] + t);
        lemma_escape_attr_concat(seq![s[0]], t);
        assert(seq![s[0]].drop_last() =~= Seq::<char>::empty());
        assert(seq![s[0]].last() == s[0]);
        assert(escape_attr(Seq::<char>::empty()) =~= Seq::<char>::empty());
        assert(escape_attr(seq![s[0]]) =~= attr_escape_char(s[0]));
        law_escaped_attr_reads_back(t);
        lemma_unescape_char(escape_attr(t), s[0], attr_escape_char(s[0]));
    }
}

/// Appends `s` escaped as an attribute value.
pub fn push_escaped_attr(out: &mut String, s: &str)
    ensures
        final(out)@ == old(out)@ + escape_attr(s@),
{
    let cs = chars_of(s);
    let n = cs.len();
    let mut i: usize = 0;
    while i < n
        invariant
            n == cs@.len(),
            cs@ == s@,
            i <= n,
            out@ == old(out)@ + escape_attr(cs@.take(i as int)),
        decreases n - i,
    {
        let c = cs[i];
        if c == '&' {
            out.append("&amp;");
        } else if c == '<' {
            out.append("&lt;");
        } else if c == '>' {
            out.append("&gt;");
        } else if c == '"' {
            out.append("&quot;");
        } else {
            push_char(out, c);
        }
        i = i + 1;
        proof {
            assert(cs@.take(i as int).drop_last() =~= cs@.take((i - 1) as int));
        }
    }
    proof {
        assert(cs@.take(n as int) =~= cs@);
    }
}

/// Appends `s` escaped as element text.
pub fn push_escaped_text(out: &mut String, s: &str)
    ensures
        final(out)@ == old(out)@ + escape_text(s@),
{
    let cs = chars_of(s);
    let n = cs.len();
    let mut i: usize = 0;
    while i < n
        invariant
            n == cs@.len(),
            cs@ == s@,
            i <= n,
            out@ == old(out)@ + escape_text(cs@.take(i as int)),
        decreases n - i,
    {
        let c = cs[i];
        if c == '&' {
            out.append("&amp;");
        } else if c == '<' {
            out.append("&lt;");
        } else if c == '>' {
            out.append("&gt;");
        } else {
            push_char(out, c);
        }
        i = i + 1;
        proof {
            assert(cs@.take(i as int).drop_last() =~= cs@.take((i - 1) as int));
        }
    }
    proof {
        assert(cs@.take(n as int) =~= cs@);
    }
}

// ---------------------------------------------------------------------------
// The document

/// A line break in the pretty form, nothing in the canonical form.
pub open spec fn nl(pretty: bool) -> Seq<char> {
    if pretty {
        seq!['\n']
    } else {
        Seq::empty()
    }
}

/// `depth` levels of two-space indentation in the pretty form.
pub open spec fn ind(pretty: bool, depth: nat) -> Seq<char> {
    if pretty {
        Seq::new(2 * depth, |i: int| ' ')
    } else {
        Seq::empty()
    }
}

/// A text-only element on its own line.
pub open spec fn text_el(pretty: bool, depth: nat, tag: Seq<char>, text: Seq<char>) -> Seq<char> {
    ind(pretty, depth) + "<"@ + tag + ">"@ + escape_text(text) + "</"@ + tag + ">"@ + nl(pretty)
}

/// The opening `<surface>` tag (attributes in sorted order: id, name, order).
pub open spec fn surface_open(s: SurfaceModel, pretty: bool) -> Seq<char> {
    ind(pretty, 2) + "<surface id=\""@ + escape_attr(surface_id_text(s.id)) + "\" name=\""@
        + escape_attr(s.name) + "\" order=\""@ + decimal(s.order as nat) + "\">"@ + nl(pretty)
}

/// The `<host>` element.
pub open spec fn host_xml(h: HostModel, pretty: bool) -> Seq<char> {
    ind(pretty, 3) + "<host>"@ + nl(pretty) + text_el(pretty, 4, "address"@, h.address) + text_el(
        pretty,
        4,
        "os"@,
        os_text(h.os),
    ) + text_el(pretty, 4, "machine"@, h.machine) + text_el(pretty, 4, "capture"@, h.capture)
        + ind(pretty, 3) + "</host>"@ + nl(pretty)
}

/// The `<dimensions>` element (attributes in sorted order: height, width).
pub open spec fn dims_xml(s: SurfaceModel, pretty: bool) -> Seq<char> {
    ind(pretty, 3) + "<dimensions height=\""@ + decimal(s.height as nat) + "\" width=\""@
        + decimal(s.width as nat) + "\"/>"@ + nl(pretty)
}

/// One `<surface>` element.
#[verifier::opaque]
pub open spec fn surface_xml(s: SurfaceModel, pretty: bool) -> Seq<char> {
    surface_open(s, pretty) + host_xml(s.host, pretty) + text_el(pretty, 3, "codec"@, codec_text(s.codec))
        + dims_xml(s, pretty) + ind(pretty, 2) + "</surface>"@ + nl(pretty)
}

/// The `<surface>` elements of a list of surfaces, in list order.
pub open spec fn surfaces_xml(ss: Seq<SurfaceModel>, pretty: bool) -> Seq<char>
    decreases ss.len(),
{
    if ss.len() == 0 {
        Seq::empty()
    } else {
        surfaces_xml(ss.drop_last(), pretty) + surface_xml(ss.last(), pretty)
    }
}

/// The `<session>` opening tag: namespace first, then the attributes in
/// sorted order (created, id, schema-version); `id` only when given.
pub open spec fn session_open_tag(m: ImageModel, id: Option<Seq<char>>) -> Seq<char> {
    "<session xmlns=\""@ + session_namespace() + "\""@ + " created=\""@ + escape_attr(m.created)
        + "\""@ + match id {
        Some(i) => " id=\""@ + escape_attr(i) + "\""@,
        None => Seq::empty(),
    } + " schema-version=\""@ + decimal(m.schema_version as nat) + "\""@ + ">"@
}

/// The `<layout>` element.
pub open spec fn layout_xml(l: LayoutModel, pretty: bool) -> Seq<char> {
    ind(pretty, 1) + "<layout>"@ + nl(pretty) + ind(pretty, 2) + "<strip scroll-pos=\""@
        + l.scroll_pos + "\"/>"@ + nl(pretty) + focus_xml(l.focus, pretty) + ind(pretty, 1)
        + "</layout>"@ + nl(pretty)
}

/// The `<session>` document: the opening tag, `<surfaces>`, `<layout>`, then
/// `extra` (a pre-rendered block of further children) when given.
pub open spec fn session_doc(
    m: ImageModel,
    pretty: bool,
    id: Option<Seq<char>>,
    extra: Option<Seq<char>>,
) -> Seq<char> {
    session_open_tag(m, id) + nl(pretty) + ind(pretty, 1) + "<surfaces>"@ + nl(pretty)
        + surfaces_xml(m.surfaces, pretty) + ind(pretty, 1) + "</surfaces>"@ + nl(pretty)
        + layout_xml(m.layout, pretty) + match extra {
        Some(e) => e,
        None => Seq::empty(),
    } + "</session>"@
}

/// The canonical form: whitespace-free, without the `<session>` id.
pub open spec fn canonical_doc(m: ImageModel) -> Seq<char> {
    session_doc(m, false, None, None)
}

/// The canonical form's UTF-8 bytes.
pub open spec fn canonical_bytes_spec(m: ImageModel) -> Seq<u8> {
    encode_utf8(canonical_doc(m))
}

/// The content-addressed id: `sha256:` + hex of the SHA-256 of the
/// canonical bytes.
pub open spec fn content_id(m: ImageModel) -> Seq<char> {
    "sha256:"@ + hex_lower(sha256_spec(canonical_bytes_spec(m)))
}

/// The XML declaration line of the pretty form.
pub open spec fn xml_declaration() -> Seq<char> {
    "<?xml version=\"1.0\" encoding=\"UTF-8\"?>\n"@
}

/// The pretty text XML: declaration, then the document with the id
/// computed from its content (whatever id it declares).
pub open spec fn pretty_xml(m: ImageModel) -> Seq<char> {
    xml_declaration() + session_doc(m, true, Some(content_id(m)), None)
}

/// Appending a piece to what was appended so far.
pub proof fn lemma_append_step(o: Seq<char>, acc: Seq<char>, p: Seq<char>)
    ensures
        (o + acc) + p == o + (acc + p),
{
    vstd::seq_lib::lemma_concat_associative(o, acc, p);
}

/// Appends the pretty-form line break.
pub fn push_nl(out: &mut String, pretty: bool)
    ensures
        final(out)@ == old(out)@ + nl(pretty),
{
    if pretty {
        push_char(out, '\n');
    } else {
        assert(out@ =~= old(out)@ + nl(pretty));
    }
}

/// Appends the pretty-form indentation.
pub fn push_ind(out: &mut String, pretty: bool, depth: usize)
    requires
        depth < 16,
    ensures
        final(out)@ == old(out)@ + ind(pretty, depth as nat),
{
    if pretty {
        let n = 2 * depth;
        let mut i: usize = 0;
        while i < n
            invariant
                i <= n,
                n == 2 * depth,
                out@ == old(out)@ + Seq::new(i as nat, |k: int| ' '),
            decreases n - i,
        {
            push_char(out, ' ');
            i = i + 1;
            proof {
                assert(Seq::new(i as nat, |k: int| ' ') =~= Seq::new((i - 1) as nat, |k: int| ' ').push(' '));
            }
        }
    } else {
        assert(out@ =~= old(out)@ + ind(pretty, depth as nat));
    }
}

fn write_text_el(out: &mut String, pretty: bool, depth: usize, tag: &str, text: &str)
    requires
        depth < 16,
    ensures
        final(out)@ == old(out)@ + text_el(pretty, depth as nat, tag@, text@),
{
    push_ind(out, pretty, depth);
    out.append("<");
    push_str(out, tag);
    out.append(">");
    push_escaped_text(out, text);
    out.append("</");
    push_str(out, tag);
    out.append(">");
    push_nl(out, pretty);
    proof {
        assert(out@ =~= old(out)@ + text_el(pretty, depth as nat, tag@, text@));
    }
}

fn write_text_el_string(out: &mut String, pretty: bool, depth: usize, tag: &str, text: String)
    requires
        depth < 16,
    ensures
        final(out)@ == old(out)@ + text_el(pretty, depth as nat, tag@, text@),
{
    write_text_el(out, pretty, depth, tag, text.as_str());
}

fn os_to_str(os: OsKind) -> (out: String)
    ensures
        out@ == os_text(os),
{
    let mut s = String::new();
    push_os(&mut s, os);
    s
}

fn codec_to_str(c: Codec) -> (out: String)
    ensures
        out@ == codec_text(c),
{
    let mut s = String::new();
    push_codec(&mut s, c);
    s
}

fn push_surface_open(out: &mut String, s: &SurfaceEntry, pretty: bool)
    ensures
        final(out)@ == old(out)@ + surface_open(s@, pretty),
{
    push_ind(out, pretty, 2);
    out.append("<surface id=\"");
    let sid = surface_id_to_str(&s.id);
    push_escaped_attr(out, sid.as_str());
    out.append("\" name=\"");
    push_escaped_attr(out, s.name.as_str());
    out.append("\" order=\"");
    push_decimal(out, s.order as u64);
    out.append("\">");
    push_nl(out, pretty);
    proof {
        assert(out@ =~= old(out)@ + surface_open(s@, pretty));
    }
}

fn push_host(out: &mut String, h: &HostEntry, pretty: bool)
    ensures
        final(out)@ == old(out)@ + host_xml(h@, pretty),
{
    let ghost o = out@;
    push_ind(out, pretty, 3);
    let ghost acc = ind(pretty, 3);
    out.append("<host>");
    proof { lemma_append_step(o, acc, "<host>"@); }
    let ghost acc = acc + "<host>"@;
    push_nl(out, pretty);
    proof { lemma_append_step(o, acc, nl(pretty)); }
    let ghost acc = acc + nl(pretty);
    write_text_el(out, pretty, 4, "address", h.address.as_str());
    proof { lemma_append_step(o, acc, text_el(pretty, 4, "address"@, h.address@)); }
    let ghost acc = acc + text_el(pretty, 4, "address"@, h.address@);
    write_text_el_string(out, pretty, 4, "os", os_to_str(h.os));
    proof { lemma_append_step(o, acc, text_el(pretty, 4, "os"@, os_text(h.os))); }
    let ghost acc = acc + text_el(pretty, 4, "os"@, os_text(h.os));
    write_text_el(out, pretty, 4, "machine", h.machine.as_str());
    proof { lemma_append_step(o, acc, text_el(pretty, 4, "machine"@, h.machine@)); }
    let ghost acc = acc + text_el(pretty, 4, "machine"@, h.machine@);
    write_text_el(out, pretty, 4, "capture", h.capture.as_str());
    proof { lemma_append_step(o, acc, text_el(pretty, 4, "capture"@, h.capture@)); }
    let ghost acc = acc + text_el(pretty, 4, "capture"@, h.capture@);
    push_ind(out, pretty, 3);
    proof { lemma_append_step(o, acc, ind(pretty, 3)); }
    let ghost acc = acc + ind(pretty, 3);
    out.append("</host>");
    proof { lemma_append_step(o, acc, "</host>"@); }
    let ghost acc = acc + "</host>"@;
    push_nl(out, pretty);
    proof { lemma_append_step(o, acc, nl(pretty)); }
}

fn push_dims(out: &mut String, s: &SurfaceEntry, pretty: bool)
    ensures
        final(out)@ == old(out)@ + dims_xml(s@, pretty),
{
    push_ind(out, pretty, 3);
    out.append("<dimensions height=\"");
    push_decimal(out, s.height as u64);
    out.append("\" width=\"");
    push_decimal(out, s.width as u64);
    out.append("\"/>");
    push_nl(out, pretty);
    proof {
        assert(out@ =~= old(out)@ + dims_xml(s@, pretty));
    }
}

fn write_surface(out: &mut String, s: &SurfaceEntry, pretty: bool)
    ensures
        final(out)@ == old(out)@ + surface_xml(s@, pretty),
{
    let ghost o = out@;
    push_surface_open(out, s, pretty);
    let ghost acc = surface_open(s@, pretty);
    push_host(out, &s.host, pretty);
    proof { lemma_append_step(o, acc, host_xml(s.host@, pretty)); }
    let ghost acc = acc + host_xml(s.host@, pretty);
    write_text_el_string(out, pretty, 3, "codec", codec_to_str(s.codec));
    proof { lemma_append_step(o, acc, text_el(pretty, 3, "codec"@, codec_text(s.codec))); }
    let ghost acc = acc + text_el(pretty, 3, "codec"@, codec_text(s.codec));
    push_dims(out, s, pretty);
    proof { lemma_append_step(o, acc, dims_xml(s@, pretty)); }
    let ghost acc = acc + dims_xml(s@, pretty);
    push_ind(out, pretty, 2);
    proof { lemma_append_step(o, acc, ind(pretty, 2)); }
    let ghost acc = acc + ind(pretty, 2);
    out.append("</surface>");
    proof { lemma_append_step(o, acc, "</surface>"@); }
    let ghost acc = acc + "</surface>"@;
    push_nl(out, pretty);
    proof {
        lemma_append_step(o, acc, nl(pretty));
        reveal(surface_xml);
    }
}

fn push_surfaces(out: &mut String, ss: &Vec<SurfaceEntry>, pretty: bool)
    ensures
        final(out)@ == old(out)@ + surfaces_xml(surfaces_view(ss@), pretty),
{
    let n = ss.len();
    let mut i: usize = 0;
    while i < n
        invariant
            n == ss@.len(),
            i <= n,
            out@ == old(out)@ + surfaces_xml(surfaces_view(ss@.take(i as int)), pretty),
        decreases n - i,
    {
        write_surface(out, &ss[i], pretty);
        i = i + 1;
        proof {
            let prev = surfaces_view(ss@.take((i - 1) as int));
            let cur = surfaces_view(ss@.take(i as int));
            assert(cur.drop_last() =~= prev);
            assert(cur.last() == ss@[i - 1]@);
        }
    }
    proof {
        assert(ss@.take(n as int) =~= ss@);
    }
}

/// The optional `<focus>` element.
pub open spec fn focus_xml(focus: Option<Seq<u8>>, pretty: bool) -> Seq<char> {
    match focus {
        Some(f) => ind(pretty, 2) + "<focus surface-ref=\""@ + escape_attr(surface_id_text(f))
            + "\"/>"@ + nl(pretty),
        None => Seq::empty(),
    }
}

fn push_focus(out: &mut String, focus: &Option<SurfaceId>, pretty: bool)
    ensures
        final(out)@ == old(out)@ + focus_xml(opt_id_view(*focus), pretty),
{
    match focus {
        Some(f) => {
            push_ind(out, pretty, 2);
            out.append("<focus surface-ref=\"");
            let t = surface_id_to_str(f);
            push_escaped_attr(out, t.as_str());
            out.append("\"/>");
            push_nl(out, pretty);
            proof {
                assert(out@ =~= old(out)@ + focus_xml(opt_id_view(*focus), pretty));
            }
        },
        None => {
            assert(out@ =~= old(out)@ + focus_xml(opt_id_view(*focus), pretty));
        },
    }
}

fn push_layout(out: &mut String, l: &Layout, pretty: bool)
    ensures
        final(out)@ == old(out)@ + layout_xml(l@, pretty),
{
    let ghost o = out@;
    push_ind(out, pretty, 1);
    out.append("<layout>");
    push_nl(out, pretty);
    push_ind(out, pretty, 2);
    out.append("<strip scroll-pos=\"");
    push_str(out, l.scroll_pos.as_str());
    out.append("\"/>");
    push_nl(out, pretty);
    let ghost acc = ind(pretty, 1) + "<layout>"@ + nl(pretty) + ind(pretty, 2) + "<strip scroll-pos=\""@
        + l.scroll_pos@ + "\"/>"@ + nl(pretty);
    proof {
        assert(out@ =~= o + acc);
    }
    push_focus(out, &l.focus, pretty);
    proof { lemma_append_step(o, acc, focus_xml(l@.focus, pretty)); }
    let ghost acc = acc + focus_xml(l@.focus, pretty);
    push_ind(out, pretty, 1);
    proof { lemma_append_step(o, acc, ind(pretty, 1)); }
    let ghost acc = acc + ind(pretty, 1);
    out.append("</layout>");
    proof { lemma_append_step(o, acc, "</layout>"@); }
    let ghost acc = acc + "</layout>"@;
    push_nl(out, pretty);
    proof { lemma_append_step(o, acc, nl(pretty)); }
}

impl SessionImage {
    /// Build an image from surfaces and layout, with no id yet and the
    /// current schema version.
    pub fn new(created: String, surfaces: Vec<SurfaceEntry>, layout: Layout) -> (out: SessionImage)
        ensures
            out@ == (ImageModel {
                id: None,
                created: created@,
                schema_version: 1,
                surfaces: surfaces_view(surfaces@),
                layout: layout@,
            }),
    {
        SessionImage { id: None, created, schema_version: SCHEMA_VERSION, surfaces, layout }
    }

    /// Serialise the `<session>` document: pretty or canonical, with the
    /// given id attribute (if any) and the given extra child block (if any)
    /// spliced in after `<layout>`.
    pub fn write_doc_with_id(&self, pretty: bool, id: Option<&str>, extra: Option<&str>) -> (out:
        String)
        ensures
            out@ == session_doc(
                self@,
                pretty,
                match id {
                    Some(i) => Some(i@),
                    None => None,
                },
                match extra {
                    Some(e) => Some(e@),
                    None => None,
                },
            ),
    {
        let ghost idv: Option<Seq<char>> = match id {
            Some(i) => Some(i@),
            None => None,
        };
        let mut s = String::new();
        s.append("<session xmlns=\"");
        s.append("https://simulboot.dev/session/v1");
        s.append("\"");
        s.append(" created=\"");
        push_escaped_attr(&mut s, self.created.as_str());
        s.append("\"");
        let ghost before_id = s@;
        match id {
            Some(i) => {
                s.append(" id=\"");
                push_escaped_attr(&mut s, i);
                s.append("\"");
            },
            None => {},
        }
        s.append(" schema-version=\"");
        push_decimal(&mut s, self.schema_version as u64);
        s.append("\"");
        s.append(">");
        proof {
            assert(s@ =~= session_open_tag(self@, idv));
        }
        let ghost open = s@;
        push_nl(&mut s, pretty);
        push_ind(&mut s, pretty, 1);
        s.append("<surfaces>");
        push_nl(&mut s, pretty);
        push_surfaces(&mut s, &self.surfaces, pretty);
        push_ind(&mut s, pretty, 1);
        s.append("</surfaces>");
        push_nl(&mut s, pretty);
        push_layout(&mut s, &self.layout, pretty);
        let ghost before_extra = s@;
        match extra {
            Some(e) => push_str(&mut s, e),
            None => {},
        }
        s.append("</session>");
        proof {
            let ev: Option<Seq<char>> = match extra {
                Some(e) => Some(e@),
                None => None,
            };
            assert(s@ =~= session_doc(self@, pretty, idv, ev));
        }
        s
    }

    /// The canonical document text (no declaration, no `<session>` id).
    pub fn canonical_text(&self) -> (out: String)
        ensures
            out@ == canonical_doc(self@),
    {
        self.write_doc_with_id(false, None, None)
    }

    /// The canonical, deterministic, whitespace-free serialisation used for
    /// content addressing. Omits the XML declaration and the `<session>` `id`
    /// attribute; attributes within each element are in sorted order.
    pub fn canonical_bytes(&self) -> (out: Vec<u8>)
        ensures
            out@ == canonical_bytes_spec(self@),
    {
        let t = self.canonical_text();
        slice_to_vec(t.as_str().as_bytes())
    }

    /// The content-addressed id of this image: `sha256:` followed by the hex
    /// SHA-256 of the canonical form. Independent of the current `id` field.
    pub fn compute_id(&self) -> (out: String)
        ensures
            out@ == content_id(self@),
    {
        let bytes = self.canonical_bytes();
        let digest = sha256(bytes.as_slice());
        let h = hex_encode(&digest);
        let mut out = String::from_str("sha256:");
        push_str(&mut out, h.as_str());
        out
    }

    /// This image with `id` set to the computed content hash.
    pub fn with_computed_id(self) -> (out: SessionImage)
        ensures
            out@ == (ImageModel { id: Some(content_id(self@)), ..self@ }),
    {
        let id = self.compute_id();
        SessionImage { id: Some(id), ..self }
    }

    /// Recompute the content hash and confirm it matches `self.id`: `Ok` when
    /// the declared id equals the computed one; `IntegrityMismatch` (declared,
    /// computed) when it differs; `Malformed` when there is no id.
    pub fn verify(&self) -> (r: Result<(), SessionError>)
        ensures
            match self@.id {
                Some(d) => if d == content_id(self@) {
                    r is Ok
                } else {
                    r matches Err(e) && e@ == ErrorModel::IntegrityMismatch {
                        declared: d,
                        computed: content_id(self@),
                    }
                },
                None => r matches Err(e) && e@ == ErrorModel::Malformed(
                    "no id to verify against"@,
                ),
            },
    {
        let computed = self.compute_id();
        match &self.id {
            Some(declared) => {
                if *declared == computed {
                    Ok(())
                } else {
                    Err(SessionError::IntegrityMismatch { declared: declared.clone(), computed })
                }
            },
            None => Err(SessionError::Malformed(String::from_str("no id to verify against"))),
        }
    }

    /// Human-readable, indented text XML including the id computed from the
    /// content (whatever id is declared) and an XML declaration.
    pub fn to_xml(&self) -> (out: String)
        ensures
            out@ == pretty_xml(self@),
    {
        let id = self.compute_id();
        let body = self.write_doc_with_id(true, Some(id.as_str()), None);
        let mut out = String::from_str("<?xml version=\"1.0\" encoding=\"UTF-8\"?>\n");
        push_str(&mut out, body.as_str());
        out
    }
}

// ---------------------------------------------------------------------------
// Parsing a surface id

/// What [`parse_surface_id`] gives for the text `s`.
pub open spec fn parse_surface_id_spec(s: Seq<char>) -> Result<Seq<u8>, ErrorModel> {
    if !has_prefix(s, "sha256:"@) {
        Err(ErrorModel::BadSurfaceId { value: s, reason: "missing 'sha256:' prefix"@ })
    } else {
        match hex_decode_spec(encode_utf8(s.subrange(7, s.len() as int))) {
            Err(e) => Err(ErrorModel::BadSurfaceId { value: s, reason: hex_error_display(e) }),
            Ok(bytes) => if bytes.len() == 32 {
                Ok(bytes)
            } else {
                Err(
                    ErrorModel::BadSurfaceId {
                        value: s,
                        reason: "expected 32 bytes, got "@ + decimal(bytes.len()),
                    },
                )
            },
        }
    }
}

/// Parse a `sha256:<64 hex chars>` string back into a [`SurfaceId`].
pub fn parse_surface_id(s: &str) -> (r: Result<SurfaceId, SessionError>)
    ensures
        rv(r) == parse_surface_id_spec(s@),
{
    proof {
        reveal_strlit("sha256:");
    }
    let cs = chars_of(s);
    let prefix = chars_of("sha256:");
    if !chars_start_with(cs.as_slice(), prefix.as_slice()) {
        return Err(
            SessionError::BadSurfaceId {
                value: String::from_str(s),
                reason: String::from_str("missing 'sha256:' prefix"),
            },
        );
    }
    let rest: &str = s.substring_char(7, cs.len());
    match hex_decode(rest.as_bytes()) {
        Err(e) => {
            let reason = hex_error_message(e);
            Err(SessionError::BadSurfaceId { value: String::from_str(s), reason })
        },
        Ok(bytes) => {
            if bytes.len() != 32 {
                let mut reason = String::from_str("expected 32 bytes, got ");
                push_decimal(&mut reason, bytes.len() as u64);
                return Err(SessionError::BadSurfaceId { value: String::from_str(s), reason });
            }
            let mut id: [u8; 32] = [0u8; 32];
            let mut i: usize = 0;
            while i < 32
                invariant
                    i <= 32,
                    bytes@.len() == 32,
                    forall|j: int| 0 <= j < i ==> id@[j] == bytes@[j],
                decreases 32 - i,
            {
                id[i] = bytes[i];
                i = i + 1;
            }
            proof {
                assert(id@ =~= bytes@);
            }
            Ok(id)
        },
    }
}

/// Reading back a written surface id gives the same id.
pub proof fn law_surface_id_roundtrip(id: Seq<u8>)
    requires
        id.len() == 32,
    ensures
        parse_surface_id_spec(surface_id_text(id)) == Ok::<Seq<u8>, ErrorModel>(id),
{
    reveal_strlit("sha256:");
    let t = surface_id_text(id);
    assert(t.subrange(0, 7) =~= "sha256:"@);
    assert(t.subrange(7, t.len() as int) =~= hex_lower(id));
    crate::digest::lemma_hex_text_decodes(id);
}

/// Whether `c` is a hexadecimal digit, in either case.
pub open spec fn is_hex_char(c: char) -> bool {
    let v = c as u32;
    (48 <= v <= 57) || (97 <= v <= 102) || (65 <= v <= 70)
}

/// The leading byte of a character outside ASCII is at least `0xC0`; an
/// ASCII character is its own byte.
proof fn lemma_scalar_bytes(c: u32)
    by (bit_vector)
    ensures
        (0xC0u8 | ((c >> 6u32) & 0x1Fu32) as u8) >= 0xC0u8,
        (0xE0u8 | ((c >> 12u32) & 0x0Fu32) as u8) >= 0xC0u8,
        (0xF0u8 | ((c >> 18u32) & 0x7u32) as u8) >= 0xC0u8,
        c <= 0x7f ==> (c & 0x7fu32) as u8 == c as u8,
{
}

/// The UTF-8 bytes of text: where all of them are hexadecimal digits, the
/// text is ASCII and each character is its own byte.
proof fn lemma_hex_bytes_ascii(t: Seq<char>)
    requires
        forall|j: int| 0 <= j < encode_utf8(t).len() ==> (#[trigger] crate::digest::hex_value(
            encode_utf8(t)[j],
        )) is Some,
    ensures
        encode_utf8(t).len() == t.len(),
        forall|i: int| 0 <= i < t.len() ==> encode_utf8(t)[i] == (#[trigger] t[i]) as u32 as u8 && (
        t[i] as u32) <= 0x7f,
    decreases t.len(),
{
    if t.len() > 0 {
        let c = t[0] as u32;
        let h = vstd::utf8::encode_scalar(c);
        let r = encode_utf8(t.drop_first());
        assert(encode_utf8(t) == h + r);
        lemma_scalar_bytes(c);
        if !vstd::utf8::has_width_1_encoding(c) {
            assert(h[0] >= 0xC0u8);
            assert(encode_utf8(t)[0] == h[0]);
            assert(crate::digest::hex_value(encode_utf8(t)[0]) is Some);
        }
        assert(h.len() == 1);
        assert forall|j: int| 0 <= j < r.len() implies (#[trigger] crate::digest::hex_value(r[j])) is Some by {
            assert(encode_utf8(t)[j + 1] == r[j]);
        }
        lemma_hex_bytes_ascii(t.drop_first());
        assert forall|i: int| 0 <= i < t.len() implies encode_utf8(t)[i] == (#[trigger] t[i]) as u32 as u8
            && (t[i] as u32) <= 0x7f by {
            if i > 0 {
                assert(t[i] == t.drop_first()[i - 1]);
                assert(encode_utf8(t)[i] == r[i - 1]);
            }
        }
    }
}

/// The UTF-8 bytes of ASCII text are its characters, one byte each.
proof fn lemma_ascii_bytes(t: Seq<char>)
    requires
        forall|i: int| 0 <= i < t.len() ==> (#[trigger] t[i] as u32) <= 0x7f,
    ensures
        encode_utf8(t).len() == t.len(),
        forall|i: int| 0 <= i < t.len() ==> encode_utf8(t)[i] == (#[trigger] t[i]) as u32 as u8,
    decreases t.len(),
{
    if t.len() > 0 {
        let c = t[0] as u32;
        lemma_scalar_bytes(c);
        assert(t[0] as u32 <= 0x7f);
        let r = encode_utf8(t.drop_first());
        assert(encode_utf8(t) == vstd::utf8::encode_scalar(c) + r);
        assert forall|i: int| 0 <= i < t.drop_first().len() implies (#[trigger] t.drop_first()[i] as u32)
            <= 0x7f by {
            assert(t.drop_first()[i] == t[i + 1]);
        }
        lemma_ascii_bytes(t.drop_first());
        assert forall|i: int| 0 <= i < t.len() implies encode_utf8(t)[i] == (#[trigger] t[i]) as u32 as u8 by {
            if i > 0 {
                assert(t[i] == t.drop_first()[i - 1]);
                assert(encode_utf8(t)[i] == r[i - 1]);
            }
        }
    }
}

/// Which texts are surface ids: exactly `sha256:` followed by 64
/// hexadecimal digits (in either case).
pub proof fn law_surface_id_accepts(s: Seq<char>)
    ensures
        parse_surface_id_spec(s) is Ok <==> (has_prefix(s, "sha256:"@) && s.len() == 71 && forall|i: int|
            7 <= i < 71 ==> is_hex_char(#[trigger] s[i])),
{
    reveal_strlit("sha256:");
    if has_prefix(s, "sha256:"@) {
        let t = s.subrange(7, s.len() as int);
        let e = encode_utf8(t);
        if parse_surface_id_spec(s) is Ok {
            assert(hex_decode_spec(e) is Ok);
            assert(crate::digest::hex_prefix_ok(e, e.len() as int));
            lemma_hex_bytes_ascii(t);
            assert(e.len() % 2 == 0);
            assert(crate::digest::hex_bytes(e).len() == 32);
            assert(t.len() == 64);
            assert forall|i: int| 7 <= i < 71 implies is_hex_char(#[trigger] s[i]) by {
                assert(s[i] == t[i - 7]);
                assert(crate::digest::hex_value(e[i - 7]) is Some);
            }
        }
        if s.len() == 71 && forall|i: int| 7 <= i < 71 ==> is_hex_char(#[trigger] s[i]) {
            assert forall|i: int| 0 <= i < t.len() implies (#[trigger] t[i] as u32) <= 0x7f by {
                assert(t[i] == s[i + 7]);
                assert(is_hex_char(s[i + 7]));
            }
            lemma_ascii_bytes(t);
            assert forall|j: int| 0 <= j < e.len() implies (#[trigger] crate::digest::hex_value(e[j])) is Some by {
                assert(t[j] == s[j + 7]);
                assert(is_hex_char(s[j + 7]));
            }
            assert(crate::digest::hex_prefix_ok(e, e.len() as int));
            assert(crate::digest::hex_bytes(e).len() == 32);
        }
    }
}

/// The content id is the SHA-256 of the UTF-8 bytes of the whole canonical
/// document: the `<session>` tag without its id, every surface and the
/// layout (see [`crate::canonical::law_canonical_records_layout`]), in
/// lower-case hex after `sha256:`.
pub proof fn law_content_id_hashes_canonical_doc(m: ImageModel)
    ensures
        content_id(m) == "sha256:"@ + hex_lower(sha256_spec(encode_utf8(session_doc(m, false, None, None)))),
{
}

/// The content id does not depend on the declared id: it is computed over
/// the canonical form, which leaves the id out.
pub proof fn law_content_id_ignores_id(m: ImageModel, id: Option<Seq<char>>)
    ensures
        content_id(ImageModel { id, ..m }) == content_id(m),
{
    assert(canonical_doc(ImageModel { id, ..m }) == canonical_doc(m));
}

/// An image that carries its computed id passes the integrity check: its
/// declared id is the id computed from it.
pub proof fn law_computed_id_verifies(m: ImageModel)
    ensures
        ({
            let w = ImageModel { id: Some(content_id(m)), ..m };
            w.id == Some(content_id(w))
        }),
{
    law_content_id_ignores_id(m, Some(content_id(m)));
}

} // verus!
