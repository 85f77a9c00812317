//! Reading a session image back from its XML.
//!
//! The reader's events (see [`crate::xml`]) drive a small state machine: the
//! `<session>` attributes, one surface builder at a time, the text of the
//! element being read, and the layout. The machine is specified token by
//! token ([`step_spec`]); [`image_from_tokens`] runs it over a token list and
//! [`SessionImage::from_xml`] over the tokens that quick-xml reads from a
//! document. Elements in other namespaces (the v1 coefficient block) have
//! local names that the machine ignores, so a v1 document reads as its base.
use vstd::prelude::*;
use crate::decimal::{float_syntax_chars, is_float_syntax};
use crate::session::{parse_surface_id, parse_surface_id_spec, rv, surfaces_view, ErrorModel,
    HostEntry, HostModel, ImageModel, Layout, LayoutModel, SessionError, SessionImage, SurfaceEntry,
    SurfaceModel, opt_id_view, opt_str_view};
use crate::text::{chars_of, parse_unsigned, parse_unsigned_chars, push_str, str_eq, string_from_chars};
use crate::wire::{Codec, OsKind, SurfaceId};
use crate::xml::{attrs_view, debug_string, debug_text, doc_error, doc_events, doc_tokens, ev_final, ev_tok,
    events_end, lemma_doc_tokens_prefix, next_token, reader_events, str_result, toks_view, xml_reader,
    AttrModel, EvModel, TokModel, XmlAttr, XmlTok};

verus! {

// ---------------------------------------------------------------------------
// Attributes

/// The value of the attribute named `key`: the first attribute with that
/// local name, unless a malformed attribute comes before it.
pub open spec fn attr_lookup(attrs: Seq<AttrModel>, key: Seq<char>) -> Result<Seq<char>, ErrorModel>
    decreases attrs.len(),
{
    if attrs.len() == 0 {
        Err(ErrorModel::Malformed("missing attribute @"@ + key))
    } else {
        match attrs[0] {
            AttrModel::Broken(m) => Err(ErrorModel::Xml(m)),
            AttrModel::Attr { key: k, value } => if k == key {
                match value {
                    Ok(v) => Ok(v),
                    Err(m) => Err(ErrorModel::Xml(m)),
                }
            } else {
                attr_lookup(attrs.drop_first(), key)
            },
        }
    }
}

/// The attribute named `key` read as a `u32`.
pub open spec fn attr_u32_spec(attrs: Seq<AttrModel>, key: Seq<char>) -> Result<u32, ErrorModel> {
    match attr_lookup(attrs, key) {
        Err(e) => Err(e),
        Ok(v) => match parse_unsigned(v, u32::MAX as nat) {
            Some(n) => Ok(n as u32),
            None => Err(
                ErrorModel::Malformed("attribute @"@ + key + " is not a u32: "@ + debug_text(v)),
            ),
        },
    }
}

/// The attribute named `key`, which must be a 32-bit floating-point literal
/// (kept as written).
pub open spec fn attr_float_spec(attrs: Seq<AttrModel>, key: Seq<char>) -> Result<Seq<char>, ErrorModel> {
    match attr_lookup(attrs, key) {
        Err(e) => Err(e),
        Ok(v) => if is_float_syntax(v) {
            Ok(v)
        } else {
            Err(ErrorModel::Malformed("attribute @"@ + key + " is not an f32: "@ + debug_text(v)))
        },
    }
}

/// The `<session>` attributes read so far.
pub struct AttrsModel {
    pub id: Option<Seq<char>>,
    pub created: Option<Seq<char>>,
    pub schema_version: Option<u32>,
}

/// The `<session>` attributes: every attribute is unescaped; `id`,
/// `created` and `schema-version` are kept (the last must be a `u32`).
pub open spec fn session_attrs_from(acc: AttrsModel, attrs: Seq<AttrModel>) -> Result<AttrsModel, ErrorModel>
    decreases attrs.len(),
{
    if attrs.len() == 0 {
        Ok(acc)
    } else {
        match attrs[0] {
            AttrModel::Broken(m) => Err(ErrorModel::Xml(m)),
            AttrModel::Attr { key, value } => match value {
                Err(m) => Err(ErrorModel::Xml(m)),
                Ok(v) => if key == "id"@ {
                    session_attrs_from(AttrsModel { id: Some(v), ..acc }, attrs.drop_first())
                } else if key == "created"@ {
                    session_attrs_from(AttrsModel { created: Some(v), ..acc }, attrs.drop_first())
                } else if key == "schema-version"@ {
                    match parse_unsigned(v, u32::MAX as nat) {
                        Some(n) => session_attrs_from(
                            AttrsModel { schema_version: Some(n as u32), ..acc },
                            attrs.drop_first(),
                        ),
                        None => Err(ErrorModel::Malformed("bad schema-version "@ + debug_text(v))),
                    }
                } else {
                    session_attrs_from(acc, attrs.drop_first())
                },
            },
        }
    }
}

/// No `<session>` attributes read.
pub open spec fn no_attrs() -> AttrsModel {
    AttrsModel { id: None, created: None, schema_version: None }
}

// ---------------------------------------------------------------------------
// Surfaces

/// A surface being read.
pub struct BuilderModel {
    pub id: Seq<u8>,
    pub name: Seq<char>,
    pub order: u32,
    pub address: Option<Seq<char>>,
    pub os: Option<OsKind>,
    pub machine: Option<Seq<char>>,
    pub capture: Option<Seq<char>>,
    pub codec: Option<Codec>,
    pub width: Option<u32>,
    pub height: Option<u32>,
}

/// A surface builder from the `<surface>` attributes `id`, `name`, `order`.
pub open spec fn builder_from(attrs: Seq<AttrModel>) -> Result<BuilderModel, ErrorModel> {
    match attr_lookup(attrs, "id"@) {
        Err(e) => Err(e),
        Ok(t) => match parse_surface_id_spec(t) {
            Err(e) => Err(e),
            Ok(id) => match attr_lookup(attrs, "name"@) {
                Err(e) => Err(e),
                Ok(name) => match attr_u32_spec(attrs, "order"@) {
                    Err(e) => Err(e),
                    Ok(order) => Ok(
                        BuilderModel {
                            id,
                            name,
                            order,
                            address: None,
                            os: None,
                            machine: None,
                            capture: None,
                            codec: None,
                            width: None,
                            height: None,
                        },
                    ),
                },
            },
        },
    }
}

/// The error for a surface that lacks a part.
pub open spec fn missing(part: Seq<char>) -> ErrorModel {
    ErrorModel::Malformed("surface missing <"@ + part + ">"@)
}

/// The finished surface, or the first part it lacks (address, os, machine,
/// capture, codec, width, height).
pub open spec fn build_spec(b: BuilderModel) -> Result<SurfaceModel, ErrorModel> {
    if b.address is None {
        Err(missing("address"@))
    } else if b.os is None {
        Err(missing("os"@))
    } else if b.machine is None {
        Err(missing("machine"@))
    } else if b.capture is None {
        Err(missing("capture"@))
    } else if b.codec is None {
        Err(missing("codec"@))
    } else if b.width is None {
        Err(missing("dimensions/@width"@))
    } else if b.height is None {
        Err(missing("dimensions/@height"@))
    } else {
        Ok(
            SurfaceModel {
                id: b.id,
                name: b.name,
                order: b.order,
                host: HostModel {
                    address: b.address.unwrap(),
                    os: b.os.unwrap(),
                    machine: b.machine.unwrap(),
                    capture: b.capture.unwrap(),
                },
                codec: b.codec.unwrap(),
                width: b.width.unwrap(),
                height: b.height.unwrap(),
            },
        )
    }
}

/// The OS that an XML spelling names.
pub open spec fn os_of(s: Seq<char>) -> Result<OsKind, ErrorModel> {
    if s == "macOS"@ {
        Ok(OsKind::MacOS)
    } else if s == "Windows"@ {
        Ok(OsKind::Windows)
    } else if s == "Linux"@ {
        Ok(OsKind::Linux)
    } else {
        Err(ErrorModel::UnknownEnum { kind: "os"@, value: s })
    }
}

/// The codec that an XML spelling names.
pub open spec fn codec_of(s: Seq<char>) -> Result<Codec, ErrorModel> {
    if s == "H265"@ {
        Ok(Codec::H265)
    } else if s == "AV1"@ {
        Ok(Codec::AV1)
    } else {
        Err(ErrorModel::UnknownEnum { kind: "codec"@, value: s })
    }
}

/// The XML spelling of each OS is fixed (`macOS`, `Windows`, `Linux`),
/// reading a spelling gives that OS, and each spelling names, in any case,
/// the same OS as a host's command-line name for it.
pub proof fn law_os_spellings(os: OsKind)
    ensures
        crate::session::os_text(OsKind::MacOS) == "macOS"@,
        crate::session::os_text(OsKind::Windows) == "Windows"@,
        crate::session::os_text(OsKind::Linux) == "Linux"@,
        os_of("macOS"@) == Ok::<OsKind, ErrorModel>(OsKind::MacOS),
        os_of("Windows"@) == Ok::<OsKind, ErrorModel>(OsKind::Windows),
        os_of("Linux"@) == Ok::<OsKind, ErrorModel>(OsKind::Linux),
        os_of(crate::session::os_text(os)) == Ok::<OsKind, ErrorModel>(os),
        crate::host::os_named(crate::session::os_text(os)) == Some(os),
{
    reveal_strlit("macOS");
    reveal_strlit("Windows");
    reveal_strlit("Linux");
    reveal_strlit("macos");
    reveal_strlit("mac");
    reveal_strlit("osx");
    reveal_strlit("windows");
    reveal_strlit("win");
    reveal_strlit("linux");
    assert("Windows"@.len() != "macOS"@.len());
    assert("Linux"@[0] != "macOS"@[0]);
    assert("Linux"@.len() != "Windows"@.len());
    let lm = crate::text::ascii_lowercase("macOS"@);
    let lw = crate::text::ascii_lowercase("Windows"@);
    let ll = crate::text::ascii_lowercase("Linux"@);
    assert(lm =~= "macos"@) by {
        assert(('O' as u32) == 79);
        assert(((79u32 + 32) as char) == 'o');
        assert(('S' as u32) == 83);
        assert(((83u32 + 32) as char) == 's');
    }
    assert(lw =~= "windows"@) by {
        assert(('W' as u32) == 87);
        assert(((87u32 + 32) as char) == 'w');
    }
    assert(ll =~= "linux"@) by {
        assert(('L' as u32) == 76);
        assert(((76u32 + 32) as char) == 'l');
    }
    assert("windows"@.len() != "macos"@.len() && "windows"@.len() != "mac"@.len() && "windows"@.len()
        != "osx"@.len());
    assert("linux"@[0] != "macos"@[0] && "linux"@.len() != "mac"@.len() && "linux"@.len() != "osx"@.len()
        && "linux"@.len() != "windows"@.len() && "linux"@.len() != "win"@.len());
}

/// The XML spelling of each codec is fixed (`H265`, `AV1`), and reading a
/// spelling gives that codec.
pub proof fn law_codec_spellings(c: Codec)
    ensures
        crate::session::codec_text(Codec::H265) == "H265"@,
        crate::session::codec_text(Codec::AV1) == "AV1"@,
        codec_of("H265"@) == Ok::<Codec, ErrorModel>(Codec::H265),
        codec_of("AV1"@) == Ok::<Codec, ErrorModel>(Codec::AV1),
        codec_of(crate::session::codec_text(c)) == Ok::<Codec, ErrorModel>(c),
{
    reveal_strlit("H265");
    reveal_strlit("AV1");
    assert("AV1"@.len() != "H265"@.len());
}

/// Which text element is being read.
#[derive(Clone, Copy, PartialEq, Eq, Structural)]
pub enum TextTarget {
    Address,
    Os,
    Machine,
    Capture,
    Codec,
}

/// The text element that a local name opens, if any.
pub open spec fn target_of(n: Seq<char>) -> Option<TextTarget> {
    if n == "address"@ {
        Some(TextTarget::Address)
    } else if n == "os"@ {
        Some(TextTarget::Os)
    } else if n == "machine"@ {
        Some(TextTarget::Machine)
    } else if n == "capture"@ {
        Some(TextTarget::Capture)
    } else if n == "codec"@ {
        Some(TextTarget::Codec)
    } else {
        None
    }
}

/// Applies the text of a finished text element to the current surface. The
/// host fields count only inside `<host>`; the codec anywhere.
pub open spec fn apply_text_spec(
    cur: Option<BuilderModel>,
    in_host: bool,
    target: Option<TextTarget>,
    text: Seq<char>,
) -> Result<BuilderModel, ErrorModel> {
    match cur {
        None => Err(ErrorModel::Malformed("text element outside <surface>"@)),
        Some(b) => match target {
            Some(TextTarget::Address) => if in_host {
                Ok(BuilderModel { address: Some(text), ..b })
            } else {
                Ok(b)
            },
            Some(TextTarget::Os) => if in_host {
                match os_of(text) {
                    Ok(os) => Ok(BuilderModel { os: Some(os), ..b }),
                    Err(e) => Err(e),
                }
            } else {
                Ok(b)
            },
            Some(TextTarget::Machine) => if in_host {
                Ok(BuilderModel { machine: Some(text), ..b })
            } else {
                Ok(b)
            },
            Some(TextTarget::Capture) => if in_host {
                Ok(BuilderModel { capture: Some(text), ..b })
            } else {
                Ok(b)
            },
            Some(TextTarget::Codec) => match codec_of(text) {
                Ok(c) => Ok(BuilderModel { codec: Some(c), ..b }),
                Err(e) => Err(e),
            },
            None => Ok(b),
        },
    }
}

// ---------------------------------------------------------------------------
// The machine

/// The reader's state.
pub struct StateModel {
    pub attrs: AttrsModel,
    pub surfaces: Seq<SurfaceModel>,
    pub scroll: Seq<char>,
    pub focus: Option<Seq<u8>>,
    pub cur: Option<BuilderModel>,
    pub in_host: bool,
    pub target: Option<TextTarget>,
    pub buf: Seq<char>,
}

/// Nothing read yet; the layout starts scrolled to `0` with no focus.
pub open spec fn initial_state() -> StateModel {
    StateModel {
        attrs: no_attrs(),
        surfaces: Seq::empty(),
        scroll: seq!['0'],
        focus: None,
        cur: None,
        in_host: false,
        target: None,
        buf: Seq::empty(),
    }
}

/// The effect of a start (or empty-element) tag; the text buffer is
/// cleared after it.
pub open spec fn open_spec(st: StateModel, n: Seq<char>, a: Seq<AttrModel>) -> Result<StateModel, ErrorModel> {
    let st = StateModel { buf: Seq::empty(), ..st };
    if n == "session"@ {
        match session_attrs_from(no_attrs(), a) {
            Ok(attrs) => Ok(StateModel { attrs, ..st }),
            Err(e) => Err(e),
        }
    } else if n == "surface"@ {
        match builder_from(a) {
            Ok(b) => Ok(StateModel { cur: Some(b), ..st }),
            Err(e) => Err(e),
        }
    } else if n == "host"@ {
        Ok(StateModel { in_host: true, ..st })
    } else if target_of(n) is Some {
        Ok(StateModel { target: target_of(n), ..st })
    } else if n == "dimensions"@ {
        match st.cur {
            None => Err(ErrorModel::Malformed("<dimensions> outside <surface>"@)),
            Some(b) => match attr_u32_spec(a, "width"@) {
                Err(e) => Err(e),
                Ok(w) => match attr_u32_spec(a, "height"@) {
                    Err(e) => Err(e),
                    Ok(h) => Ok(
                        StateModel { cur: Some(BuilderModel { width: Some(w), height: Some(h), ..b }), ..st },
                    ),
                },
            },
        }
    } else if n == "strip"@ {
        match attr_float_spec(a, "scroll-pos"@) {
            Ok(v) => Ok(StateModel { scroll: v, ..st }),
            Err(e) => Err(e),
        }
    } else if n == "focus"@ {
        match attr_lookup(a, "surface-ref"@) {
            Err(e) => Err(e),
            Ok(r) => match parse_surface_id_spec(r) {
                Ok(f) => Ok(StateModel { focus: Some(f), ..st }),
                Err(e) => Err(e),
            },
        }
    } else {
        Ok(st)
    }
}

/// The effect of an end tag.
pub open spec fn close_spec(st: StateModel, n: Seq<char>) -> Result<StateModel, ErrorModel> {
    if n == "host"@ {
        Ok(StateModel { in_host: false, ..st })
    } else if n == "surface"@ {
        match st.cur {
            None => Err(ErrorModel::Malformed("</surface> without start"@)),
            Some(b) => match build_spec(b) {
                Ok(s) => Ok(StateModel { surfaces: st.surfaces.push(s), cur: None, ..st }),
                Err(e) => Err(e),
            },
        }
    } else if target_of(n) is Some {
        match apply_text_spec(st.cur, st.in_host, st.target, st.buf) {
            Ok(b) => Ok(StateModel { cur: Some(b), target: None, buf: Seq::empty(), ..st }),
            Err(e) => Err(e),
        }
    } else {
        Ok(st)
    }
}

/// The effect of one token.
pub open spec fn step_spec(st: StateModel, tok: TokModel) -> Result<StateModel, ErrorModel> {
    match tok {
        TokModel::Open { name, attrs } => open_spec(st, name, attrs),
        TokModel::Close { name } => close_spec(st, name),
        TokModel::Text(t) => if st.target is Some {
            match t {
                Ok(x) => Ok(StateModel { buf: st.buf + x, ..st }),
                Err(m) => Err(ErrorModel::Xml(m)),
            }
        } else {
            Ok(st)
        },
        TokModel::Other => Ok(st),
    }
}

/// The state after a list of tokens, or the first error.
pub open spec fn run_spec(toks: Seq<TokModel>) -> Result<StateModel, ErrorModel>
    decreases toks.len(),
{
    if toks.len() == 0 {
        Ok(initial_state())
    } else {
        match run_spec(toks.drop_last()) {
            Ok(st) => step_spec(st, toks.last()),
            Err(e) => Err(e),
        }
    }
}

/// Inserts `x` after every element whose order is at most its own.
pub open spec fn insert_by_order(sorted: Seq<SurfaceModel>, x: SurfaceModel) -> Seq<SurfaceModel>
    decreases sorted.len(),
{
    if sorted.len() == 0 {
        seq![x]
    } else if sorted.last().order <= x.order {
        sorted.push(x)
    } else {
        insert_by_order(sorted.drop_last(), x).push(sorted.last())
    }
}

/// The surfaces in order of `order`, equal orders keeping their list order
/// (a stable sort by key).
pub open spec fn sort_by_order(s: Seq<SurfaceModel>) -> Seq<SurfaceModel>
    decreases s.len(),
{
    if s.len() == 0 {
        Seq::empty()
    } else {
        insert_by_order(sort_by_order(s.drop_last()), s.last())
    }
}

/// The image read: `created` is required; the schema version defaults to 1;
/// surfaces are sorted by order.
pub open spec fn finish_spec(st: StateModel) -> Result<ImageModel, ErrorModel> {
    match st.attrs.created {
        None => Err(ErrorModel::Malformed("missing session/@created"@)),
        Some(created) => Ok(
            ImageModel {
                id: st.attrs.id,
                created,
                schema_version: match st.attrs.schema_version {
                    Some(v) => v,
                    None => 1,
                },
                surfaces: sort_by_order(st.surfaces),
                layout: LayoutModel { scroll_pos: st.scroll, focus: st.focus },
            },
        ),
    }
}

/// The image that a token list reads as.
pub open spec fn parse_tokens_spec(toks: Seq<TokModel>) -> Result<ImageModel, ErrorModel> {
    match run_spec(toks) {
        Ok(st) => finish_spec(st),
        Err(e) => Err(e),
    }
}


// ---------------------------------------------------------------------------
// Reading attributes

proof fn lemma_attrs_skip(v: Seq<XmlAttr>, i: int)
    requires
        0 <= i < v.len(),
    ensures
        attrs_view(v).skip(i).len() > 0,
        attrs_view(v).skip(i)[0] == v[i]@,
        attrs_view(v).skip(i).drop_first() == attrs_view(v).skip(i + 1),
{
    assert(attrs_view(v).skip(i).drop_first() =~= attrs_view(v).skip(i + 1));
}

/// The value of the attribute named `key`.
pub(crate) fn lookup_attr(attrs: &Vec<XmlAttr>, key: &str) -> (r: Result<String, SessionError>)
    ensures
        rv(r) == attr_lookup(attrs_view(attrs@), key@),
{
    let n = attrs.len();
    let mut i: usize = 0;
    proof {
        assert(attrs_view(attrs@).skip(0) =~= attrs_view(attrs@));
    }
    while i < n
        invariant
            n == attrs@.len(),
            i <= n,
            attr_lookup(attrs_view(attrs@), key@) == attr_lookup(
                attrs_view(attrs@).skip(i as int),
                key@,
            ),
        decreases n - i,
    {
        proof {
            lemma_attrs_skip(attrs@, i as int);
        }
        match &attrs[i] {
            XmlAttr::Broken(m) => {
                return Err(SessionError::Xml(m.clone()));
            },
            XmlAttr::Attr { key: k, value } => {
                if str_eq(k.as_str(), key) {
                    return match value {
                        Ok(v) => Ok(v.clone()),
                        Err(m) => Err(SessionError::Xml(m.clone())),
                    };
                }
            },
        }
        i = i + 1;
    }
    proof {
        assert(attrs_view(attrs@).skip(n as int).len() == 0);
    }
    let mut msg = String::from_str("missing attribute @");
    push_str(&mut msg, key);
    Err(SessionError::Malformed(msg))
}

/// The attribute named `key` read as a `u32`.
fn attr_u32(attrs: &Vec<XmlAttr>, key: &str) -> (r: Result<u32, SessionError>)
    ensures
        rv(r) == attr_u32_spec(attrs_view(attrs@), key@),
{
    let v = lookup_attr(attrs, key)?;
    let cs = chars_of(v.as_str());
    match parse_unsigned_chars(cs.as_slice(), 4294967295u64) {
        Some(n) => Ok(n as u32),
        None => {
            let mut msg = String::from_str("attribute @");
            push_str(&mut msg, key);
            push_str(&mut msg, " is not a u32: ");
            let d = debug_string(v.as_str());
            push_str(&mut msg, d.as_str());
            proof {
                assert(msg@ =~= "attribute @"@ + key@ + " is not a u32: "@ + debug_text(v@));
            }
            Err(SessionError::Malformed(msg))
        },
    }
}

/// The attribute named `key`, which must be a floating-point literal.
fn attr_float(attrs: &Vec<XmlAttr>, key: &str) -> (r: Result<String, SessionError>)
    ensures
        rv(r) == attr_float_spec(attrs_view(attrs@), key@),
{
    let v = lookup_attr(attrs, key)?;
    let cs = chars_of(v.as_str());
    if float_syntax_chars(cs.as_slice()) {
        Ok(v)
    } else {
        let mut msg = String::from_str("attribute @");
        push_str(&mut msg, key);
        push_str(&mut msg, " is not an f32: ");
        let d = debug_string(v.as_str());
        push_str(&mut msg, d.as_str());
        proof {
            assert(msg@ =~= "attribute @"@ + key@ + " is not an f32: "@ + debug_text(v@));
        }
        Err(SessionError::Malformed(msg))
    }
}


/// The `<session>` attributes read so far.
struct SessionAttrs {
    id: Option<String>,
    created: Option<String>,
    schema_version: Option<u32>,
}

impl View for SessionAttrs {
    type V = AttrsModel;

    closed spec fn view(&self) -> AttrsModel {
        AttrsModel {
            id: opt_str_view(self.id),
            created: opt_str_view(self.created),
            schema_version: self.schema_version,
        }
    }
}

/// Reads the `<session>` attributes.
fn read_session_attrs(attrs: &Vec<XmlAttr>) -> (r: Result<SessionAttrs, SessionError>)
    ensures
        rv(r) == session_attrs_from(no_attrs(), attrs_view(attrs@)),
{
    let mut acc = SessionAttrs { id: None, created: None, schema_version: None };
    let n = attrs.len();
    let mut i: usize = 0;
    proof {
        assert(attrs_view(attrs@).skip(0) =~= attrs_view(attrs@));
    }
    while i < n
        invariant
            n == attrs@.len(),
            i <= n,
            session_attrs_from(no_attrs(), attrs_view(attrs@)) == session_attrs_from(
                acc@,
                attrs_view(attrs@).skip(i as int),
            ),
        decreases n - i,
    {
        proof {
            lemma_attrs_skip(attrs@, i as int);
        }
        match &attrs[i] {
            XmlAttr::Broken(m) => {
                return Err(SessionError::Xml(m.clone()));
            },
            XmlAttr::Attr { key, value } => {
                match value {
                    Err(m) => {
                        return Err(SessionError::Xml(m.clone()));
                    },
                    Ok(v) => {
                        if str_eq(key.as_str(), "id") {
                            acc.id = Some(v.clone());
                        } else if str_eq(key.as_str(), "created") {
                            acc.created = Some(v.clone());
                        } else if str_eq(key.as_str(), "schema-version") {
                            let cs = chars_of(v.as_str());
                            match parse_unsigned_chars(cs.as_slice(), 4294967295u64) {
                                Some(x) => {
                                    acc.schema_version = Some(x as u32);
                                },
                                None => {
                                    let mut msg = String::from_str("bad schema-version ");
                                    let d = debug_string(v.as_str());
                                    push_str(&mut msg, d.as_str());
                                    return Err(SessionError::Malformed(msg));
                                },
                            }
                        }
                    },
                }
            },
        }
        i = i + 1;
    }
    proof {
        assert(attrs_view(attrs@).skip(n as int).len() == 0);
    }
    Ok(acc)
}

/// A surface being read.
struct SurfaceBuilder {
    id: SurfaceId,
    name: String,
    order: u32,
    address: Option<String>,
    os: Option<OsKind>,
    machine: Option<String>,
    capture: Option<String>,
    codec: Option<Codec>,
    width: Option<u32>,
    height: Option<u32>,
}

impl View for SurfaceBuilder {
    type V = BuilderModel;

    closed spec fn view(&self) -> BuilderModel {
        BuilderModel {
            id: self.id@,
            name: self.name@,
            order: self.order,
            address: opt_str_view(self.address),
            os: self.os,
            machine: opt_str_view(self.machine),
            capture: opt_str_view(self.capture),
            codec: self.codec,
            width: self.width,
            height: self.height,
        }
    }
}

/// A surface builder from the `<surface>` attributes.
fn builder_from_attrs(attrs: &Vec<XmlAttr>) -> (r: Result<SurfaceBuilder, SessionError>)
    ensures
        rv(r) == builder_from(attrs_view(attrs@)),
{
    let t = lookup_attr(attrs, "id")?;
    let id = parse_surface_id(t.as_str())?;
    let name = lookup_attr(attrs, "name")?;
    let order = attr_u32(attrs, "order")?;
    Ok(
        SurfaceBuilder {
            id,
            name,
            order,
            address: None,
            os: None,
            machine: None,
            capture: None,
            codec: None,
            width: None,
            height: None,
        },
    )
}

impl SurfaceBuilder {
    /// The finished surface, or the first part it lacks.
    fn build(self) -> (r: Result<SurfaceEntry, SessionError>)
            ensures
                rv(r) == build_spec(self@),
    {
        let address = match self.address {
            Some(x) => x,
            None => {
                return Err(missing_part("address"));
            },
        };
        let os = match self.os {
            Some(x) => x,
            None => {
                return Err(missing_part("os"));
            },
        };
        let machine = match self.machine {
            Some(x) => x,
            None => {
                return Err(missing_part("machine"));
            },
        };
        let capture = match self.capture {
            Some(x) => x,
            None => {
                return Err(missing_part("capture"));
            },
        };
        let codec = match self.codec {
            Some(x) => x,
            None => {
                return Err(missing_part("codec"));
            },
        };
        let width = match self.width {
            Some(x) => x,
            None => {
                return Err(missing_part("dimensions/@width"));
            },
        };
        let height = match self.height {
            Some(x) => x,
            None => {
                return Err(missing_part("dimensions/@height"));
            },
        };
        Ok(
            SurfaceEntry {
                id: self.id,
                name: self.name,
                order: self.order,
                host: HostEntry { address, os, machine, capture },
                codec,
                width,
                height,
            },
        )
    }
}

/// The error for a surface that lacks `part`.
fn missing_part(part: &str) -> (e: SessionError)
    ensures
        e@ == missing(part@),
{
    let mut msg = String::from_str("surface missing <");
    push_str(&mut msg, part);
    push_str(&mut msg, ">");
    SessionError::Malformed(msg)
}

/// The OS that an XML spelling names.
fn os_from_str(s: &str) -> (r: Result<OsKind, SessionError>)
    ensures
        rv(r) == os_of(s@),
{
    if str_eq(s, "macOS") {
        Ok(OsKind::MacOS)
    } else if str_eq(s, "Windows") {
        Ok(OsKind::Windows)
    } else if str_eq(s, "Linux") {
        Ok(OsKind::Linux)
    } else {
        Err(SessionError::UnknownEnum { kind: String::from_str("os"), value: String::from_str(s) })
    }
}

/// The codec that an XML spelling names.
fn codec_from_str(s: &str) -> (r: Result<Codec, SessionError>)
    ensures
        rv(r) == codec_of(s@),
{
    if str_eq(s, "H265") {
        Ok(Codec::H265)
    } else if str_eq(s, "AV1") {
        Ok(Codec::AV1)
    } else {
        Err(
            SessionError::UnknownEnum { kind: String::from_str("codec"), value: String::from_str(s) },
        )
    }
}

/// The text element that a local name opens, if any.
fn target_for(n: &str) -> (r: Option<TextTarget>)
    ensures
        r == target_of(n@),
{
    if str_eq(n, "address") {
        Some(TextTarget::Address)
    } else if str_eq(n, "os") {
        Some(TextTarget::Os)
    } else if str_eq(n, "machine") {
        Some(TextTarget::Machine)
    } else if str_eq(n, "capture") {
        Some(TextTarget::Capture)
    } else if str_eq(n, "codec") {
        Some(TextTarget::Codec)
    } else {
        None
    }
}


/// The model of an optional surface builder.
spec fn opt_builder_view(o: Option<SurfaceBuilder>) -> Option<BuilderModel> {
    match o {
        Some(b) => Some(b@),
        None => None,
    }
}

/// Applies the text of a finished text element to the current surface.
fn apply_text(cur: Option<SurfaceBuilder>, in_host: bool, target: Option<TextTarget>, text: &str) -> (r:
    Result<SurfaceBuilder, SessionError>)
    ensures
        rv(r) == apply_text_spec(opt_builder_view(cur), in_host, target, text@),
{
    let b = match cur {
        None => {
            return Err(SessionError::Malformed(String::from_str("text element outside <surface>")));
        },
        Some(b) => b,
    };
    match target {
        Some(TextTarget::Address) => if in_host {
            Ok(SurfaceBuilder { address: Some(String::from_str(text)), ..b })
        } else {
            Ok(b)
        },
        Some(TextTarget::Os) => if in_host {
            let os = os_from_str(text)?;
            Ok(SurfaceBuilder { os: Some(os), ..b })
        } else {
            Ok(b)
        },
        Some(TextTarget::Machine) => if in_host {
            Ok(SurfaceBuilder { machine: Some(String::from_str(text)), ..b })
        } else {
            Ok(b)
        },
        Some(TextTarget::Capture) => if in_host {
            Ok(SurfaceBuilder { capture: Some(String::from_str(text)), ..b })
        } else {
            Ok(b)
        },
        Some(TextTarget::Codec) => {
            let c = codec_from_str(text)?;
            Ok(SurfaceBuilder { codec: Some(c), ..b })
        },
        None => Ok(b),
    }
}

/// The reader's state.
struct ParseState {
    attrs: SessionAttrs,
    surfaces: Vec<SurfaceEntry>,
    scroll: String,
    focus: Option<SurfaceId>,
    cur: Option<SurfaceBuilder>,
    in_host: bool,
    target: Option<TextTarget>,
    buf: String,
}

impl View for ParseState {
    type V = StateModel;

    closed spec fn view(&self) -> StateModel {
        StateModel {
            attrs: self.attrs@,
            surfaces: surfaces_view(self.surfaces@),
            scroll: self.scroll@,
            focus: opt_id_view(self.focus),
            cur: opt_builder_view(self.cur),
            in_host: self.in_host,
            target: self.target,
            buf: self.buf@,
        }
    }
}

/// Nothing read yet.
fn initial() -> (st: ParseState)
    ensures
        st@ == initial_state(),
{
    let mut scroll = String::new();
    crate::text::push_char(&mut scroll, '0');
    let st = ParseState {
        attrs: SessionAttrs { id: None, created: None, schema_version: None },
        surfaces: Vec::new(),
        scroll,
        focus: None,
        cur: None,
        in_host: false,
        target: None,
        buf: String::new(),
    };
    proof {
        assert(st@.surfaces =~= Seq::<SurfaceModel>::empty());
        assert(st@.scroll =~= seq!['0']);
    }
    st
}

/// The effect of a start or empty-element tag.
fn open_tag(st: ParseState, name: &str, attrs: &Vec<XmlAttr>) -> (r: Result<ParseState, SessionError>)
    ensures
        rv(r) == open_spec(st@, name@, attrs_view(attrs@)),
{
    let ParseState { attrs: sa, surfaces, scroll, focus, cur, in_host, target, buf: _ } = st;
    let buf = String::new();
    if str_eq(name, "session") {
        let a = read_session_attrs(attrs)?;
        Ok(ParseState { attrs: a, surfaces, scroll, focus, cur, in_host, target, buf })
    } else if str_eq(name, "surface") {
        let b = builder_from_attrs(attrs)?;
        Ok(ParseState { attrs: sa, surfaces, scroll, focus, cur: Some(b), in_host, target, buf })
    } else if str_eq(name, "host") {
        Ok(ParseState { attrs: sa, surfaces, scroll, focus, cur, in_host: true, target, buf })
    } else if target_for(name).is_some() {
        let t = target_for(name);
        Ok(ParseState { attrs: sa, surfaces, scroll, focus, cur, in_host, target: t, buf })
    } else if str_eq(name, "dimensions") {
        match cur {
            None => Err(SessionError::Malformed(String::from_str("<dimensions> outside <surface>"))),
            Some(b) => {
                let w = attr_u32(attrs, "width")?;
                let h = attr_u32(attrs, "height")?;
                let nb = SurfaceBuilder { width: Some(w), height: Some(h), ..b };
                Ok(ParseState { attrs: sa, surfaces, scroll, focus, cur: Some(nb), in_host, target, buf })
            },
        }
    } else if str_eq(name, "strip") {
        let v = attr_float(attrs, "scroll-pos")?;
        Ok(ParseState { attrs: sa, surfaces, scroll: v, focus, cur, in_host, target, buf })
    } else if str_eq(name, "focus") {
        let r = lookup_attr(attrs, "surface-ref")?;
        let f = parse_surface_id(r.as_str())?;
        Ok(ParseState { attrs: sa, surfaces, scroll, focus: Some(f), cur, in_host, target, buf })
    } else {
        Ok(ParseState { attrs: sa, surfaces, scroll, focus, cur, in_host, target, buf })
    }
}

/// The effect of an end tag.
fn close_tag(st: ParseState, name: &str) -> (r: Result<ParseState, SessionError>)
    ensures
        rv(r) == close_spec(st@, name@),
{
    let ParseState { attrs: sa, surfaces, scroll, focus, cur, in_host, target, buf } = st;
    if str_eq(name, "host") {
        Ok(ParseState { attrs: sa, surfaces, scroll, focus, cur, in_host: false, target, buf })
    } else if str_eq(name, "surface") {
        match cur {
            None => Err(SessionError::Malformed(String::from_str("</surface> without start"))),
            Some(b) => {
                let s = b.build()?;
                let ghost old_view = surfaces_view(surfaces@);
                let mut surfaces = surfaces;
                surfaces.push(s);
                proof {
                    assert(surfaces_view(surfaces@) =~= old_view.push(s@));
                }
                Ok(ParseState { attrs: sa, surfaces, scroll, focus, cur: None, in_host, target, buf })
            },
        }
    } else if target_for(name).is_some() {
        let b = apply_text(cur, in_host, target, buf.as_str())?;
        Ok(
            ParseState {
                attrs: sa,
                surfaces,
                scroll,
                focus,
                cur: Some(b),
                in_host,
                target: None,
                buf: String::new(),
            },
        )
    } else {
        Ok(ParseState { attrs: sa, surfaces, scroll, focus, cur, in_host, target, buf })
    }
}

/// The effect of one token.
fn step(st: ParseState, tok: &XmlTok) -> (r: Result<ParseState, SessionError>)
    ensures
        rv(r) == step_spec(st@, tok@),
{
    match tok {
        XmlTok::Open { name, attrs } => open_tag(st, name.as_str(), attrs),
        XmlTok::Close { name } => close_tag(st, name.as_str()),
        XmlTok::Text(t) => {
            if st.target.is_some() {
                match t {
                    Ok(x) => {
                        let ParseState { attrs, surfaces, scroll, focus, cur, in_host, target, buf } =
                            st;
                        let mut buf = buf;
                        push_str(&mut buf, x.as_str());
                        Ok(ParseState { attrs, surfaces, scroll, focus, cur, in_host, target, buf })
                    },
                    Err(m) => Err(SessionError::Xml(m.clone())),
                }
            } else {
                Ok(st)
            }
        },
        XmlTok::Other => Ok(st),
    }
}


// ---------------------------------------------------------------------------
// Sorting by order

/// Inserting by order puts `x` at the position after which every element
/// has a larger order.
proof fn lemma_insert_by_order_at(s: Seq<SurfaceModel>, x: SurfaceModel, p: int)
    requires
        0 <= p <= s.len(),
        forall|j: int| p <= j < s.len() ==> (#[trigger] s[j]).order > x.order,
        p > 0 ==> s[p - 1].order <= x.order,
    ensures
        insert_by_order(s, x) == s.insert(p, x),
    decreases s.len(),
{
    if s.len() == 0 {
        assert(insert_by_order(s, x) =~= s.insert(p, x));
    } else if s.last().order <= x.order {
        assert(p == s.len());
        assert(insert_by_order(s, x) =~= s.insert(p, x));
    } else {
        let d = s.drop_last();
        assert(p < s.len());
        assert forall|j: int| p <= j < d.len() implies (#[trigger] d[j]).order > x.order by {
            assert(d[j] == s[j]);
        }
        lemma_insert_by_order_at(d, x, p);
        assert(insert_by_order(s, x) =~= s.insert(p, x));
    }
}

/// Inserts `x` after the last surface whose order is at most its own.
fn insert_by_order_exec(v: &mut Vec<SurfaceEntry>, x: SurfaceEntry)
    ensures
        surfaces_view(final(v)@) == insert_by_order(surfaces_view(old(v)@), x@),
{
    let mut p: usize = v.len();
    while p > 0 && v[p - 1].order > x.order
        invariant
            p <= v@.len(),
            forall|j: int| p <= j < v@.len() ==> (#[trigger] v@[j]).order > x.order,
        decreases p,
    {
        p = p - 1;
    }
    let ghost before = surfaces_view(v@);
    proof {
        assert forall|j: int| p <= j < before.len() implies (#[trigger] before[j]).order > x.order by {
            assert(before[j] == v@[j]@);
        }
        if p > 0 {
            assert(before[p - 1] == v@[p - 1]@);
        }
        lemma_insert_by_order_at(before, x@, p as int);
    }
    v.insert(p, x);
    proof {
        assert(surfaces_view(v@) =~= before.insert(p as int, x@));
    }
}

/// The surfaces sorted by order, equal orders keeping their list order.
fn sort_by_order_exec(v: &Vec<SurfaceEntry>) -> (out: Vec<SurfaceEntry>)
    ensures
        surfaces_view(out@) == sort_by_order(surfaces_view(v@)),
{
    let ghost all = surfaces_view(v@);
    let mut out: Vec<SurfaceEntry> = Vec::new();
    let n = v.len();
    let mut i: usize = 0;
    proof {
        assert(all.take(0) =~= Seq::<SurfaceModel>::empty());
        assert(surfaces_view(out@) =~= Seq::<SurfaceModel>::empty());
    }
    while i < n
        invariant
            n == v@.len(),
            i <= n,
            all == surfaces_view(v@),
            surfaces_view(out@) == sort_by_order(all.take(i as int)),
        decreases n - i,
    {
        proof {
            assert(all.take(i + 1).drop_last() =~= all.take(i as int));
            assert(all.take(i + 1).last() == v@[i as int]@);
        }
        insert_by_order_exec(&mut out, v[i].duplicate());
        i = i + 1;
    }
    proof {
        assert(all.take(n as int) =~= all);
    }
    out
}

// ---------------------------------------------------------------------------
// Whole documents

/// The image that the final state reads as.
fn finish(st: ParseState) -> (r: Result<SessionImage, SessionError>)
    ensures
        rv(r) == finish_spec(st@),
{
    let ParseState { attrs, surfaces, scroll, focus, cur: _, in_host: _, target: _, buf: _ } = st;
    let created = match attrs.created {
        None => {
            return Err(SessionError::Malformed(String::from_str("missing session/@created")));
        },
        Some(c) => c,
    };
    let sorted = sort_by_order_exec(&surfaces);
    let schema_version = match attrs.schema_version {
        Some(v) => v,
        None => crate::session::SCHEMA_VERSION,
    };
    Ok(
        SessionImage {
            id: attrs.id,
            created,
            schema_version,
            surfaces: sorted,
            layout: Layout { scroll_pos: scroll, focus },
        },
    )
}

/// A token list whose prefix fails fails the same way whatever follows.
proof fn lemma_run_err_stays(t: Seq<TokModel>, i: int, j: int)
    requires
        0 <= i <= j <= t.len(),
        run_spec(t.take(i)) is Err,
    ensures
        run_spec(t.take(j)) == run_spec(t.take(i)),
    decreases j - i,
{
    if j > i {
        lemma_run_err_stays(t, i, j - 1);
        assert(t.take(j).drop_last() =~= t.take(j - 1));
    }
}

/// Reads a session image from a list of tokens. Local names select the
/// elements; elements of other names are passed over.
pub fn image_from_tokens(toks: &Vec<XmlTok>) -> (r: Result<SessionImage, SessionError>)
    ensures
        rv(r) == parse_tokens_spec(toks_view(toks@)),
{
    let ghost t = toks_view(toks@);
    let mut st = initial();
    let n = toks.len();
    let mut i: usize = 0;
    proof {
        assert(t.take(0) =~= Seq::<TokModel>::empty());
    }
    while i < n
        invariant
            n == toks@.len(),
            t == toks_view(toks@),
            t.len() == n,
            i <= n,
            run_spec(t.take(i as int)) == Ok::<StateModel, ErrorModel>(st@),
        decreases n - i,
    {
        proof {
            assert(t.take(i + 1).drop_last() =~= t.take(i as int));
            assert(t.take(i + 1).last() == toks@[i as int]@);
        }
        match step(st, &toks[i]) {
            Ok(next) => {
                st = next;
            },
            Err(e) => {
                proof {
                    lemma_run_err_stays(t, i + 1, n as int);
                    assert(t.take(n as int) =~= t);
                }
                return Err(e);
            },
        }
        i = i + 1;
    }
    proof {
        assert(t.take(n as int) =~= t);
    }
    finish(st)
}

/// What reading a document gives, from the events that the XML reader
/// yields for it: the tokens before the last event read as an image; when
/// the reader stops on an error, that error, unless the tokens read before
/// it had already failed.
pub open spec fn read_document_spec(evs: Seq<EvModel>) -> Result<ImageModel, ErrorModel> {
    let toks = doc_tokens(evs);
    match doc_error(evs) {
        None => parse_tokens_spec(toks),
        Some(m) => match run_spec(toks) {
            Err(e) => Err(e),
            Ok(_) => Err(ErrorModel::Xml(m)),
        },
    }
}

/// A token list whose prefix fails fails the same way.
pub proof fn lemma_run_prefix_err(t: Seq<TokModel>, k: int)
    requires
        0 <= k <= t.len(),
        run_spec(t.take(k)) is Err,
    ensures
        run_spec(t) == run_spec(t.take(k)),
{
    lemma_run_err_stays(t, k, t.len() as int);
    assert(t.take(t.len() as int) =~= t);
}

impl SessionImage {
    /// Parse a session image from text XML, keeping the declared `id` so that
    /// it can later be checked with [`SessionImage::verify`]. The result is
    /// what [`read_document_spec`] makes of the events that quick-xml's
    /// reader yields for the text, whitespace around text trimmed.
    pub fn from_xml(xml: &str) -> (r: Result<SessionImage, SessionError>)
        ensures
            rv(r) == read_document_spec(doc_events(xml@)),
    {
        let mut reader = xml_reader(xml);
        let ghost evs = doc_events(xml@);
        let mut st = initial();
        let ghost mut k: int = 0;
        proof {
            assert(evs.take(0).map_values(|e: EvModel| ev_tok(e)) =~= Seq::<TokModel>::empty());
        }
        loop
            invariant
                evs == doc_events(xml@),
                events_end(evs),
                0 <= k < evs.len(),
                reader_events(reader) == evs.skip(k),
                run_spec(evs.take(k).map_values(|e: EvModel| ev_tok(e))) == Ok::<StateModel, ErrorModel>(st@),
            decreases evs.len() - k,
        {
            proof {
                lemma_doc_tokens_prefix(evs, k);
                assert(evs.skip(k)[0] == evs[k]);
                assert(evs.skip(k).drop_first() =~= evs.skip(k + 1));
            }
            let ghost toks = doc_tokens(evs);
            match next_token(&mut reader) {
                Err(m) => {
                    proof {
                        assert(k == evs.len() - 1);
                        assert(toks =~= evs.take(k).map_values(|e: EvModel| ev_tok(e)));
                    }
                    return Err(SessionError::Xml(m));
                },
                Ok(None) => {
                    proof {
                        assert(k == evs.len() - 1);
                        assert(toks =~= evs.take(k).map_values(|e: EvModel| ev_tok(e)));
                    }
                    return finish(st);
                },
                Ok(Some(tok)) => {
                    proof {
                        assert(!ev_final(evs[k]));
                        assert(k + 1 < evs.len());
                        lemma_doc_tokens_prefix(evs, k + 1);
                        let p = evs.take(k + 1).map_values(|e: EvModel| ev_tok(e));
                        assert(p.drop_last() =~= evs.take(k).map_values(|e: EvModel| ev_tok(e)));
                        assert(p.last() == tok@);
                    }
                    match step(st, &tok) {
                        Ok(next) => {
                            st = next;
                        },
                        Err(e) => {
                            proof {
                                assert(toks.take(k + 1) == evs.take(k + 1).map_values(|e: EvModel| ev_tok(e)));
                                let p = toks.take(k + 1);
                                assert(p.drop_last() =~= evs.take(k).map_values(|e: EvModel| ev_tok(e)));
                                assert(p.last() == tok@);
                                lemma_run_prefix_err(toks, k + 1);
                            }
                            return Err(e);
                        },
                    }
                    proof {
                        k = k + 1;
                    }
                },
            }
        }
    }
}

} // verus!
