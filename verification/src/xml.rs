//! XML reading through quick-xml, and the plain tokens that the session-image
//! parsers work on.
//!
//! The events that quick-xml's reader yields for a text are a function of
//! the text (and of the trimming setting): they are named by
//! [`xml_events`], and a reader is seen as the list of events it has still
//! to yield. Tag, text and attribute events are seen through the bytes they
//! hold. From these, the tokens of a document are stated exactly
//! ([`ev_tok`], [`doc_tokens`]), and the parsers are verified for every
//! token sequence.
use vstd::prelude::*;
use quick_xml::Reader;
use quick_xml::events::{BytesEnd, BytesStart, BytesText, Event};
use quick_xml::events::attributes::{Attribute, Attributes};
use crate::text::{chars_of, chars_range, string_from_chars};

verus! {

#[verifier::external_type_specification]
#[verifier::external_body]
#[verifier::reject_recursive_types(R)]
pub struct ExReader<R>(Reader<R>);

#[verifier::external_type_specification]
#[verifier::external_body]
pub struct ExBytesStart<'a>(BytesStart<'a>);

#[verifier::external_type_specification]
#[verifier::external_body]
pub struct ExBytesEnd<'a>(BytesEnd<'a>);

#[verifier::external_type_specification]
#[verifier::external_body]
pub struct ExBytesText<'a>(BytesText<'a>);

#[verifier::external_type_specification]
#[verifier::external_body]
pub struct ExAttributes<'a>(Attributes<'a>);

#[verifier::external_type_specification]
#[verifier::external_body]
pub struct ExAttribute<'a>(Attribute<'a>);

#[verifier::external_type_specification]
#[verifier::external_body]
pub struct ExAttrError(quick_xml::events::attributes::AttrError);

/// One event of the quick-xml reader, told apart by kind.
pub enum RawEvent<'a> {
    Start(BytesStart<'a>),
    Empty(BytesStart<'a>),
    End(BytesEnd<'a>),
    Text(BytesText<'a>),
    Eof,
    /// A comment, declaration, processing instruction, CDATA or DOCTYPE.
    Other,
}

/// An event of the quick-xml reader as plain values: the raw bytes that a
/// tag or text event holds (a tag's bytes begin with its name of
/// `name_len` bytes), or the message of the reader's error.
pub enum EvModel {
    Start { buf: Seq<u8>, name_len: nat },
    Empty { buf: Seq<u8>, name_len: nat },
    End { name: Seq<u8> },
    Text { content: Seq<u8> },
    Eof,
    Other,
    Error(Seq<char>),
}

/// An event after which the reader yields nothing new: the end of the
/// document or an error.
pub open spec fn ev_final(e: EvModel) -> bool {
    e is Eof || e is Error
}

/// A complete list of events: it ends with the end of the document or an
/// error, and only there.
pub open spec fn events_end(s: Seq<EvModel>) -> bool {
    &&& s.len() > 0
    &&& ev_final(s.last())
    &&& forall|i: int| 0 <= i < s.len() - 1 ==> !ev_final(#[trigger] s[i])
}

/// The events that a quick-xml reader over `text` yields, with whitespace
/// around text trimmed or not, up to and including the end of the document
/// or the first error. A function of the text and the setting alone.
pub uninterp spec fn xml_events(text: Seq<char>, trim: bool) -> Seq<EvModel>;

/// What a reader holds: the events it has still to yield.
pub uninterp spec fn reader_events(r: Reader<&[u8]>) -> Seq<EvModel>;

/// The text a reader was made over.
pub uninterp spec fn reader_text(r: Reader<&[u8]>) -> Seq<char>;

/// What a start (or empty-element) tag event holds: the bytes of the tag
/// between `<` and `>`.
pub uninterp spec fn start_bytes(e: BytesStart) -> Seq<u8>;

/// How many of a start tag's bytes are its name.
pub uninterp spec fn start_name_len(e: BytesStart) -> nat;

/// What an end tag event holds: the bytes of its name.
pub uninterp spec fn end_bytes(e: BytesEnd) -> Seq<u8>;

/// What a text event holds: its raw (escaped) bytes.
pub uninterp spec fn text_bytes(t: BytesText) -> Seq<u8>;

/// `quick_xml::Reader::from_str`: a reader over `xml`, not trimming text.
#[verifier::external_body]
fn reader_from_str(xml: &str) -> (out: Reader<&[u8]>)
    ensures
        reader_text(out) == xml@,
        reader_events(out) == xml_events(xml@, false),
        events_end(reader_events(out)),
{
    Reader::from_str(xml)
}

/// `Reader::trim_text` on a reader that has read nothing yet: whether
/// whitespace around text is dropped (and whitespace-only text not
/// reported).
#[verifier::external_body]
fn set_trim_text(r: &mut Reader<&[u8]>, trim: bool)
    requires
        reader_events(*old(r)) == xml_events(reader_text(*old(r)), false),
    ensures
        reader_text(*final(r)) == reader_text(*old(r)),
        reader_events(*final(r)) == xml_events(reader_text(*old(r)), trim),
        events_end(reader_events(*final(r))),
{
    r.trim_text(trim);
}

/// The events that the session-image readers read of a text: whitespace
/// around text trimmed.
pub open spec fn doc_events(xml: Seq<char>) -> Seq<EvModel> {
    xml_events(xml, true)
}

/// A reader over `xml` that drops the whitespace around text, so that the
/// indentation between tags is not reported.
pub(crate) fn xml_reader(xml: &str) -> (out: Reader<&[u8]>)
    ensures
        reader_text(out) == xml@,
        reader_events(out) == doc_events(xml@),
        events_end(reader_events(out)),
{
    let mut r = reader_from_str(xml);
    set_trim_text(&mut r, true);
    r
}

/// Whether an event handed out by the reader is the plain event `e`.
pub open spec fn raw_event_is(out: Result<RawEvent, String>, e: EvModel) -> bool {
    match out {
        Ok(RawEvent::Start(b)) => e == EvModel::Start { buf: start_bytes(b), name_len: start_name_len(b) },
        Ok(RawEvent::Empty(b)) => e == EvModel::Empty { buf: start_bytes(b), name_len: start_name_len(b) },
        Ok(RawEvent::End(b)) => e == EvModel::End { name: end_bytes(b) },
        Ok(RawEvent::Text(t)) => e == EvModel::Text { content: text_bytes(t) },
        Ok(RawEvent::Eof) => e == EvModel::Eof,
        Ok(RawEvent::Other) => e == EvModel::Other,
        Err(m) => e == EvModel::Error(m@),
    }
}

/// `Reader::read_event`: the next event, or the reader's error message.
/// While events remain, it hands out the first and keeps the rest.
#[verifier::external_body]
pub(crate) fn read_raw_event<'a>(r: &mut Reader<&'a [u8]>) -> (out: Result<RawEvent<'a>, String>)
    ensures
        reader_text(*final(r)) == reader_text(*old(r)),
        reader_events(*old(r)).len() > 0 ==> raw_event_is(out, reader_events(*old(r))[0])
            && reader_events(*final(r)) == reader_events(*old(r)).drop_first(),
{
    match r.read_event() {
        Ok(Event::Start(e)) => Ok(RawEvent::Start(e)),
        Ok(Event::Empty(e)) => Ok(RawEvent::Empty(e)),
        Ok(Event::End(e)) => Ok(RawEvent::End(e)),
        Ok(Event::Text(t)) => Ok(RawEvent::Text(t)),
        Ok(Event::Eof) => Ok(RawEvent::Eof),
        Ok(_) => Ok(RawEvent::Other),
        Err(e) => Err(e.to_string()),
    }
}

/// `BytesStart::name`: the raw (qualified) tag name, the first
/// `name_len` bytes of the tag.
#[verifier::external_body]
pub(crate) fn start_name(e: &BytesStart) -> (out: Vec<u8>)
    ensures
        out@ == start_bytes(*e).take(start_name_len(*e) as int),
{
    e.name().as_ref().to_vec()
}

/// `BytesEnd::name`: the raw (qualified) tag name.
#[verifier::external_body]
pub(crate) fn end_name(e: &BytesEnd) -> (out: Vec<u8>)
    ensures
        out@ == end_bytes(*e),
{
    e.name().as_ref().to_vec()
}

/// What `BytesText::unescape` gives for a text event of these raw bytes:
/// the UTF-8 text with entities replaced, or the message of its error.
pub uninterp spec fn text_unescape(raw: Seq<u8>) -> Result<Seq<char>, Seq<char>>;

/// `BytesText::unescape`: the text with entities replaced, or the error
/// message.
#[verifier::external_body]
pub(crate) fn text_unescaped(t: &BytesText) -> (out: Result<String, String>)
    ensures
        str_result(out) == text_unescape(text_bytes(*t)),
{
    match t.unescape() {
        Ok(c) => Ok(c.into_owned()),
        Err(e) => Err(e.to_string()),
    }
}

/// An attribute as the attribute iterator hands it out: its raw key and
/// raw value bytes, or the message of a malformed one.
pub enum AttrEv {
    Attr { key: Seq<u8>, value: Seq<u8> },
    Broken(Seq<char>),
}

/// What quick-xml's attribute iterator yields over the tag bytes `buf`
/// from position `pos` (XML, not HTML, rules): a function of the bytes.
pub uninterp spec fn tag_attrs(buf: Seq<u8>, pos: nat) -> Seq<AttrEv>;

/// What an attribute iterator holds: the attributes it has still to yield.
pub uninterp spec fn attrs_pending(a: Attributes) -> Seq<AttrEv>;

/// `BytesStart::attributes`: an iterator over the tag's attributes, which
/// starts after the name.
#[verifier::external_body]
pub(crate) fn start_attributes<'a>(e: &'a BytesStart) -> (out: Attributes<'a>)
    ensures
        attrs_pending(out) == tag_attrs(start_bytes(*e), start_name_len(*e)),
{
    e.attributes()
}

/// Whether an item handed out by the attribute iterator is `a`.
pub open spec fn attr_item_is(out: Option<Result<(Vec<u8>, Vec<u8>), String>>, a: AttrEv) -> bool {
    match out {
        Some(Ok((k, v))) => a == AttrEv::Attr { key: k@, value: v@ },
        Some(Err(m)) => a == AttrEv::Broken(m@),
        None => false,
    }
}

/// `Attributes::next`: the next attribute as its raw key and value, or the
/// error message of a malformed one; nothing once all are read.
#[verifier::external_body]
pub(crate) fn next_attribute<'a>(a: &mut Attributes<'a>) -> (out: Option<Result<(Vec<u8>, Vec<u8>), String>>)
    ensures
        attrs_pending(*old(a)).len() == 0 ==> out is None,
        attrs_pending(*old(a)).len() > 0 ==> attr_item_is(out, attrs_pending(*old(a))[0])
            && attrs_pending(*final(a)) == attrs_pending(*old(a)).drop_first(),
{
    match a.next() {
        None => None,
        Some(Ok(at)) => Some(Ok((at.key.as_ref().to_vec(), at.value.to_vec()))),
        Some(Err(e)) => Some(Err(e.to_string())),
    }
}

/// What `Attribute::unescape_value` gives for an attribute of these raw
/// value bytes: the UTF-8 text with entities replaced, or the message of
/// its error.
pub uninterp spec fn attr_unescape(raw: Seq<u8>) -> Result<Seq<char>, Seq<char>>;

/// `Attribute::unescape_value` of an attribute whose raw value is `raw`
/// (the key plays no part in it).
#[verifier::external_body]
pub(crate) fn attribute_value(raw: &[u8]) -> (out: Result<String, String>)
    ensures
        str_result(out) == attr_unescape(raw@),
{
    match Attribute::from((&b""[..], raw)).unescape_value() {
        Ok(c) => Ok(c.into_owned()),
        Err(e) => Err(e.to_string()),
    }
}

/// What `String::from_utf8_lossy` makes of a byte string: its UTF-8 text,
/// with each invalid sequence replaced by U+FFFD.
pub uninterp spec fn utf8_lossy_text(b: Seq<u8>) -> Seq<char>;

/// `String::from_utf8_lossy`: the text of valid UTF-8 bytes is what they
/// encode; of invalid bytes, it is the named lossy text, a function of the
/// bytes alone (the replacement rule itself is not written out here).
#[verifier::external_body]
pub(crate) fn utf8_lossy(b: &[u8]) -> (out: String)
    ensures
        out@ == utf8_lossy_text(b@),
        vstd::utf8::valid_utf8(b@) ==> out@ == vstd::utf8::decode_utf8(b@),
{
    String::from_utf8_lossy(b).into_owned()
}

/// What `{:?}` gives for a string slice: the text in double quotes with
/// characters escaped as `str::escape_debug` does.
pub uninterp spec fn debug_text(s: Seq<char>) -> Seq<char>;

/// `format!("{:?}", s)` for a string slice.
#[verifier::external_body]
pub(crate) fn debug_string(s: &str) -> (out: String)
    ensures
        out@ == debug_text(s@),
{
    format!("{:?}", s)
}

// ---------------------------------------------------------------------------
// Names

/// The local part of a qualified name: what follows its last `:`.
pub open spec fn local_name(s: Seq<char>) -> Seq<char> {
    if exists|i: int| 0 <= i < s.len() && s[i] == ':' {
        let i = choose|i: int|
            0 <= i < s.len() && s[i] == ':' && forall|j: int| i < j < s.len() ==> s[j] != ':';
        s.skip(i + 1)
    } else {
        s
    }
}

/// A name without a namespace prefix: it holds no `:`.
pub open spec fn is_local_name(s: Seq<char>) -> bool {
    forall|i: int| 0 <= i < s.len() ==> s[i] != ':'
}

/// The local part of a qualified name.
pub fn local_name_of(s: &str) -> (out: String)
    ensures
        out@ == local_name(s@),
        is_local_name(out@),
{
    let cs = chars_of(s);
    let n = cs.len();
    let mut i: usize = n;
    while i > 0
        invariant
            i <= n,
            n == cs@.len(),
            cs@ == s@,
            forall|j: int| i <= j < n ==> cs@[j] != ':',
        decreases i,
    {
        if cs[i - 1] == ':' {
            let rest = chars_range(cs.as_slice(), i, n);
            proof {
                let k = (i - 1) as int;
                let t = s@;
                assert(t[k] == ':');
                assert(forall|j: int| k < j < t.len() ==> t[j] != ':');
                assert(exists|c: int| 0 <= c < t.len() && t[c] == ':');
                let c = choose|c: int|
                    0 <= c < t.len() && t[c] == ':' && forall|j: int| c < j < t.len() ==> t[j] != ':';
                if c < k {
                    assert(t[k] != ':');
                } else if c > k {
                    assert(t[c] != ':');
                }
                assert(c == k);
                assert(rest@ =~= t.skip(k + 1));
            }
            return string_from_chars(rest.as_slice());
        }
        i = i - 1;
    }
    string_from_chars(cs.as_slice())
}

// ---------------------------------------------------------------------------
// Tokens

/// One attribute as the reader gave it: its local name and its unescaped
/// value (or the error of unescaping it), or the error of a malformed
/// attribute (which ends the list).
pub enum XmlAttr {
    Attr { key: String, value: Result<String, String> },
    Broken(String),
}

/// One reader event as a plain value. Start and empty-element tags are both
/// `Open`; names are local names.
pub enum XmlTok {
    Open { name: String, attrs: Vec<XmlAttr> },
    Close { name: String },
    Text(Result<String, String>),
    Other,
}

/// The model of an [`XmlAttr`].
pub enum AttrModel {
    Attr { key: Seq<char>, value: Result<Seq<char>, Seq<char>> },
    Broken(Seq<char>),
}

/// The model of an [`XmlTok`].
pub enum TokModel {
    Open { name: Seq<char>, attrs: Seq<AttrModel> },
    Close { name: Seq<char> },
    Text(Result<Seq<char>, Seq<char>>),
    Other,
}

/// The model of a result of strings.
pub open spec fn str_result(r: Result<String, String>) -> Result<Seq<char>, Seq<char>> {
    match r {
        Ok(s) => Ok(s@),
        Err(e) => Err(e@),
    }
}

impl View for XmlAttr {
    type V = AttrModel;

    open spec fn view(&self) -> AttrModel {
        match self {
            XmlAttr::Attr { key, value } => AttrModel::Attr { key: key@, value: str_result(*value) },
            XmlAttr::Broken(m) => AttrModel::Broken(m@),
        }
    }
}

/// The models of a list of attributes.
pub open spec fn attrs_view(v: Seq<XmlAttr>) -> Seq<AttrModel> {
    v.map_values(|a: XmlAttr| a@)
}

impl View for XmlTok {
    type V = TokModel;

    open spec fn view(&self) -> TokModel {
        match self {
            XmlTok::Open { name, attrs } => TokModel::Open { name: name@, attrs: attrs_view(attrs@) },
            XmlTok::Close { name } => TokModel::Close { name: name@ },
            XmlTok::Text(t) => TokModel::Text(str_result(*t)),
            XmlTok::Other => TokModel::Other,
        }
    }
}

/// The models of a list of tokens.
pub open spec fn toks_view(v: Seq<XmlTok>) -> Seq<TokModel> {
    v.map_values(|t: XmlTok| t@)
}

/// The local name of a raw (qualified) name, decoded as lossy UTF-8.
fn name_of_bytes(b: &[u8]) -> (out: String)
    ensures
        out@ == local_name(utf8_lossy_text(b@)),
        is_local_name(out@),
{
    let s = utf8_lossy(b);
    local_name_of(s.as_str())
}

/// An attribute as a token: its local name (of the key decoded as lossy
/// UTF-8) and its unescaped value, or the error of a malformed one.
pub open spec fn attr_tok(a: AttrEv) -> AttrModel {
    match a {
        AttrEv::Attr { key, value } => AttrModel::Attr {
            key: local_name(utf8_lossy_text(key)),
            value: attr_unescape(value),
        },
        AttrEv::Broken(m) => AttrModel::Broken(m),
    }
}

/// The attributes of a tag as tokens, up to and including the first
/// malformed one.
pub open spec fn attrs_toks(s: Seq<AttrEv>) -> Seq<AttrModel>
    decreases s.len(),
{
    if s.len() == 0 {
        Seq::empty()
    } else if s[0] is Broken {
        seq![attr_tok(s[0])]
    } else {
        seq![attr_tok(s[0])] + attrs_toks(s.drop_first())
    }
}

/// An event as a token: start and empty-element tags are both `Open`, with
/// local names and their attributes; text is unescaped.
pub open spec fn ev_tok(e: EvModel) -> TokModel {
    match e {
        EvModel::Start { buf, name_len } => TokModel::Open {
            name: local_name(utf8_lossy_text(buf.take(name_len as int))),
            attrs: attrs_toks(tag_attrs(buf, name_len)),
        },
        EvModel::Empty { buf, name_len } => TokModel::Open {
            name: local_name(utf8_lossy_text(buf.take(name_len as int))),
            attrs: attrs_toks(tag_attrs(buf, name_len)),
        },
        EvModel::End { name } => TokModel::Close { name: local_name(utf8_lossy_text(name)) },
        EvModel::Text { content } => TokModel::Text(text_unescape(content)),
        _ => TokModel::Other,
    }
}

/// What [`next_token`] gives for an event: nothing at the end of the
/// document, the reader's message on an error, else the event's token.
pub open spec fn ev_result(e: EvModel) -> Result<Option<TokModel>, Seq<char>> {
    match e {
        EvModel::Eof => Ok(None),
        EvModel::Error(m) => Err(m),
        _ => Ok(Some(ev_tok(e))),
    }
}

/// A token result seen through its models.
pub open spec fn tok_result(r: Result<Option<XmlTok>, String>) -> Result<Option<TokModel>, Seq<char>> {
    match r {
        Ok(Some(t)) => Ok(Some(t@)),
        Ok(None) => Ok(None),
        Err(m) => Err(m@),
    }
}

/// The tokens of a complete list of events: those of the events before its
/// last.
pub open spec fn doc_tokens(evs: Seq<EvModel>) -> Seq<TokModel> {
    evs.take(evs.len() - 1).map_values(|e: EvModel| ev_tok(e))
}

/// The reader's error that ends a list of events, if it ends in one.
pub open spec fn doc_error(evs: Seq<EvModel>) -> Option<Seq<char>> {
    match evs.last() {
        EvModel::Error(m) => Some(m),
        _ => None,
    }
}

/// The tokens of the first `k` events, read one by one, are a prefix of
/// the document's tokens.
pub proof fn lemma_doc_tokens_prefix(evs: Seq<EvModel>, k: int)
    requires
        0 <= k < evs.len(),
    ensures
        evs.take(k).map_values(|e: EvModel| ev_tok(e)) == doc_tokens(evs).take(k),
        evs.take(k + 1).map_values(|e: EvModel| ev_tok(e)) == evs.take(k).map_values(
            |e: EvModel| ev_tok(e),
        ).push(ev_tok(evs[k])),
{
    assert(evs.take(k).map_values(|e: EvModel| ev_tok(e)) =~= doc_tokens(evs).take(k));
    assert(evs.take(k + 1).map_values(|e: EvModel| ev_tok(e)) =~= evs.take(k).map_values(
        |e: EvModel| ev_tok(e),
    ).push(ev_tok(evs[k])));
}

/// The attributes of a tag, up to and including the first malformed one:
/// exactly those its attribute iterator yields, as tokens.
fn read_attributes(e: &BytesStart) -> (out: Vec<XmlAttr>)
    ensures
        attrs_view(out@) == attrs_toks(tag_attrs(start_bytes(*e), start_name_len(*e))),
{
    let mut it = start_attributes(e);
    let ghost all = attrs_pending(it);
    let mut out: Vec<XmlAttr> = Vec::new();
    proof {
        assert(attrs_view(out@) =~= Seq::<AttrModel>::empty());
    }
    loop
        invariant
            attrs_view(out@) + attrs_toks(attrs_pending(it)) == attrs_toks(all),
            all == tag_attrs(start_bytes(*e), start_name_len(*e)),
        decreases attrs_pending(it).len(),
    {
        let ghost before = out@;
        let ghost pend = attrs_pending(it);
        match next_attribute(&mut it) {
            None => {
                proof {
                    assert(attrs_toks(pend) =~= Seq::<AttrModel>::empty());
                    assert(attrs_view(out@) + attrs_toks(pend) =~= attrs_view(out@));
                }
                return out;
            },
            Some(Err(m)) => {
                out.push(XmlAttr::Broken(m));
                proof {
                    assert(attrs_view(out@) =~= attrs_view(before).push(AttrModel::Broken(m@)));
                    assert(attrs_toks(pend) =~= seq![AttrModel::Broken(m@)]);
                }
                return out;
            },
            Some(Ok((k, v))) => {
                let key = name_of_bytes(k.as_slice());
                let value = attribute_value(v.as_slice());
                out.push(XmlAttr::Attr { key, value });
                proof {
                    let t = attr_tok(pend[0]);
                    assert(out@.last()@ == t);
                    assert(attrs_view(out@) =~= attrs_view(before).push(t));
                    assert(attrs_toks(pend) =~= seq![t] + attrs_toks(pend.drop_first()));
                    assert(attrs_view(out@) + attrs_toks(attrs_pending(it)) =~= attrs_view(before)
                        + attrs_toks(pend));
                }
            },
        }
    }
}

/// The next token of the reader: `Ok(None)` at the end of the document,
/// `Err` with the reader's message on malformed XML; the reader moves on by
/// one event.
pub(crate) fn next_token(r: &mut Reader<&[u8]>) -> (out: Result<Option<XmlTok>, String>)
    ensures
        reader_text(*final(r)) == reader_text(*old(r)),
        reader_events(*old(r)).len() > 0 ==> tok_result(out) == ev_result(reader_events(*old(r))[0])
            && reader_events(*final(r)) == reader_events(*old(r)).drop_first(),
{
    match read_raw_event(r) {
        Err(m) => Err(m),
        Ok(RawEvent::Eof) => Ok(None),
        Ok(RawEvent::Start(e)) => {
            let name = name_of_bytes(start_name(&e).as_slice());
            let attrs = read_attributes(&e);
            Ok(Some(XmlTok::Open { name, attrs }))
        },
        Ok(RawEvent::Empty(e)) => {
            let name = name_of_bytes(start_name(&e).as_slice());
            let attrs = read_attributes(&e);
            Ok(Some(XmlTok::Open { name, attrs }))
        },
        Ok(RawEvent::End(e)) => {
            let name = name_of_bytes(end_name(&e).as_slice());
            Ok(Some(XmlTok::Close { name }))
        },
        Ok(RawEvent::Text(t)) => Ok(Some(XmlTok::Text(text_unescaped(&t)))),
        Ok(RawEvent::Other) => Ok(Some(XmlTok::Other)),
    }
}

} // verus!
