//! Reading back what was written: the tokens of a written session document,
//! and the law that the reader turns them back into the image.
use vstd::prelude::*;
use crate::session::{codec_text, os_text, session_namespace, surface_id_text, ErrorModel, ImageModel,
    LayoutModel, SurfaceModel};
use crate::session_parse::{initial_state, parse_tokens_spec, run_spec, step_spec, StateModel};
use crate::text::{all_digits, decimal, digit_char, digits_value, is_digit, parse_unsigned,
    unsigned_digits};
use crate::xml::{AttrModel, TokModel};

verus! {

// ---------------------------------------------------------------------------
// Numbers read back

/// The decimal text of `n` is all digits and has the value `n`.
proof fn lemma_digit_char_code(d: nat)
    requires
        d < 10,
    ensures
        (digit_char(d) as u32) == 48 + d,
        is_digit(digit_char(d)),
{
}

pub proof fn lemma_decimal_digits(n: nat)
    ensures
        decimal(n).len() > 0,
        all_digits(decimal(n)),
        digits_value(decimal(n)) == n,
    decreases n,
{
    if n >= 10 {
        lemma_decimal_digits(n / 10);
        let d = decimal(n / 10);
        let e = decimal(n);
        assert(e == d.push(digit_char(n % 10)));
        assert(e.drop_last() =~= d);
        lemma_digit_char_code(n % 10);
        assert(e.last() == digit_char(n % 10));
        assert(digits_value(e) == digits_value(d) * 10 + n % 10);
        assert((n / 10) * 10 + n % 10 == n);
        assert forall|i: int| 0 <= i < e.len() implies is_digit(#[trigger] e[i]) by {
            if i < d.len() {
                assert(e[i] == d[i]);
            }
        }
    } else {
        assert(decimal(n).drop_last() =~= Seq::<char>::empty());
        lemma_digit_char_code(n);
        assert(digits_value(Seq::<char>::empty()) == 0);
        assert(decimal(n).last() == digit_char(n));
    }
}

/// Reading the decimal text of `n` back gives `n`.
pub proof fn lemma_decimal_parses(n: nat, max: nat)
    requires
        n <= max,
    ensures
        parse_unsigned(decimal(n), max) == Some(n),
{
    lemma_decimal_digits(n);
    assert(is_digit(decimal(n)[0]));
    assert(unsigned_digits(decimal(n)) == decimal(n));
}


// ---------------------------------------------------------------------------
// Running the reader from any state

/// The state after `toks`, starting from `st`, or the first error.
pub open spec fn run_from(st: StateModel, toks: Seq<TokModel>) -> Result<StateModel, ErrorModel>
    decreases toks.len(),
{
    if toks.len() == 0 {
        Ok(st)
    } else {
        match step_spec(st, toks[0]) {
            Ok(s) => run_from(s, toks.drop_first()),
            Err(e) => Err(e),
        }
    }
}

/// Runs `toks` after a state, or passes an error on.
pub open spec fn then_run(r: Result<StateModel, ErrorModel>, toks: Seq<TokModel>) -> Result<
    StateModel,
    ErrorModel,
> {
    match r {
        Ok(s) => run_from(s, toks),
        Err(e) => Err(e),
    }
}

pub proof fn lemma_run_concat(st: StateModel, a: Seq<TokModel>, b: Seq<TokModel>)
    ensures
        run_from(st, a + b) == then_run(run_from(st, a), b),
    decreases a.len(),
{
    if a.len() == 0 {
        assert(a + b =~= b);
    } else {
        assert((a + b)[0] == a[0]);
        assert((a + b).drop_first() =~= a.drop_first() + b);
        match step_spec(st, a[0]) {
            Ok(s) => lemma_run_concat(s, a.drop_first(), b),
            Err(e) => {},
        }
    }
}

pub proof fn lemma_run_one(st: StateModel, t: TokModel)
    ensures
        run_from(st, seq![t]) == step_spec(st, t),
{
    assert(seq![t].drop_first() =~= Seq::<TokModel>::empty());
    match step_spec(st, t) {
        Ok(s) => assert(run_from(s, Seq::<TokModel>::empty()) == Ok::<StateModel, ErrorModel>(s)),
        Err(e) => {},
    }
}

pub proof fn lemma_run_spec_from(t: Seq<TokModel>)
    ensures
        run_spec(t) == run_from(initial_state(), t),
    decreases t.len(),
{
    if t.len() > 0 {
        lemma_run_spec_from(t.drop_last());
        lemma_run_concat(initial_state(), t.drop_last(), seq![t.last()]);
        assert(t.drop_last() + seq![t.last()] =~= t);
        match run_from(initial_state(), t.drop_last()) {
            Ok(s) => lemma_run_one(s, t.last()),
            Err(e) => {},
        }
    }
}


// ---------------------------------------------------------------------------
// The tokens of a written document

/// An attribute with a well-formed value.
pub open spec fn attr_tok(key: Seq<char>, value: Seq<char>) -> AttrModel {
    AttrModel::Attr { key, value: Ok(value) }
}

/// A start (or empty-element) tag.
pub open spec fn open_tok(name: Seq<char>, attrs: Seq<AttrModel>) -> TokModel {
    TokModel::Open { name, attrs }
}

/// An end tag.
pub open spec fn close_tok(name: Seq<char>) -> TokModel {
    TokModel::Close { name }
}

/// The text between two tags: no token when there is none.
pub open spec fn text_toks(t: Seq<char>) -> Seq<TokModel> {
    if t.len() == 0 {
        Seq::empty()
    } else {
        seq![TokModel::Text(Ok(t))]
    }
}

/// An element holding only text.
pub open spec fn text_el_toks(tag: Seq<char>, t: Seq<char>) -> Seq<TokModel> {
    seq![open_tok(tag, Seq::empty())] + text_toks(t) + seq![close_tok(tag)]
}

/// A `<host>` element.
pub open spec fn host_toks(h: crate::session::HostModel) -> Seq<TokModel> {
    seq![open_tok("host"@, Seq::empty())] + text_el_toks("address"@, h.address) + text_el_toks(
        "os"@,
        os_text(h.os),
    ) + text_el_toks("machine"@, h.machine) + text_el_toks("capture"@, h.capture) + seq![
        close_tok("host"@),
    ]
}

/// The `<surface>` start tag.
pub open spec fn surface_start(s: SurfaceModel) -> TokModel {
    open_tok(
        "surface"@,
        seq![
            attr_tok("id"@, surface_id_text(s.id)),
            attr_tok("name"@, s.name),
            attr_tok("order"@, decimal(s.order as nat)),
        ],
    )
}

/// The `<dimensions/>` element.
pub open spec fn dims_tok(s: SurfaceModel) -> TokModel {
    open_tok(
        "dimensions"@,
        seq![attr_tok("height"@, decimal(s.height as nat)), attr_tok("width"@, decimal(s.width as nat))],
    )
}

/// A `<surface>` element.
pub open spec fn surface_toks(s: SurfaceModel) -> Seq<TokModel> {
    seq![surface_start(s)] + host_toks(s.host) + text_el_toks("codec"@, codec_text(s.codec)) + seq![
        dims_tok(s),
        close_tok("surface"@),
    ]
}

/// The `<surface>` elements of a list, in list order.
pub open spec fn surfaces_toks(ss: Seq<SurfaceModel>) -> Seq<TokModel>
    decreases ss.len(),
{
    if ss.len() == 0 {
        Seq::empty()
    } else {
        surfaces_toks(ss.drop_last()) + surface_toks(ss.last())
    }
}

/// The `<focus/>` element, if anything has focus.
pub open spec fn focus_toks(focus: Option<Seq<u8>>) -> Seq<TokModel> {
    match focus {
        Some(f) => seq![open_tok("focus"@, seq![attr_tok("surface-ref"@, surface_id_text(f))])],
        None => Seq::empty(),
    }
}

/// The `<layout>` element.
pub open spec fn layout_toks(l: LayoutModel) -> Seq<TokModel> {
    seq![
        open_tok("layout"@, Seq::empty()),
        open_tok("strip"@, seq![attr_tok("scroll-pos"@, l.scroll_pos)]),
    ] + focus_toks(l.focus) + seq![close_tok("layout"@)]
}

/// The `<session>` start tag, carrying `id`.
pub open spec fn session_start(m: ImageModel, id: Seq<char>) -> TokModel {
    open_tok(
        "session"@,
        seq![
            attr_tok("xmlns"@, session_namespace()),
            attr_tok("created"@, m.created),
            attr_tok("id"@, id),
            attr_tok("schema-version"@, decimal(m.schema_version as nat)),
        ],
    )
}

/// The tokens that a reader which drops whitespace-only text gives for the
/// text XML of `m` carrying the id `id`: the XML declaration, then the
/// elements, attributes and (unescaped) text as written.
pub open spec fn document_tokens(m: ImageModel, id: Seq<char>) -> Seq<TokModel> {
    document_prefix(m, id) + seq![close_tok("session"@)]
}

/// The tokens of a written document up to the end of its `<layout>`.
pub open spec fn document_prefix(m: ImageModel, id: Seq<char>) -> Seq<TokModel> {
    seq![TokModel::Other, session_start(m, id), open_tok("surfaces"@, Seq::empty())] + surfaces_toks(
        m.surfaces,
    ) + seq![close_tok("surfaces"@)] + layout_toks(m.layout)
}

/// The reader's state after the written document of `m` with `id`, up to
/// the end of its `<layout>`.
pub open spec fn read_state(m: ImageModel, id: Seq<char>) -> StateModel {
    StateModel {
        attrs: crate::session_parse::AttrsModel {
            id: Some(id),
            created: Some(m.created),
            schema_version: Some(m.schema_version),
        },
        surfaces: m.surfaces,
        scroll: m.layout.scroll_pos,
        focus: m.layout.focus,
        cur: None,
        in_host: false,
        target: None,
        buf: Seq::empty(),
    }
}

/// The conditions under which a written image reads back: 32-byte surface
/// ids, surfaces listed in order of `order`, and a floating-point literal
/// for the scroll position.
pub open spec fn reads_back(m: ImageModel) -> bool {
    &&& forall|i: int| 0 <= i < m.surfaces.len() ==> (#[trigger] m.surfaces[i]).id.len() == 32
    &&& forall|i: int, j: int|
        0 <= i <= j < m.surfaces.len() ==> m.surfaces[i].order <= m.surfaces[j].order
    &&& m.layout.focus matches Some(f) ==> f.len() == 32
    &&& crate::decimal::is_float_syntax(m.layout.scroll_pos)
}

// ---------------------------------------------------------------------------
// Reading them

/// A state between elements: no surface open, not inside `<host>`, no text
/// element open.
pub open spec fn quiet(st: StateModel) -> bool {
    &&& st.cur is None
    &&& !st.in_host
    &&& st.target is None
    &&& st.buf.len() == 0
}

proof fn lemma_text_el(st: StateModel, tag: Seq<char>, t: Seq<char>)
    requires
        tag == "address"@ || tag == "os"@ || tag == "machine"@ || tag == "capture"@ || tag
            == "codec"@,
        st.cur is Some,
    ensures
        crate::session_parse::target_of(tag) is Some,
        run_from(st, text_el_toks(tag, t)) == match crate::session_parse::apply_text_spec(
            st.cur,
            st.in_host,
            crate::session_parse::target_of(tag),
            t,
        ) {
            Ok(b) => Ok(StateModel { cur: Some(b), target: None, buf: Seq::empty(), ..st }),
            Err(e) => Err(e),
        },
{
    reveal_strlit("session");
    reveal_strlit("surface");
    reveal_strlit("host");
    reveal_strlit("address");
    reveal_strlit("os");
    reveal_strlit("machine");
    reveal_strlit("capture");
    reveal_strlit("codec");
    let open = open_tok(tag, Seq::empty());
    let close = close_tok(tag);
    let st1 = StateModel { buf: Seq::empty(), target: crate::session_parse::target_of(tag), ..st };
    assert(tag[0] != "session"@[0] && tag[0] != "surface"@[0] && tag[0] != "host"@[0]);
    lemma_run_concat(st, seq![open] + text_toks(t), seq![close]);
    lemma_run_concat(st, seq![open], text_toks(t));
    lemma_run_one(st, open);
    assert(step_spec(st, open) == Ok::<StateModel, ErrorModel>(st1));
    let st2 = StateModel { buf: t, ..st1 };
    if t.len() == 0 {
        assert(run_from(st1, text_toks(t)) == Ok::<StateModel, ErrorModel>(st1));
        assert(st1 == st2);
    } else {
        lemma_run_one(st1, TokModel::Text(Ok(t)));
        assert(Seq::<char>::empty() + t =~= t);
        assert(run_from(st1, text_toks(t)) == Ok::<StateModel, ErrorModel>(st2));
    }
    lemma_run_one(st2, close);
}


proof fn lemma_os_text_reads(os: crate::wire::OsKind)
    ensures
        crate::session_parse::os_of(os_text(os)) == Ok::<crate::wire::OsKind, ErrorModel>(os),
{
    reveal_strlit("macOS");
    reveal_strlit("Windows");
    reveal_strlit("Linux");
    assert("macOS"@[0] != "Windows"@[0]);
    assert("macOS"@[0] != "Linux"@[0]);
    assert("Windows"@[0] != "Linux"@[0]);
}

proof fn lemma_codec_text_reads(c: crate::wire::Codec)
    ensures
        crate::session_parse::codec_of(codec_text(c)) == Ok::<crate::wire::Codec, ErrorModel>(c),
{
    reveal_strlit("H265");
    reveal_strlit("AV1");
    assert("H265"@[0] != "AV1"@[0]);
}

/// The `<host>` element fills the host fields of the open surface.
proof fn lemma_host(st: StateModel, h: crate::session::HostModel)
    requires
        st.cur is Some,
    ensures
        run_from(st, host_toks(h)) == Ok::<StateModel, ErrorModel>(
            StateModel {
                cur: Some(
                    crate::session_parse::BuilderModel {
                        address: Some(h.address),
                        os: Some(h.os),
                        machine: Some(h.machine),
                        capture: Some(h.capture),
                        ..st.cur.unwrap()
                    },
                ),
                in_host: false,
                target: None,
                buf: Seq::empty(),
                ..st
            },
        ),
{
    reveal_strlit("session");
    reveal_strlit("surface");
    reveal_strlit("host");
    reveal_strlit("address");
    reveal_strlit("os");
    reveal_strlit("machine");
    reveal_strlit("capture");
    reveal_strlit("codec");
    let b = st.cur.unwrap();
    let open = open_tok("host"@, Seq::empty());
    let close = close_tok("host"@);
    let a = text_el_toks("address"@, h.address);
    let o = text_el_toks("os"@, os_text(h.os));
    let m = text_el_toks("machine"@, h.machine);
    let c = text_el_toks("capture"@, h.capture);
    assert(host_toks(h) == seq![open] + a + o + m + c + seq![close]);
    lemma_run_concat(st, seq![open] + a + o + m + c, seq![close]);
    lemma_run_concat(st, seq![open] + a + o + m, c);
    lemma_run_concat(st, seq![open] + a + o, m);
    lemma_run_concat(st, seq![open] + a, o);
    lemma_run_concat(st, seq![open], a);
    lemma_run_one(st, open);
    assert("host"@[0] != "session"@[0] && "host"@[0] != "surface"@[0]);
    let s1 = StateModel { buf: Seq::empty(), in_host: true, ..st };
    assert(step_spec(st, open) == Ok::<StateModel, ErrorModel>(s1));
    lemma_text_el(s1, "address"@, h.address);
    let b2 = crate::session_parse::BuilderModel { address: Some(h.address), ..b };
    let s2 = StateModel { cur: Some(b2), target: None, buf: Seq::empty(), ..s1 };
    assert(run_from(s1, a) == Ok::<StateModel, ErrorModel>(s2));
    lemma_text_el(s2, "os"@, os_text(h.os));
    lemma_os_text_reads(h.os);
    let b3 = crate::session_parse::BuilderModel { os: Some(h.os), ..b2 };
    let s3 = StateModel { cur: Some(b3), ..s2 };
    assert(run_from(s2, o) == Ok::<StateModel, ErrorModel>(s3));
    assert("machine"@[0] != "address"@[0]);
    assert("capture"@[0] != "address"@[0] && "capture"@[0] != "machine"@[0]);
    lemma_text_el(s3, "machine"@, h.machine);
    let b4 = crate::session_parse::BuilderModel { machine: Some(h.machine), ..b3 };
    let s4 = StateModel { cur: Some(b4), ..s3 };
    assert(run_from(s3, m) == Ok::<StateModel, ErrorModel>(s4));
    lemma_text_el(s4, "capture"@, h.capture);
    let b5 = crate::session_parse::BuilderModel { capture: Some(h.capture), ..b4 };
    let s5 = StateModel { cur: Some(b5), ..s4 };
    assert(run_from(s4, c) == Ok::<StateModel, ErrorModel>(s5));
    lemma_run_one(s5, close);
}


/// The builder that a `<surface>` start tag opens.
pub open spec fn fresh_builder(s: SurfaceModel) -> crate::session_parse::BuilderModel {
    crate::session_parse::BuilderModel {
        id: s.id,
        name: s.name,
        order: s.order,
        address: None,
        os: None,
        machine: None,
        capture: None,
        codec: None,
        width: None,
        height: None,
    }
}

proof fn lemma_surface_start(st: StateModel, s: SurfaceModel)
    requires
        s.id.len() == 32,
    ensures
        step_spec(st, surface_start(s)) == Ok::<StateModel, ErrorModel>(
            StateModel { cur: Some(fresh_builder(s)), buf: Seq::empty(), ..st },
        ),
{
    reveal_strlit("session");
    reveal_strlit("surface");
    reveal_strlit("id");
    reveal_strlit("name");
    reveal_strlit("order");
    assert("surface"@[1] != "session"@[1]);
    let attrs = seq![
        attr_tok("id"@, surface_id_text(s.id)),
        attr_tok("name"@, s.name),
        attr_tok("order"@, decimal(s.order as nat)),
    ];
    assert(attrs.drop_first() =~= seq![attr_tok("name"@, s.name), attr_tok("order"@, decimal(s.order as nat))]);
    assert(attrs.drop_first().drop_first() =~= seq![attr_tok("order"@, decimal(s.order as nat))]);
    assert(crate::session_parse::attr_lookup(attrs, "id"@) == Ok::<Seq<char>, ErrorModel>(
        surface_id_text(s.id),
    ));
    crate::session::law_surface_id_roundtrip(s.id);
    assert(crate::session_parse::attr_lookup(attrs.drop_first(), "name"@) == Ok::<Seq<char>, ErrorModel>(
        s.name,
    ));
    assert("id"@.len() == 2);
    assert("name"@.len() == 4);
    assert("order"@.len() == 5);
    assert("id"@ != "name"@ && "id"@ != "order"@ && "name"@ != "order"@);
    assert(attrs[0] == attr_tok("id"@, surface_id_text(s.id)));
    assert(crate::session_parse::attr_lookup(attrs, "name"@) == crate::session_parse::attr_lookup(
        attrs.drop_first(),
        "name"@,
    ));
    assert(crate::session_parse::attr_lookup(attrs, "name"@) == Ok::<Seq<char>, ErrorModel>(s.name));
    assert(crate::session_parse::attr_lookup(attrs.drop_first().drop_first(), "order"@) == Ok::<
        Seq<char>,
        ErrorModel,
    >(decimal(s.order as nat)));
    assert(crate::session_parse::attr_lookup(attrs.drop_first(), "order"@) == Ok::<Seq<char>, ErrorModel>(
        decimal(s.order as nat),
    ));
    assert(crate::session_parse::attr_lookup(attrs, "order"@) == Ok::<Seq<char>, ErrorModel>(
        decimal(s.order as nat),
    ));
    lemma_decimal_parses(s.order as nat, u32::MAX as nat);
    assert(crate::session_parse::builder_from(attrs) == Ok::<
        crate::session_parse::BuilderModel,
        ErrorModel,
    >(fresh_builder(s)));
}

proof fn lemma_dims(st: StateModel, s: SurfaceModel)
    requires
        st.cur is Some,
    ensures
        step_spec(st, dims_tok(s)) == Ok::<StateModel, ErrorModel>(
            StateModel {
                cur: Some(
                    crate::session_parse::BuilderModel {
                        width: Some(s.width),
                        height: Some(s.height),
                        ..st.cur.unwrap()
                    },
                ),
                buf: Seq::empty(),
                ..st
            },
        ),
{
    reveal_strlit("session");
    reveal_strlit("surface");
    reveal_strlit("host");
    reveal_strlit("address");
    reveal_strlit("os");
    reveal_strlit("machine");
    reveal_strlit("capture");
    reveal_strlit("codec");
    reveal_strlit("dimensions");
    reveal_strlit("height");
    reveal_strlit("width");
    let attrs = seq![
        attr_tok("height"@, decimal(s.height as nat)),
        attr_tok("width"@, decimal(s.width as nat)),
    ];
    assert(attrs.drop_first() =~= seq![attr_tok("width"@, decimal(s.width as nat))]);
    assert("height"@.len() == 6 && "width"@.len() == 5);
    assert(crate::session_parse::attr_lookup(attrs.drop_first(), "width"@) == Ok::<Seq<char>, ErrorModel>(
        decimal(s.width as nat),
    ));
    assert(crate::session_parse::attr_lookup(attrs, "width"@) == Ok::<Seq<char>, ErrorModel>(
        decimal(s.width as nat),
    ));
    assert(crate::session_parse::attr_lookup(attrs, "height"@) == Ok::<Seq<char>, ErrorModel>(
        decimal(s.height as nat),
    ));
    lemma_decimal_parses(s.width as nat, u32::MAX as nat);
    lemma_decimal_parses(s.height as nat, u32::MAX as nat);
    assert("dimensions"@.len() == 10 && "session"@.len() == 7 && "surface"@.len() == 7);
    assert("host"@.len() == 4 && "address"@.len() == 7 && "os"@.len() == 2);
    assert("machine"@.len() == 7 && "capture"@.len() == 7 && "codec"@.len() == 5);
    assert(crate::session_parse::target_of("dimensions"@) is None);
}

/// A `<surface>` element appends its surface.
proof fn lemma_surface(st: StateModel, s: SurfaceModel)
    requires
        quiet(st),
        s.id.len() == 32,
    ensures
        run_from(st, surface_toks(s)) == Ok::<StateModel, ErrorModel>(
            StateModel { surfaces: st.surfaces.push(s), ..st },
        ),
{
    reveal_strlit("surface");
    reveal_strlit("host");
    reveal_strlit("codec");
    reveal_strlit("address");
    reveal_strlit("os");
    reveal_strlit("machine");
    reveal_strlit("capture");
    let start = surface_start(s);
    let h = host_toks(s.host);
    let c = text_el_toks("codec"@, codec_text(s.codec));
    let tail = seq![dims_tok(s), close_tok("surface"@)];
    lemma_run_concat(st, seq![start] + h + c, tail);
    lemma_run_concat(st, seq![start] + h, c);
    lemma_run_concat(st, seq![start], h);
    lemma_run_one(st, start);
    lemma_surface_start(st, s);
    let s1 = StateModel { cur: Some(fresh_builder(s)), buf: Seq::empty(), ..st };
    lemma_host(s1, s.host);
    let b2 = crate::session_parse::BuilderModel {
        address: Some(s.host.address),
        os: Some(s.host.os),
        machine: Some(s.host.machine),
        capture: Some(s.host.capture),
        ..fresh_builder(s)
    };
    let s2 = StateModel { cur: Some(b2), in_host: false, target: None, buf: Seq::empty(), ..s1 };
    lemma_text_el(s2, "codec"@, codec_text(s.codec));
    lemma_codec_text_reads(s.codec);
    let b3 = crate::session_parse::BuilderModel { codec: Some(s.codec), ..b2 };
    let s3 = StateModel { cur: Some(b3), ..s2 };
    assert(run_from(s2, c) == Ok::<StateModel, ErrorModel>(s3));
    assert(tail.drop_first() =~= seq![close_tok("surface"@)]);
    lemma_dims(s3, s);
    let b4 = crate::session_parse::BuilderModel { width: Some(s.width), height: Some(s.height), ..b3 };
    let s4 = StateModel { cur: Some(b4), ..s3 };
    lemma_run_one(s4, close_tok("surface"@));
    assert(crate::session_parse::build_spec(b4) == Ok::<SurfaceModel, ErrorModel>(s));
    assert(st.buf =~= Seq::<char>::empty());
    assert(run_from(s3, tail) == Ok::<StateModel, ErrorModel>(
        StateModel { surfaces: st.surfaces.push(s), ..st },
    ));
}


/// The `<surface>` elements of a list append its surfaces.
proof fn lemma_surfaces(st: StateModel, ss: Seq<SurfaceModel>)
    requires
        quiet(st),
        forall|i: int| 0 <= i < ss.len() ==> (#[trigger] ss[i]).id.len() == 32,
    ensures
        run_from(st, surfaces_toks(ss)) == Ok::<StateModel, ErrorModel>(
            StateModel { surfaces: st.surfaces + ss, ..st },
        ),
    decreases ss.len(),
{
    if ss.len() == 0 {
        assert(st.surfaces + ss =~= st.surfaces);
    } else {
        let d = ss.drop_last();
        assert forall|i: int| 0 <= i < d.len() implies (#[trigger] d[i]).id.len() == 32 by {
            assert(d[i] == ss[i]);
        }
        lemma_surfaces(st, d);
        lemma_run_concat(st, surfaces_toks(d), surface_toks(ss.last()));
        let st1 = StateModel { surfaces: st.surfaces + d, ..st };
        lemma_surface(st1, ss.last());
        assert((st.surfaces + d).push(ss.last()) =~= st.surfaces + ss);
    }
}

/// Elements that the reader passes over.
pub proof fn lemma_plain_tags(st: StateModel)
    ensures
        step_spec(st, open_tok("surfaces"@, Seq::empty())) == Ok::<StateModel, ErrorModel>(
            StateModel { buf: Seq::empty(), ..st },
        ),
        step_spec(st, open_tok("layout"@, Seq::empty())) == Ok::<StateModel, ErrorModel>(
            StateModel { buf: Seq::empty(), ..st },
        ),
        step_spec(st, close_tok("surfaces"@)) == Ok::<StateModel, ErrorModel>(st),
        step_spec(st, close_tok("layout"@)) == Ok::<StateModel, ErrorModel>(st),
        step_spec(st, close_tok("session"@)) == Ok::<StateModel, ErrorModel>(st),
{
    reveal_strlit("session");
    reveal_strlit("surface");
    reveal_strlit("surfaces");
    reveal_strlit("layout");
    reveal_strlit("host");
    reveal_strlit("address");
    reveal_strlit("os");
    reveal_strlit("machine");
    reveal_strlit("capture");
    reveal_strlit("codec");
    reveal_strlit("dimensions");
    reveal_strlit("strip");
    reveal_strlit("focus");
    assert("session"@.len() == 7 && "surface"@.len() == 7 && "surfaces"@.len() == 8);
    assert("layout"@.len() == 6 && "host"@.len() == 4 && "address"@.len() == 7);
    assert("os"@.len() == 2 && "machine"@.len() == 7 && "capture"@.len() == 7);
    assert("codec"@.len() == 5 && "dimensions"@.len() == 10 && "strip"@.len() == 5);
    assert("focus"@.len() == 5);
    assert("session"@[1] != "surface"@[1]);
    assert("session"@[0] != "address"@[0] && "session"@[0] != "machine"@[0]);
    assert("session"@[0] != "capture"@[0]);
}

proof fn lemma_session_attrs(m: ImageModel, id: Seq<char>)
    ensures
        crate::session_parse::session_attrs_from(
            crate::session_parse::no_attrs(),
            seq![
                attr_tok("xmlns"@, session_namespace()),
                attr_tok("created"@, m.created),
                attr_tok("id"@, id),
                attr_tok("schema-version"@, decimal(m.schema_version as nat)),
            ],
        ) == Ok::<crate::session_parse::AttrsModel, ErrorModel>(
            crate::session_parse::AttrsModel {
                id: Some(id),
                created: Some(m.created),
                schema_version: Some(m.schema_version),
            },
        ),
{
    reveal_strlit("xmlns");
    reveal_strlit("created");
    reveal_strlit("id");
    reveal_strlit("schema-version");
    assert("xmlns"@.len() == 5 && "created"@.len() == 7 && "id"@.len() == 2);
    assert("schema-version"@.len() == 14);
    let a = seq![
        attr_tok("xmlns"@, session_namespace()),
        attr_tok("created"@, m.created),
        attr_tok("id"@, id),
        attr_tok("schema-version"@, decimal(m.schema_version as nat)),
    ];
    let a1 = a.drop_first();
    let a2 = a1.drop_first();
    let a3 = a2.drop_first();
    assert(a1 =~= seq![
        attr_tok("created"@, m.created),
        attr_tok("id"@, id),
        attr_tok("schema-version"@, decimal(m.schema_version as nat)),
    ]);
    assert(a2 =~= seq![attr_tok("id"@, id), attr_tok("schema-version"@, decimal(m.schema_version as nat))]);
    assert(a3 =~= seq![attr_tok("schema-version"@, decimal(m.schema_version as nat))]);
    assert(a3.drop_first() =~= Seq::<AttrModel>::empty());
    lemma_decimal_parses(m.schema_version as nat, u32::MAX as nat);
    let acc0 = crate::session_parse::no_attrs();
    let acc1 = crate::session_parse::AttrsModel { created: Some(m.created), ..acc0 };
    let acc2 = crate::session_parse::AttrsModel { id: Some(id), ..acc1 };
    let acc3 = crate::session_parse::AttrsModel { schema_version: Some(m.schema_version), ..acc2 };
    assert(crate::session_parse::session_attrs_from(acc3, a3.drop_first()) == Ok::<
        crate::session_parse::AttrsModel,
        ErrorModel,
    >(acc3));
    assert(crate::session_parse::session_attrs_from(acc2, a3) == Ok::<
        crate::session_parse::AttrsModel,
        ErrorModel,
    >(acc3));
    assert(crate::session_parse::session_attrs_from(acc1, a2) == Ok::<
        crate::session_parse::AttrsModel,
        ErrorModel,
    >(acc3));
    assert(crate::session_parse::session_attrs_from(acc0, a1) == Ok::<
        crate::session_parse::AttrsModel,
        ErrorModel,
    >(acc3));
}


/// The `<layout>` element sets the scroll position and the focus.
proof fn lemma_layout(st: StateModel, l: LayoutModel)
    requires
        quiet(st),
        crate::decimal::is_float_syntax(l.scroll_pos),
        l.focus matches Some(f) ==> f.len() == 32,
    ensures
        run_from(st, layout_toks(l)) == Ok::<StateModel, ErrorModel>(
            StateModel {
                scroll: l.scroll_pos,
                focus: match l.focus {
                    Some(f) => Some(f),
                    None => st.focus,
                },
                ..st
            },
        ),
{
    reveal_strlit("session");
    reveal_strlit("surface");
    reveal_strlit("layout");
    reveal_strlit("host");
    reveal_strlit("address");
    reveal_strlit("os");
    reveal_strlit("machine");
    reveal_strlit("capture");
    reveal_strlit("codec");
    reveal_strlit("dimensions");
    reveal_strlit("strip");
    reveal_strlit("focus");
    reveal_strlit("scroll-pos");
    reveal_strlit("surface-ref");
    assert("session"@.len() == 7 && "surface"@.len() == 7);
    assert("layout"@.len() == 6 && "host"@.len() == 4 && "address"@.len() == 7);
    assert("os"@.len() == 2 && "machine"@.len() == 7 && "capture"@.len() == 7);
    assert("codec"@.len() == 5 && "dimensions"@.len() == 10 && "strip"@.len() == 5);
    assert("focus"@.len() == 5);
    assert("strip"@[0] != "codec"@[0] && "focus"@[0] != "codec"@[0] && "focus"@[0] != "strip"@[0]);
    assert(st.buf =~= Seq::<char>::empty());
    lemma_plain_tags(st);
    let open_l = open_tok("layout"@, Seq::empty());
    let strip = open_tok("strip"@, seq![attr_tok("scroll-pos"@, l.scroll_pos)]);
    let f = focus_toks(l.focus);
    let close_l = close_tok("layout"@);
    assert(layout_toks(l) == seq![open_l, strip] + f + seq![close_l]);
    lemma_run_concat(st, seq![open_l, strip] + f, seq![close_l]);
    lemma_run_concat(st, seq![open_l, strip], f);
    lemma_run_concat(st, seq![open_l], seq![strip]);
    assert(seq![open_l] + seq![strip] =~= seq![open_l, strip]);
    lemma_run_one(st, open_l);
    assert(step_spec(st, open_l) == Ok::<StateModel, ErrorModel>(st));
    lemma_run_one(st, strip);
    let sa = seq![attr_tok("scroll-pos"@, l.scroll_pos)];
    assert(crate::session_parse::attr_lookup(sa, "scroll-pos"@) == Ok::<Seq<char>, ErrorModel>(
        l.scroll_pos,
    ));
    let s1 = StateModel { scroll: l.scroll_pos, ..st };
    assert(step_spec(st, strip) == Ok::<StateModel, ErrorModel>(s1));
    let s2 = StateModel {
        focus: match l.focus {
            Some(x) => Some(x),
            None => st.focus,
        },
        ..s1
    };
    match l.focus {
        Some(x) => {
            let ft = open_tok("focus"@, seq![attr_tok("surface-ref"@, surface_id_text(x))]);
            lemma_run_one(s1, ft);
            crate::session::law_surface_id_roundtrip(x);
            assert(crate::session_parse::attr_lookup(
                seq![attr_tok("surface-ref"@, surface_id_text(x))],
                "surface-ref"@,
            ) == Ok::<Seq<char>, ErrorModel>(surface_id_text(x)));
            assert(run_from(s1, f) == Ok::<StateModel, ErrorModel>(s2));
        },
        None => {
            assert(run_from(s1, f) == Ok::<StateModel, ErrorModel>(s2));
        },
    }
    lemma_plain_tags(s2);
    lemma_run_one(s2, close_l);
}

/// Sorting surfaces that are already in order changes nothing.
pub proof fn lemma_sorted_unchanged(ss: Seq<SurfaceModel>)
    requires
        forall|i: int, j: int| 0 <= i <= j < ss.len() ==> ss[i].order <= ss[j].order,
    ensures
        crate::session_parse::sort_by_order(ss) == ss,
    decreases ss.len(),
{
    if ss.len() > 0 {
        let d = ss.drop_last();
        assert forall|i: int, j: int| 0 <= i <= j < d.len() implies d[i].order <= d[j].order by {
            assert(d[i] == ss[i] && d[j] == ss[j]);
        }
        lemma_sorted_unchanged(d);
        if d.len() == 0 {
            assert(crate::session_parse::insert_by_order(d, ss.last()) =~= ss);
        } else {
            assert(d.last() == ss[ss.len() - 2]);
            assert(d.push(ss.last()) =~= ss);
        }
    }
}


/// The written document up to the end of its `<layout>` leaves the reader
/// in [`read_state`].
pub proof fn lemma_read_prefix(m: ImageModel, id: Seq<char>)
    requires
        reads_back(m),
    ensures
        run_from(initial_state(), document_prefix(m, id)) == Ok::<StateModel, ErrorModel>(read_state(m, id)),
        quiet(read_state(m, id)),
{
    reveal_strlit("session");
    reveal_strlit("surface");
    reveal_strlit("surfaces");
    assert("session"@.len() == 7 && "surfaces"@.len() == 8);
    let st0 = initial_state();
    let head = seq![TokModel::Other, session_start(m, id), open_tok("surfaces"@, Seq::empty())];
    let body = surfaces_toks(m.surfaces);
    let mid = seq![close_tok("surfaces"@)];
    let lay = layout_toks(m.layout);
    assert(document_prefix(m, id) == head + body + mid + lay);
    lemma_run_concat(st0, head + body + mid, lay);
    lemma_run_concat(st0, head + body, mid);
    lemma_run_concat(st0, head, body);
    let attrs = crate::session_parse::AttrsModel {
        id: Some(id),
        created: Some(m.created),
        schema_version: Some(m.schema_version),
    };
    let st1 = StateModel { attrs, ..st0 };
    lemma_session_attrs(m, id);
    assert(head.drop_first() =~= seq![session_start(m, id), open_tok("surfaces"@, Seq::empty())]);
    assert(head.drop_first().drop_first() =~= seq![open_tok("surfaces"@, Seq::empty())]);
    assert(step_spec(st0, TokModel::Other) == Ok::<StateModel, ErrorModel>(st0));
    assert(step_spec(st0, session_start(m, id)) == Ok::<StateModel, ErrorModel>(st1));
    lemma_plain_tags(st1);
    lemma_run_one(st1, open_tok("surfaces"@, Seq::empty()));
    assert(st1.buf =~= Seq::<char>::empty());
    assert(run_from(st1, head.drop_first().drop_first()) == Ok::<StateModel, ErrorModel>(st1));
    assert(run_from(st0, head.drop_first()) == Ok::<StateModel, ErrorModel>(st1));
    assert(run_from(st0, head) == Ok::<StateModel, ErrorModel>(st1));
    lemma_surfaces(st1, m.surfaces);
    assert(st1.surfaces + m.surfaces =~= m.surfaces);
    let st2 = StateModel { surfaces: m.surfaces, ..st1 };
    lemma_plain_tags(st2);
    lemma_run_one(st2, close_tok("surfaces"@));
    lemma_layout(st2, m.layout);
    assert(read_state(m, id) == StateModel { scroll: m.layout.scroll_pos, focus: m.layout.focus, ..st2 });
}

/// What the written document of an image reads as: the same image,
/// carrying the id that was written. This holds for every image whose
/// surface ids are 32 bytes, whose surfaces are listed in order of `order`
/// (the reader sorts them by it) and whose scroll position is a
/// floating-point literal.
pub proof fn law_read_written_document(m: ImageModel, id: Seq<char>)
    requires
        reads_back(m),
    ensures
        parse_tokens_spec(document_tokens(m, id)) == Ok::<ImageModel, ErrorModel>(
            ImageModel { id: Some(id), ..m },
        ),
{
    reveal_strlit("session");
    reveal_strlit("surface");
    assert("session"@.len() == 7);
    assert("session"@[1] != "surface"@[1]);
    let t = document_tokens(m, id);
    lemma_run_spec_from(t);
    lemma_read_prefix(m, id);
    let st = read_state(m, id);
    lemma_run_concat(initial_state(), document_prefix(m, id), seq![close_tok("session"@)]);
    lemma_plain_tags(st);
    lemma_run_one(st, close_tok("session"@));
    lemma_sorted_unchanged(m.surfaces);
    assert(run_spec(t) == Ok::<StateModel, ErrorModel>(st));
}

/// Reading a written image back from text: for any text whose events, as
/// quick-xml's reader yields them, carry the written document's tokens and
/// end at the end of the document, [`crate::session::SessionImage::from_xml`]
/// gives the image with the id that was written (for images as
/// [`law_read_written_document`] takes them).
pub proof fn law_read_written_text(m: ImageModel, id: Seq<char>, text: Seq<char>)
    requires
        reads_back(m),
        crate::xml::doc_tokens(crate::xml::doc_events(text)) == document_tokens(m, id),
        crate::xml::doc_error(crate::xml::doc_events(text)) is None,
    ensures
        crate::session_parse::read_document_spec(crate::xml::doc_events(text)) == Ok::<ImageModel, ErrorModel>(
            ImageModel { id: Some(id), ..m },
        ),
{
    law_read_written_document(m, id);
}

} // verus!
