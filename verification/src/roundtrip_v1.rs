//! Reading back a written v1 document: the tokens of its coefficient block,
//! and the laws that the base reader passes over the block while the
//! coefficient reader reads it back.
use vstd::prelude::*;
use crate::coefficients::{bound_of, bound_text, confidentiality_of, confidentiality_text,
    integrity_of, integrity_text, linearity_of, linearity_text, BoundModel, CoefficientModel,
    IntervalModel};
use crate::galois::{coefficient_for_spec, coefficients_namespace, validate_spec, ImageV1Model,
    SurfaceCoefficientModel};
use crate::galois_parse::{coeff_initial, coeff_run_spec, coeff_step_spec, CoeffBuilderModel,
    CoeffStateModel};
use crate::roundtrip::{attr_tok, close_tok, document_tokens, layout_toks, lemma_run_concat, lemma_run_one,
    lemma_run_spec_from, open_tok, quiet, run_from, session_start, surfaces_toks};
use crate::session::{surface_id_text, ErrorModel, ImageModel, SurfaceModel};
use crate::session_parse::{parse_tokens_spec, run_spec, step_spec, StateModel};
use crate::xml::{AttrModel, TokModel};

verus! {

// ---------------------------------------------------------------------------
// The tokens of the coefficient block

/// The `<c:delay-path/>` elements of a timing multi-interval.
pub open spec fn delay_path_toks(ivs: Seq<IntervalModel>) -> Seq<TokModel>
    decreases ivs.len(),
{
    if ivs.len() == 0 {
        Seq::empty()
    } else {
        delay_path_toks(ivs.drop_last()) + seq![
            open_tok(
                "delay-path"@,
                seq![
                    attr_tok("hi"@, bound_text(ivs.last().hi)),
                    attr_tok("lo"@, bound_text(ivs.last().lo)),
                ],
            ),
        ]
    }
}

/// One `<c:surface-coefficient>` element.
pub open spec fn coefficient_toks(id: Seq<u8>, c: CoefficientModel) -> Seq<TokModel> {
    seq![
        open_tok("surface-coefficient"@, seq![attr_tok("surface-ref"@, surface_id_text(id))]),
        open_tok("timing"@, Seq::empty()),
    ] + delay_path_toks(c.timing) + seq![
        close_tok("timing"@),
        open_tok(
            "security"@,
            seq![
                attr_tok("confidentiality"@, confidentiality_text(c.confidentiality)),
                attr_tok("integrity"@, integrity_text(c.integrity)),
            ],
        ),
        open_tok("linearity"@, seq![attr_tok("count"@, linearity_text(c.linearity))]),
        close_tok("surface-coefficient"@),
    ]
}

/// The coefficient elements, in the order of the base's surfaces; a surface
/// without a coefficient has none.
pub open spec fn coefficient_elements_toks(ss: Seq<SurfaceModel>, cs: Seq<SurfaceCoefficientModel>) -> Seq<
    TokModel,
>
    decreases ss.len(),
{
    if ss.len() == 0 {
        Seq::empty()
    } else {
        coefficient_elements_toks(ss.drop_last(), cs) + match coefficient_for_spec(cs, ss.last().id) {
            Some(c) => coefficient_toks(ss.last().id, c),
            None => Seq::empty(),
        }
    }
}

/// The `<c:coefficients>` block.
pub open spec fn coefficients_block_toks(ss: Seq<SurfaceModel>, cs: Seq<SurfaceCoefficientModel>) -> Seq<
    TokModel,
> {
    seq![open_tok("coefficients"@, seq![attr_tok("c"@, coefficients_namespace())])]
        + coefficient_elements_toks(ss, cs) + seq![close_tok("coefficients"@)]
}

/// The tokens that a reader which drops whitespace-only text gives for the
/// text XML of the v1 image `x` carrying the id `id`: the base document with
/// the coefficient block after `<layout>`.
pub open spec fn v1_document_tokens(x: ImageV1Model, id: Seq<char>) -> Seq<TokModel> {
    seq![TokModel::Other, session_start(x.base, id), open_tok("surfaces"@, Seq::empty())]
        + surfaces_toks(x.base.surfaces) + seq![close_tok("surfaces"@)] + layout_toks(x.base.layout)
        + coefficients_block_toks(x.base.surfaces, x.coefficients) + seq![close_tok("session"@)]
}

// ---------------------------------------------------------------------------
// Names

/// The local name of a start or end tag.
pub open spec fn tok_name(t: TokModel) -> Option<Seq<char>> {
    match t {
        TokModel::Open { name, .. } => Some(name),
        TokModel::Close { name } => Some(name),
        _ => None,
    }
}

/// Whether a name is one of the coefficient block's.
pub open spec fn coeff_name(n: Seq<char>) -> bool {
    n == "coefficients"@ || n == "surface-coefficient"@ || n == "timing"@ || n == "delay-path"@
        || n == "security"@ || n == "linearity"@
}

/// Whether a token is text, another event or a coefficient-block tag.
pub open spec fn coeff_tag_ok(t: TokModel) -> bool {
    match tok_name(t) {
        Some(n) => coeff_name(n),
        None => true,
    }
}

/// Whether every tag among `toks` is a coefficient-block tag.
pub open spec fn all_coeff_named(toks: Seq<TokModel>) -> bool {
    forall|i: int| 0 <= i < toks.len() ==> #[trigger] coeff_tag_ok(toks[i])
}

proof fn lemma_all_coeff_named_concat(a: Seq<TokModel>, b: Seq<TokModel>)
    requires
        all_coeff_named(a),
        all_coeff_named(b),
    ensures
        all_coeff_named(a + b),
{
    assert forall|i: int| 0 <= i < (a + b).len() implies #[trigger] coeff_tag_ok((a + b)[i]) by {
        if i < a.len() {
            assert((a + b)[i] == a[i]);
        } else {
            assert((a + b)[i] == b[i - a.len()]);
        }
    }
}

proof fn lemma_delay_paths_named(ivs: Seq<IntervalModel>)
    ensures
        all_coeff_named(delay_path_toks(ivs)),
    decreases ivs.len(),
{
    if ivs.len() > 0 {
        lemma_delay_paths_named(ivs.drop_last());
        let last = seq![
            open_tok(
                "delay-path"@,
                seq![
                    attr_tok("hi"@, bound_text(ivs.last().hi)),
                    attr_tok("lo"@, bound_text(ivs.last().lo)),
                ],
            ),
        ];
        assert(tok_name(last[0]) == Some("delay-path"@));
        lemma_all_coeff_named_concat(delay_path_toks(ivs.drop_last()), last);
    }
}

proof fn lemma_coefficient_named(id: Seq<u8>, c: CoefficientModel)
    ensures
        all_coeff_named(coefficient_toks(id, c)),
{
    let head = seq![
        open_tok("surface-coefficient"@, seq![attr_tok("surface-ref"@, surface_id_text(id))]),
        open_tok("timing"@, Seq::empty()),
    ];
    let tail = seq![
        close_tok("timing"@),
        open_tok(
            "security"@,
            seq![
                attr_tok("confidentiality"@, confidentiality_text(c.confidentiality)),
                attr_tok("integrity"@, integrity_text(c.integrity)),
            ],
        ),
        open_tok("linearity"@, seq![attr_tok("count"@, linearity_text(c.linearity))]),
        close_tok("surface-coefficient"@),
    ];
    assert(tok_name(head[0]) == Some("surface-coefficient"@));
    assert(tok_name(head[1]) == Some("timing"@));
    assert(all_coeff_named(head));
    assert(tok_name(tail[0]) == Some("timing"@));
    assert(tok_name(tail[1]) == Some("security"@));
    assert(tok_name(tail[2]) == Some("linearity"@));
    assert(tok_name(tail[3]) == Some("surface-coefficient"@));
    assert(all_coeff_named(tail));
    lemma_delay_paths_named(c.timing);
    lemma_all_coeff_named_concat(head, delay_path_toks(c.timing));
    lemma_all_coeff_named_concat(head + delay_path_toks(c.timing), tail);
}

proof fn lemma_elements_named(ss: Seq<SurfaceModel>, cs: Seq<SurfaceCoefficientModel>)
    ensures
        all_coeff_named(coefficient_elements_toks(ss, cs)),
    decreases ss.len(),
{
    if ss.len() > 0 {
        lemma_elements_named(ss.drop_last(), cs);
        match coefficient_for_spec(cs, ss.last().id) {
            Some(c) => {
                lemma_coefficient_named(ss.last().id, c);
                lemma_all_coeff_named_concat(
                    coefficient_elements_toks(ss.drop_last(), cs),
                    coefficient_toks(ss.last().id, c),
                );
            },
            None => {
                assert(coefficient_elements_toks(ss, cs) =~= coefficient_elements_toks(
                    ss.drop_last(),
                    cs,
                ));
            },
        }
    }
}

/// Every tag of the coefficient block is a coefficient-block tag.
proof fn lemma_block_named(ss: Seq<SurfaceModel>, cs: Seq<SurfaceCoefficientModel>)
    ensures
        all_coeff_named(coefficients_block_toks(ss, cs)),
{
    let open = seq![open_tok("coefficients"@, seq![attr_tok("c"@, coefficients_namespace())])];
    let close = seq![close_tok("coefficients"@)];
    assert(tok_name(open[0]) == Some("coefficients"@));
    assert(tok_name(close[0]) == Some("coefficients"@));
    assert(all_coeff_named(open));
    assert(all_coeff_named(close));
    lemma_elements_named(ss, cs);
    lemma_all_coeff_named_concat(open, coefficient_elements_toks(ss, cs));
    lemma_all_coeff_named_concat(open + coefficient_elements_toks(ss, cs), close);
}

// ---------------------------------------------------------------------------
// The base reader passes over the block

/// A coefficient-block tag changes nothing in a state between elements.
proof fn lemma_foreign_step(st: StateModel, t: TokModel)
    requires
        quiet(st),
        coeff_tag_ok(t),
    ensures
        step_spec(st, t) == Ok::<StateModel, ErrorModel>(st),
{
    reveal_strlit("session");
    reveal_strlit("surface");
    reveal_strlit("host");
    reveal_strlit("address");
    reveal_strlit("os");
    reveal_strlit("machine");
    reveal_strlit("capture");
    reveal_strlit("codec");
    reveal_strlit("dimensions");
    reveal_strlit("strip");
    reveal_strlit("focus");
    reveal_strlit("coefficients");
    reveal_strlit("surface-coefficient");
    reveal_strlit("timing");
    reveal_strlit("delay-path");
    reveal_strlit("security");
    reveal_strlit("linearity");
    assert("session"@.len() == 7 && "surface"@.len() == 7 && "host"@.len() == 4);
    assert("address"@.len() == 7 && "os"@.len() == 2 && "machine"@.len() == 7);
    assert("capture"@.len() == 7 && "codec"@.len() == 5 && "dimensions"@.len() == 10);
    assert("strip"@.len() == 5 && "focus"@.len() == 5 && "coefficients"@.len() == 12);
    assert("surface-coefficient"@.len() == 19 && "timing"@.len() == 6);
    assert("delay-path"@.len() == 10 && "security"@.len() == 8 && "linearity"@.len() == 9);
    assert("delay-path"@[1] != "dimensions"@[1]);
    assert(st.buf =~= Seq::<char>::empty());
}

/// A run of coefficient-block tags changes nothing in a state between
/// elements.
proof fn lemma_foreign_run(st: StateModel, toks: Seq<TokModel>)
    requires
        quiet(st),
        all_coeff_named(toks),
    ensures
        run_from(st, toks) == Ok::<StateModel, ErrorModel>(st),
    decreases toks.len(),
{
    if toks.len() > 0 {
        assert(coeff_tag_ok(toks[0]));
        lemma_foreign_step(st, toks[0]);
        let rest = toks.drop_first();
        assert forall|i: int| 0 <= i < rest.len() implies #[trigger] coeff_tag_ok(rest[i]) by {
            assert(rest[i] == toks[i + 1]);
        }
        lemma_foreign_run(st, rest);
    }
}

/// A v0 reader reading a written v1 document recovers exactly the base,
/// carrying the id that was written: the coefficient block is passed over.
pub proof fn law_base_reader_passes_over_coefficients(x: ImageV1Model, id: Seq<char>)
    requires
        crate::roundtrip::reads_back(x.base),
    ensures
        parse_tokens_spec(v1_document_tokens(x, id)) == Ok::<ImageModel, ErrorModel>(
            ImageModel { id: Some(id), ..x.base },
        ),
{
    reveal_strlit("session");
    reveal_strlit("surface");
    assert("session"@.len() == 7);
    assert("session"@[1] != "surface"@[1]);
    let t = v1_document_tokens(x, id);
    let prefix = crate::roundtrip::document_prefix(x.base, id);
    let block = coefficients_block_toks(x.base.surfaces, x.coefficients);
    let end = seq![close_tok("session"@)];
    assert(t == prefix + block + end);
    lemma_run_spec_from(t);
    crate::roundtrip::lemma_read_prefix(x.base, id);
    let st = crate::roundtrip::read_state(x.base, id);
    lemma_run_concat(crate::session_parse::initial_state(), prefix + block, end);
    lemma_run_concat(crate::session_parse::initial_state(), prefix, block);
    lemma_block_named(x.base.surfaces, x.coefficients);
    lemma_foreign_run(st, block);
    crate::roundtrip::lemma_plain_tags(st);
    lemma_run_one(st, close_tok("session"@));
    crate::roundtrip::lemma_sorted_unchanged(x.base.surfaces);
    assert(run_spec(t) == Ok::<StateModel, ErrorModel>(st));
}


// ---------------------------------------------------------------------------
// Running the coefficient reader from any state

/// The coefficient reader's state after `toks`, starting from `st`.
pub open spec fn coeff_run_from(st: CoeffStateModel, toks: Seq<TokModel>) -> Result<CoeffStateModel, ErrorModel>
    decreases toks.len(),
{
    if toks.len() == 0 {
        Ok(st)
    } else {
        match coeff_step_spec(st, toks[0]) {
            Ok(s) => coeff_run_from(s, toks.drop_first()),
            Err(e) => Err(e),
        }
    }
}

/// Runs `toks` after a coefficient-reader state, or passes an error on.
pub open spec fn coeff_then(r: Result<CoeffStateModel, ErrorModel>, toks: Seq<TokModel>) -> Result<
    CoeffStateModel,
    ErrorModel,
> {
    match r {
        Ok(s) => coeff_run_from(s, toks),
        Err(e) => Err(e),
    }
}

proof fn lemma_coeff_concat(st: CoeffStateModel, a: Seq<TokModel>, b: Seq<TokModel>)
    ensures
        coeff_run_from(st, a + b) == coeff_then(coeff_run_from(st, a), b),
    decreases a.len(),
{
    if a.len() == 0 {
        assert(a + b =~= b);
    } else {
        assert((a + b)[0] == a[0]);
        assert((a + b).drop_first() =~= a.drop_first() + b);
        match coeff_step_spec(st, a[0]) {
            Ok(s) => lemma_coeff_concat(s, a.drop_first(), b),
            Err(e) => {},
        }
    }
}

proof fn lemma_coeff_one(st: CoeffStateModel, t: TokModel)
    ensures
        coeff_run_from(st, seq![t]) == coeff_step_spec(st, t),
{
    assert(seq![t].drop_first() =~= Seq::<TokModel>::empty());
    match coeff_step_spec(st, t) {
        Ok(s) => assert(coeff_run_from(s, Seq::<TokModel>::empty()) == Ok::<CoeffStateModel, ErrorModel>(s)),
        Err(e) => {},
    }
}

proof fn lemma_coeff_run_from(t: Seq<TokModel>)
    ensures
        coeff_run_spec(t) == coeff_run_from(coeff_initial(), t),
    decreases t.len(),
{
    if t.len() > 0 {
        lemma_coeff_run_from(t.drop_last());
        lemma_coeff_concat(coeff_initial(), t.drop_last(), seq![t.last()]);
        assert(t.drop_last() + seq![t.last()] =~= t);
        match coeff_run_from(coeff_initial(), t.drop_last()) {
            Ok(s) => lemma_coeff_one(s, t.last()),
            Err(e) => {},
        }
    }
}

// ---------------------------------------------------------------------------
// The coefficient reader passes over the base

/// Whether a token is text, another event or a tag with a name shorter than
/// `coefficients`.
pub open spec fn short_tag(t: TokModel) -> bool {
    match tok_name(t) {
        Some(n) => n.len() < 12,
        None => true,
    }
}

/// Whether every tag among `toks` has a name shorter than `coefficients`.
pub open spec fn all_short(toks: Seq<TokModel>) -> bool {
    forall|i: int| 0 <= i < toks.len() ==> #[trigger] short_tag(toks[i])
}

proof fn lemma_all_short_concat(a: Seq<TokModel>, b: Seq<TokModel>)
    requires
        all_short(a),
        all_short(b),
    ensures
        all_short(a + b),
{
    assert forall|i: int| 0 <= i < (a + b).len() implies #[trigger] short_tag((a + b)[i]) by {
        if i < a.len() {
            assert((a + b)[i] == a[i]);
        } else {
            assert((a + b)[i] == b[i - a.len()]);
        }
    }
}

proof fn lemma_text_el_short(tag: Seq<char>, t: Seq<char>)
    requires
        tag.len() < 12,
    ensures
        all_short(crate::roundtrip::text_el_toks(tag, t)),
{
    let a = seq![open_tok(tag, Seq::empty())];
    let b = crate::roundtrip::text_toks(t);
    let c = seq![close_tok(tag)];
    assert(short_tag(a[0]));
    assert(short_tag(c[0]));
    assert(all_short(a));
    assert(all_short(c));
    if t.len() > 0 {
        assert(short_tag(b[0]));
    }
    assert(all_short(b));
    lemma_all_short_concat(a, b);
    lemma_all_short_concat(a + b, c);
}

proof fn lemma_surface_short(s: SurfaceModel)
    ensures
        all_short(crate::roundtrip::surface_toks(s)),
{
    reveal_strlit("surface");
    reveal_strlit("host");
    reveal_strlit("address");
    reveal_strlit("os");
    reveal_strlit("machine");
    reveal_strlit("capture");
    reveal_strlit("codec");
    reveal_strlit("dimensions");
    let start = seq![crate::roundtrip::surface_start(s)];
    assert(short_tag(start[0]));
    assert(all_short(start));
    let ho = seq![open_tok("host"@, Seq::empty())];
    let hc = seq![close_tok("host"@)];
    assert(short_tag(ho[0]) && short_tag(hc[0]));
    assert(all_short(ho) && all_short(hc));
    let a = crate::roundtrip::text_el_toks("address"@, s.host.address);
    let o = crate::roundtrip::text_el_toks("os"@, crate::session::os_text(s.host.os));
    let m = crate::roundtrip::text_el_toks("machine"@, s.host.machine);
    let c = crate::roundtrip::text_el_toks("capture"@, s.host.capture);
    lemma_text_el_short("address"@, s.host.address);
    lemma_text_el_short("os"@, crate::session::os_text(s.host.os));
    lemma_text_el_short("machine"@, s.host.machine);
    lemma_text_el_short("capture"@, s.host.capture);
    lemma_all_short_concat(ho, a);
    lemma_all_short_concat(ho + a, o);
    lemma_all_short_concat(ho + a + o, m);
    lemma_all_short_concat(ho + a + o + m, c);
    lemma_all_short_concat(ho + a + o + m + c, hc);
    assert(crate::roundtrip::host_toks(s.host) == ho + a + o + m + c + hc);
    let co = crate::roundtrip::text_el_toks("codec"@, crate::session::codec_text(s.codec));
    lemma_text_el_short("codec"@, crate::session::codec_text(s.codec));
    let tail = seq![crate::roundtrip::dims_tok(s), close_tok("surface"@)];
    assert(short_tag(tail[0]) && short_tag(tail[1]));
    assert(all_short(tail));
    lemma_all_short_concat(start, crate::roundtrip::host_toks(s.host));
    lemma_all_short_concat(start + crate::roundtrip::host_toks(s.host), co);
    lemma_all_short_concat(start + crate::roundtrip::host_toks(s.host) + co, tail);
}

proof fn lemma_surfaces_short(ss: Seq<SurfaceModel>)
    ensures
        all_short(surfaces_toks(ss)),
    decreases ss.len(),
{
    if ss.len() > 0 {
        lemma_surfaces_short(ss.drop_last());
        lemma_surface_short(ss.last());
        lemma_all_short_concat(surfaces_toks(ss.drop_last()), crate::roundtrip::surface_toks(ss.last()));
    }
}

/// Every tag of a written base document, up to the end of its `<layout>`,
/// has a name shorter than `coefficients`.
proof fn lemma_prefix_short(m: ImageModel, id: Seq<char>)
    ensures
        all_short(crate::roundtrip::document_prefix(m, id)),
{
    reveal_strlit("session");
    reveal_strlit("surfaces");
    reveal_strlit("layout");
    reveal_strlit("strip");
    reveal_strlit("focus");
    let head = seq![TokModel::Other, session_start(m, id), open_tok("surfaces"@, Seq::empty())];
    assert(short_tag(head[0]) && short_tag(head[1]) && short_tag(head[2]));
    assert(all_short(head));
    lemma_surfaces_short(m.surfaces);
    let mid = seq![close_tok("surfaces"@)];
    assert(short_tag(mid[0]));
    assert(all_short(mid));
    let l0 = seq![
        open_tok("layout"@, Seq::empty()),
        open_tok("strip"@, seq![attr_tok("scroll-pos"@, m.layout.scroll_pos)]),
    ];
    assert(short_tag(l0[0]) && short_tag(l0[1]));
    assert(all_short(l0));
    let f = crate::roundtrip::focus_toks(m.layout.focus);
    if f.len() > 0 {
        assert(short_tag(f[0]));
    }
    assert(all_short(f));
    let lc = seq![close_tok("layout"@)];
    assert(short_tag(lc[0]));
    assert(all_short(lc));
    lemma_all_short_concat(l0, f);
    lemma_all_short_concat(l0 + f, lc);
    assert(layout_toks(m.layout) == l0 + f + lc);
    lemma_all_short_concat(head, surfaces_toks(m.surfaces));
    lemma_all_short_concat(head + surfaces_toks(m.surfaces), mid);
    lemma_all_short_concat(head + surfaces_toks(m.surfaces) + mid, layout_toks(m.layout));
}

/// Outside the block, with no coefficient open, short tags change nothing.
proof fn lemma_coeff_passes_short(st: CoeffStateModel, toks: Seq<TokModel>)
    requires
        !st.in_coeffs,
        st.cur is None,
        all_short(toks),
    ensures
        coeff_run_from(st, toks) == Ok::<CoeffStateModel, ErrorModel>(st),
    decreases toks.len(),
{
    reveal_strlit("coefficients");
    assert("coefficients"@.len() == 12);
    if toks.len() > 0 {
        assert(short_tag(toks[0]));
        assert(coeff_step_spec(st, toks[0]) == Ok::<CoeffStateModel, ErrorModel>(st));
        let rest = toks.drop_first();
        assert forall|i: int| 0 <= i < rest.len() implies #[trigger] short_tag(rest[i]) by {
            assert(rest[i] == toks[i + 1]);
        }
        lemma_coeff_passes_short(st, rest);
    }
}


// ---------------------------------------------------------------------------
// The coefficient reader reads the block back

/// Whether a written coefficient reads back as itself: it has a delay path,
/// and each bound's text reads as that bound.
pub open spec fn coefficient_reads_back(c: CoefficientModel) -> bool {
    &&& c.timing.len() > 0
    &&& forall|i: int|
        0 <= i < c.timing.len() ==> bound_of(bound_text((#[trigger] c.timing[i]).lo)) == Some(
            c.timing[i].lo,
        ) && bound_of(bound_text(c.timing[i].hi)) == Some(c.timing[i].hi)
}

/// The coefficients that the block of a v1 image holds: for each surface of
/// the base, in order, the first coefficient that refers to it, if any.
pub open spec fn written_coefficients(ss: Seq<SurfaceModel>, cs: Seq<SurfaceCoefficientModel>) -> Seq<
    SurfaceCoefficientModel,
>
    decreases ss.len(),
{
    if ss.len() == 0 {
        Seq::empty()
    } else {
        written_coefficients(ss.drop_last(), cs) + match coefficient_for_spec(cs, ss.last().id) {
            Some(c) => seq![SurfaceCoefficientModel { surface_ref: ss.last().id, coefficient: c }],
            None => Seq::empty(),
        }
    }
}

proof fn lemma_labels_read(c: CoefficientModel)
    ensures
        confidentiality_of(confidentiality_text(c.confidentiality)) == Some(c.confidentiality),
        integrity_of(integrity_text(c.integrity)) == Some(c.integrity),
        linearity_of(linearity_text(c.linearity)) == Some(c.linearity),
{
    reveal_strlit("secret");
    reveal_strlit("restricted");
    reveal_strlit("public");
    reveal_strlit("trusted");
    reveal_strlit("endorsed");
    reveal_strlit("untrusted");
    reveal_strlit("omega");
    assert("secret"@.len() == 6 && "restricted"@.len() == 10 && "public"@.len() == 6);
    assert("secret"@[0] != "public"@[0]);
    assert("trusted"@.len() == 7 && "endorsed"@.len() == 8 && "untrusted"@.len() == 9);
    if let crate::coefficients::Linearity::Finite(n) = c.linearity {
        crate::roundtrip::lemma_decimal_parses(n as nat, u64::MAX as nat);
        crate::roundtrip::lemma_decimal_digits(n as nat);
        assert(crate::text::is_digit(crate::text::decimal(n as nat)[0]));
        assert(!crate::text::is_digit("omega"@[0]));
        assert(crate::text::decimal(n as nat) != "omega"@);
    }
}

/// The `<c:delay-path/>` elements add their intervals to the open
/// coefficient.
proof fn lemma_delay_paths_read(st: CoeffStateModel, b: CoeffBuilderModel, ivs: Seq<IntervalModel>)
    requires
        st.in_coeffs,
        st.cur == Some(b),
        forall|i: int|
            0 <= i < ivs.len() ==> bound_of(bound_text((#[trigger] ivs[i]).lo)) == Some(ivs[i].lo)
                && bound_of(bound_text(ivs[i].hi)) == Some(ivs[i].hi),
    ensures
        coeff_run_from(st, delay_path_toks(ivs)) == Ok::<CoeffStateModel, ErrorModel>(
            CoeffStateModel { cur: Some(CoeffBuilderModel { timing: b.timing + ivs, ..b }), ..st },
        ),
    decreases ivs.len(),
{
    reveal_strlit("coefficients");
    reveal_strlit("surface-coefficient");
    reveal_strlit("delay-path");
    reveal_strlit("hi");
    reveal_strlit("lo");
    assert("coefficients"@.len() == 12 && "surface-coefficient"@.len() == 19);
    assert("delay-path"@.len() == 10);
    assert("hi"@[0] != "lo"@[0]);
    if ivs.len() == 0 {
        assert(b.timing + ivs =~= b.timing);
        assert(CoeffBuilderModel { timing: b.timing + ivs, ..b } == b);
    } else {
        let d = ivs.drop_last();
        assert forall|i: int| 0 <= i < d.len() implies bound_of(bound_text((#[trigger] d[i]).lo)) == Some(
            d[i].lo,
        ) && bound_of(bound_text(d[i].hi)) == Some(d[i].hi) by {
            assert(d[i] == ivs[i]);
        }
        lemma_delay_paths_read(st, b, d);
        let last = ivs.last();
        let a = seq![attr_tok("hi"@, bound_text(last.hi)), attr_tok("lo"@, bound_text(last.lo))];
        let tok = open_tok("delay-path"@, a);
        lemma_coeff_concat(st, delay_path_toks(d), seq![tok]);
        let b1 = CoeffBuilderModel { timing: b.timing + d, ..b };
        let s1 = CoeffStateModel { cur: Some(b1), ..st };
        lemma_coeff_one(s1, tok);
        assert(a.drop_first() =~= seq![attr_tok("lo"@, bound_text(last.lo))]);
        assert(crate::session_parse::attr_lookup(a.drop_first(), "lo"@) == Ok::<Seq<char>, ErrorModel>(
            bound_text(last.lo),
        ));
        assert(crate::session_parse::attr_lookup(a, "lo"@) == Ok::<Seq<char>, ErrorModel>(
            bound_text(last.lo),
        ));
        assert(crate::session_parse::attr_lookup(a, "hi"@) == Ok::<Seq<char>, ErrorModel>(
            bound_text(last.hi),
        ));
        assert(bound_of(bound_text(last.lo)) == Some(last.lo));
        assert(bound_of(bound_text(last.hi)) == Some(last.hi));
        assert(IntervalModel { lo: last.lo, hi: last.hi } == last);
        assert((b.timing + d).push(last) =~= b.timing + ivs);
    }
}

/// A `<c:surface-coefficient>` element adds its coefficient.
proof fn lemma_coefficient_read(st: CoeffStateModel, id: Seq<u8>, c: CoefficientModel)
    requires
        st.in_coeffs,
        st.cur is None,
        id.len() == 32,
        coefficient_reads_back(c),
    ensures
        coeff_run_from(st, coefficient_toks(id, c)) == Ok::<CoeffStateModel, ErrorModel>(
            CoeffStateModel {
                out: st.out.push(SurfaceCoefficientModel { surface_ref: id, coefficient: c }),
                ..st
            },
        ),
{
    reveal_strlit("coefficients");
    reveal_strlit("surface-coefficient");
    reveal_strlit("timing");
    reveal_strlit("delay-path");
    reveal_strlit("security");
    reveal_strlit("linearity");
    reveal_strlit("surface-ref");
    reveal_strlit("confidentiality");
    reveal_strlit("integrity");
    reveal_strlit("count");
    assert("coefficients"@.len() == 12 && "surface-coefficient"@.len() == 19 && "timing"@.len() == 6);
    assert("delay-path"@.len() == 10 && "security"@.len() == 8 && "linearity"@.len() == 9);
    assert("confidentiality"@.len() == 15 && "integrity"@.len() == 9);
    let start = open_tok("surface-coefficient"@, seq![attr_tok("surface-ref"@, surface_id_text(id))]);
    let topen = open_tok("timing"@, Seq::empty());
    let head = seq![start, topen];
    let paths = delay_path_toks(c.timing);
    let tclose = close_tok("timing"@);
    let sec = open_tok(
        "security"@,
        seq![
            attr_tok("confidentiality"@, confidentiality_text(c.confidentiality)),
            attr_tok("integrity"@, integrity_text(c.integrity)),
        ],
    );
    let lin = open_tok("linearity"@, seq![attr_tok("count"@, linearity_text(c.linearity))]);
    let close = close_tok("surface-coefficient"@);
    let tail = seq![tclose, sec, lin, close];
    assert(coefficient_toks(id, c) == head + paths + tail);
    lemma_coeff_concat(st, head + paths, tail);
    lemma_coeff_concat(st, head, paths);
    // The start tag opens a coefficient; `<c:timing>` changes nothing.
    crate::session::law_surface_id_roundtrip(id);
    let b0 = CoeffBuilderModel {
        surface_ref: id,
        timing: Seq::empty(),
        confidentiality: None,
        integrity: None,
        linearity: None,
    };
    let s1 = CoeffStateModel { cur: Some(b0), ..st };
    assert(crate::session_parse::attr_lookup(
        seq![attr_tok("surface-ref"@, surface_id_text(id))],
        "surface-ref"@,
    ) == Ok::<Seq<char>, ErrorModel>(surface_id_text(id)));
    assert(coeff_step_spec(st, start) == Ok::<CoeffStateModel, ErrorModel>(s1));
    assert(coeff_step_spec(s1, topen) == Ok::<CoeffStateModel, ErrorModel>(s1));
    lemma_coeff_concat(st, seq![start], seq![topen]);
    assert(seq![start] + seq![topen] =~= head);
    lemma_coeff_one(st, start);
    lemma_coeff_one(s1, topen);
    // The delay paths.
    assert forall|i: int| 0 <= i < c.timing.len() implies bound_of(bound_text((#[trigger] c.timing[i]).lo))
        == Some(c.timing[i].lo) && bound_of(bound_text(c.timing[i].hi)) == Some(c.timing[i].hi) by {}
    lemma_delay_paths_read(s1, b0, c.timing);
    assert(Seq::<IntervalModel>::empty() + c.timing =~= c.timing);
    let b1 = CoeffBuilderModel { timing: c.timing, ..b0 };
    let s2 = CoeffStateModel { cur: Some(b1), ..st };
    // `</c:timing>`, the labels, the count, and the end tag.
    lemma_labels_read(c);
    assert(coeff_step_spec(s2, tclose) == Ok::<CoeffStateModel, ErrorModel>(s2));
    let sa = seq![
        attr_tok("confidentiality"@, confidentiality_text(c.confidentiality)),
        attr_tok("integrity"@, integrity_text(c.integrity)),
    ];
    assert(sa.drop_first() =~= seq![attr_tok("integrity"@, integrity_text(c.integrity))]);
    assert(crate::session_parse::attr_lookup(sa.drop_first(), "integrity"@) == Ok::<Seq<char>, ErrorModel>(
        integrity_text(c.integrity),
    ));
    assert(crate::session_parse::attr_lookup(sa, "integrity"@) == Ok::<Seq<char>, ErrorModel>(
        integrity_text(c.integrity),
    ));
    let b2 = CoeffBuilderModel {
        confidentiality: Some(c.confidentiality),
        integrity: Some(c.integrity),
        ..b1
    };
    let s3 = CoeffStateModel { cur: Some(b2), ..st };
    assert(coeff_step_spec(s2, sec) == Ok::<CoeffStateModel, ErrorModel>(s3));
    let b3 = CoeffBuilderModel { linearity: Some(c.linearity), ..b2 };
    let s4 = CoeffStateModel { cur: Some(b3), ..st };
    assert(coeff_step_spec(s3, lin) == Ok::<CoeffStateModel, ErrorModel>(s4));
    let sc = SurfaceCoefficientModel { surface_ref: id, coefficient: c };
    assert(crate::galois_parse::coeff_build_spec(b3) == Ok::<SurfaceCoefficientModel, ErrorModel>(sc));
    let s5 = CoeffStateModel { out: st.out.push(sc), ..st };
    assert(coeff_step_spec(s4, close) == Ok::<CoeffStateModel, ErrorModel>(s5));
    assert(tail.drop_first() =~= seq![sec, lin, close]);
    assert(tail.drop_first().drop_first() =~= seq![lin, close]);
    assert(tail.drop_first().drop_first().drop_first() =~= seq![close]);
    lemma_coeff_one(s4, close);
    assert(coeff_run_from(s3, seq![lin, close]) == Ok::<CoeffStateModel, ErrorModel>(s5));
    assert(coeff_run_from(s2, seq![sec, lin, close]) == Ok::<CoeffStateModel, ErrorModel>(s5));
    assert(coeff_run_from(s2, tail) == Ok::<CoeffStateModel, ErrorModel>(s5));
}


/// The coefficient elements add the written coefficients, in order.
proof fn lemma_elements_read(st: CoeffStateModel, ss: Seq<SurfaceModel>, cs: Seq<SurfaceCoefficientModel>)
    requires
        st.in_coeffs,
        st.cur is None,
        forall|i: int| 0 <= i < ss.len() ==> (#[trigger] ss[i]).id.len() == 32,
        forall|i: int| 0 <= i < cs.len() ==> coefficient_reads_back((#[trigger] cs[i]).coefficient),
    ensures
        coeff_run_from(st, coefficient_elements_toks(ss, cs)) == Ok::<CoeffStateModel, ErrorModel>(
            CoeffStateModel { out: st.out + written_coefficients(ss, cs), ..st },
        ),
    decreases ss.len(),
{
    if ss.len() == 0 {
        assert(st.out + written_coefficients(ss, cs) =~= st.out);
    } else {
        let d = ss.drop_last();
        assert forall|i: int| 0 <= i < d.len() implies (#[trigger] d[i]).id.len() == 32 by {
            assert(d[i] == ss[i]);
        }
        lemma_elements_read(st, d, cs);
        let s1 = CoeffStateModel { out: st.out + written_coefficients(d, cs), ..st };
        lemma_coeff_concat(st, coefficient_elements_toks(d, cs), match coefficient_for_spec(cs, ss.last().id) {
            Some(c) => coefficient_toks(ss.last().id, c),
            None => Seq::empty(),
        });
        match coefficient_for_spec(cs, ss.last().id) {
            Some(c) => {
                crate::galois::lemma_lookup_member(cs, ss.last().id);
                let j = choose|j: int| 0 <= j < cs.len() && (#[trigger] cs[j]).coefficient == c;
                assert(coefficient_reads_back(cs[j].coefficient));
                lemma_coefficient_read(s1, ss.last().id, c);
                assert((st.out + written_coefficients(d, cs)).push(
                    SurfaceCoefficientModel { surface_ref: ss.last().id, coefficient: c },
                ) =~= st.out + written_coefficients(ss, cs));
            },
            None => {
                assert(st.out + written_coefficients(ss, cs) =~= st.out + written_coefficients(d, cs));
            },
        }
    }
}

/// What the coefficient reader makes of a written v1 document: for each
/// surface of the base, in order, the first coefficient that refers to it
/// (the ones the block holds), whenever the surface ids are 32 bytes and
/// every coefficient reads back as itself.
pub proof fn law_coefficients_read_back(x: ImageV1Model, id: Seq<char>)
    requires
        forall|i: int| 0 <= i < x.base.surfaces.len() ==> (#[trigger] x.base.surfaces[i]).id.len() == 32,
        forall|i: int|
            0 <= i < x.coefficients.len() ==> coefficient_reads_back((#[trigger] x.coefficients[i]).coefficient),
    ensures
        crate::galois_parse::coefficients_from_tokens_spec(v1_document_tokens(x, id)) == Ok::<
            Seq<SurfaceCoefficientModel>,
            ErrorModel,
        >(written_coefficients(x.base.surfaces, x.coefficients)),
{
    reveal_strlit("coefficients");
    reveal_strlit("session");
    reveal_strlit("surface-coefficient");
    assert("coefficients"@.len() == 12 && "session"@.len() == 7 && "surface-coefficient"@.len() == 19);
    let ss = x.base.surfaces;
    let cs = x.coefficients;
    let t = v1_document_tokens(x, id);
    let prefix = crate::roundtrip::document_prefix(x.base, id);
    let open = open_tok("coefficients"@, seq![attr_tok("c"@, coefficients_namespace())]);
    let elems = coefficient_elements_toks(ss, cs);
    let close = close_tok("coefficients"@);
    let end = close_tok("session"@);
    assert(t == prefix + seq![open] + elems + seq![close] + seq![end]);
    lemma_coeff_run_from(t);
    let s0 = coeff_initial();
    lemma_coeff_concat(s0, prefix + seq![open] + elems + seq![close], seq![end]);
    lemma_coeff_concat(s0, prefix + seq![open] + elems, seq![close]);
    lemma_coeff_concat(s0, prefix + seq![open], elems);
    lemma_coeff_concat(s0, prefix, seq![open]);
    lemma_prefix_short(x.base, id);
    lemma_coeff_passes_short(s0, prefix);
    lemma_coeff_one(s0, open);
    let s1 = CoeffStateModel { in_coeffs: true, ..s0 };
    lemma_elements_read(s1, ss, cs);
    let s2 = CoeffStateModel { out: s0.out + written_coefficients(ss, cs), ..s1 };
    lemma_coeff_one(s2, close);
    let s3 = CoeffStateModel { in_coeffs: false, ..s2 };
    lemma_coeff_one(s3, end);
    assert(s0.out + written_coefficients(ss, cs) =~= written_coefficients(ss, cs));
}


/// Whether the coefficients of `x` follow its surfaces one for one (the
/// `i`-th refers to the `i`-th surface) and the surfaces' ids are distinct.
pub open spec fn aligned(x: ImageV1Model) -> bool {
    &&& x.coefficients.len() == x.base.surfaces.len()
    &&& forall|i: int|
        0 <= i < x.coefficients.len() ==> (#[trigger] x.coefficients[i]).surface_ref
            == x.base.surfaces[i].id
    &&& forall|i: int, j: int|
        0 <= i < j < x.base.surfaces.len() ==> x.base.surfaces[i].id != x.base.surfaces[j].id
}

proof fn lemma_first_ref(cs: Seq<SurfaceCoefficientModel>, id: Seq<u8>, k: int)
    requires
        0 <= k < cs.len(),
        cs[k].surface_ref == id,
        forall|j: int| 0 <= j < k ==> (#[trigger] cs[j]).surface_ref != id,
    ensures
        coefficient_for_spec(cs, id) == Some(cs[k].coefficient),
    decreases k,
{
    if k > 0 {
        let d = cs.drop_first();
        assert forall|j: int| 0 <= j < k - 1 implies (#[trigger] d[j]).surface_ref != id by {
            assert(d[j] == cs[j + 1]);
        }
        assert(cs[0].surface_ref != id);
        lemma_first_ref(d, id, k - 1);
    }
}

proof fn lemma_written_aligned(x: ImageV1Model, m: int)
    requires
        aligned(x),
        0 <= m <= x.base.surfaces.len(),
    ensures
        written_coefficients(x.base.surfaces.take(m), x.coefficients) == x.coefficients.take(m),
    decreases m,
{
    let ss = x.base.surfaces;
    let cs = x.coefficients;
    if m == 0 {
        assert(ss.take(0) =~= Seq::<SurfaceModel>::empty());
        assert(cs.take(0) =~= Seq::<SurfaceCoefficientModel>::empty());
    } else {
        lemma_written_aligned(x, m - 1);
        assert(ss.take(m).drop_last() =~= ss.take(m - 1));
        assert(ss.take(m).last() == ss[m - 1]);
        assert forall|j: int| 0 <= j < m - 1 implies (#[trigger] cs[j]).surface_ref != ss[m - 1].id by {
            assert(cs[j].surface_ref == ss[j].id);
        }
        assert(cs[m - 1].surface_ref == ss[m - 1].id);
        lemma_first_ref(cs, ss[m - 1].id, m - 1);
        assert(cs[m - 1] == SurfaceCoefficientModel {
            surface_ref: ss[m - 1].id,
            coefficient: cs[m - 1].coefficient,
        });
        assert(cs.take(m - 1).push(cs[m - 1]) =~= cs.take(m));
    }
}

proof fn lemma_ref_count_aligned(x: ImageV1Model, i: int, m: int)
    requires
        aligned(x),
        0 <= i < x.base.surfaces.len(),
        0 <= m <= x.coefficients.len(),
    ensures
        crate::galois::ref_count(x.coefficients.take(m), x.base.surfaces[i].id) == if i < m {
            1nat
        } else {
            0nat
        },
    decreases m,
{
    let cs = x.coefficients;
    if m == 0 {
        assert(cs.take(0).len() == 0);
    } else {
        lemma_ref_count_aligned(x, i, m - 1);
        assert(cs.take(m).drop_last() =~= cs.take(m - 1));
        assert(cs.take(m).last() == cs[m - 1]);
        assert(cs[m - 1].surface_ref == x.base.surfaces[m - 1].id);
        if m - 1 != i {
            if m - 1 < i {
                assert(x.base.surfaces[m - 1].id != x.base.surfaces[i].id);
            } else {
                assert(x.base.surfaces[i].id != x.base.surfaces[m - 1].id);
            }
        }
    }
}

/// An aligned image, under any id, passes validation (each surface is named by
/// exactly one coefficient), and writing its coefficients gives them back.
proof fn lemma_aligned_valid(x: ImageV1Model, y: ImageV1Model)
    requires
        aligned(x),
        y.base.surfaces == x.base.surfaces,
        y.coefficients == x.coefficients,
    ensures
        crate::galois::valid_spec(y),
        written_coefficients(x.base.surfaces, x.coefficients) == x.coefficients,
{
    let n = x.base.surfaces.len() as int;
    lemma_written_aligned(x, n);
    assert(x.base.surfaces.take(n) =~= x.base.surfaces);
    assert(x.coefficients.take(n) =~= x.coefficients);
    assert forall|i: int| 0 <= i < y.base.surfaces.len() implies crate::galois::ref_count(
        y.coefficients,
        #[trigger] y.base.surfaces[i].id,
    ) == 1 by {
        lemma_ref_count_aligned(x, i, n);
    }
}

/// A written v1 image reads back as itself, carrying the id that was
/// written: the base as the base reader reads it, the coefficients as the
/// coefficient reader reads them, and the structural check passes. This
/// holds for every image whose base reads back (see
/// [`crate::roundtrip::reads_back`]), whose coefficients follow its surfaces
/// one for one with distinct ids, and whose coefficients read back as
/// themselves.
pub proof fn law_v1_read_written_document(x: ImageV1Model, id: Seq<char>)
    requires
        crate::roundtrip::reads_back(x.base),
        aligned(x),
        forall|i: int|
            0 <= i < x.coefficients.len() ==> coefficient_reads_back((#[trigger] x.coefficients[i]).coefficient),
    ensures
        crate::galois_parse::v1_from_tokens_spec(v1_document_tokens(x, id), v1_document_tokens(x, id))
            == Ok::<ImageV1Model, ErrorModel>(
            ImageV1Model { base: ImageModel { id: Some(id), ..x.base }, coefficients: x.coefficients },
        ),
{
    let t = v1_document_tokens(x, id);
    let y = ImageV1Model { base: ImageModel { id: Some(id), ..x.base }, coefficients: x.coefficients };
    assert(parse_tokens_spec(t) == Ok::<ImageModel, ErrorModel>(y.base)) by {
        law_base_reader_passes_over_coefficients(x, id);
    }
    assert(crate::galois_parse::coefficients_from_tokens_spec(t) == Ok::<
        Seq<SurfaceCoefficientModel>,
        ErrorModel,
    >(x.coefficients)) by {
        law_coefficients_read_back(x, id);
        lemma_aligned_valid(x, y);
    }
    assert(validate_spec(y) == Ok::<(), ErrorModel>(())) by {
        lemma_aligned_valid(x, y);
    }
    crate::galois_parse::lemma_v1_from_tokens_ok(t, t, y);
}

/// Reading a written v1 image back from text: for any text whose events,
/// as quick-xml's reader yields them, carry the written v1 document's
/// tokens and end at the end of the document,
/// [`crate::galois::SessionImageV1::from_xml`] gives the image back, with
/// the id that was written (for images as [`law_v1_read_written_document`]
/// takes them).
pub proof fn law_v1_read_written_text(x: ImageV1Model, id: Seq<char>, text: Seq<char>)
    requires
        crate::roundtrip::reads_back(x.base),
        aligned(x),
        forall|i: int|
            0 <= i < x.coefficients.len() ==> coefficient_reads_back((#[trigger] x.coefficients[i]).coefficient),
        crate::xml::doc_tokens(crate::xml::doc_events(text)) == v1_document_tokens(x, id),
        crate::xml::doc_error(crate::xml::doc_events(text)) is None,
    ensures
        crate::galois_parse::read_v1_document_spec(crate::xml::doc_events(text)) == Ok::<ImageV1Model, ErrorModel>(
            ImageV1Model { base: ImageModel { id: Some(id), ..x.base }, coefficients: x.coefficients },
        ),
{
    law_v1_read_written_document(x, id);
}

} // verus!
