//! Reading the v1 coefficient block, and reading v1 images.
//!
//! The base image is read by the v0 reader, which passes over the
//! coefficient elements (that is α at the reader level); a second pass reads
//! the `<c:coefficients>` block with the machine specified by
//! [`coeff_step_spec`].
use vstd::prelude::*;
use crate::coefficients::{bound_of, confidentiality_of, integrity_of, intervals_view, linearity_of,
    opt_bound_view, Bound, Coefficient, CoefficientModel, Confidentiality, Integrity, Interval,
    IntervalModel, Linearity};
use crate::galois::{coefficients_view, validate_spec, ImageV1Model, SessionImageV1, SurfaceCoefficient,
    SurfaceCoefficientModel};
use crate::session::{parse_surface_id, parse_surface_id_spec, rv, ErrorModel, SessionError, SessionImage};
use crate::session_parse::{attr_lookup, lookup_attr, parse_tokens_spec, run_spec};
use crate::text::{push_str, str_eq};
use crate::wire::SurfaceId;
use crate::xml::{attrs_view, debug_string, debug_text, doc_error, doc_events, doc_tokens, ev_final, ev_tok,
    events_end, lemma_doc_tokens_prefix, next_token, reader_events, toks_view, xml_reader, AttrModel,
    EvModel, TokModel, XmlAttr, XmlTok};

verus! {

// ---------------------------------------------------------------------------
// The machine, as a specification

/// A surface coefficient being read.
pub struct CoeffBuilderModel {
    pub surface_ref: Seq<u8>,
    pub timing: Seq<IntervalModel>,
    pub confidentiality: Option<Confidentiality>,
    pub integrity: Option<Integrity>,
    pub linearity: Option<Linearity>,
}

/// The state of the coefficient reader.
pub struct CoeffStateModel {
    pub out: Seq<SurfaceCoefficientModel>,
    pub in_coeffs: bool,
    pub cur: Option<CoeffBuilderModel>,
}

/// The error for a coefficient element outside `<c:surface-coefficient>`.
pub open spec fn outside_error(tag: Seq<char>) -> ErrorModel {
    ErrorModel::Malformed("<"@ + tag + "> outside <surface-coefficient>"@)
}

/// The error for a surface coefficient that lacks a part.
pub open spec fn coeff_missing(part: Seq<char>) -> ErrorModel {
    ErrorModel::Malformed("surface-coefficient missing <"@ + part + ">"@)
}

/// The finished coefficient: at least one delay path, the security labels
/// and the linearity count.
pub open spec fn coeff_build_spec(b: CoeffBuilderModel) -> Result<SurfaceCoefficientModel, ErrorModel> {
    if b.timing.len() == 0 {
        Err(coeff_missing("timing/delay-path"@))
    } else if b.confidentiality is None || b.integrity is None {
        Err(coeff_missing("security"@))
    } else if b.linearity is None {
        Err(coeff_missing("linearity"@))
    } else {
        Ok(
            SurfaceCoefficientModel {
                surface_ref: b.surface_ref,
                coefficient: CoefficientModel {
                    timing: b.timing,
                    confidentiality: b.confidentiality.unwrap(),
                    integrity: b.integrity.unwrap(),
                    linearity: b.linearity.unwrap(),
                },
            },
        )
    }
}

/// A `<c:delay-path>` adds the interval `[lo, hi]`.
pub open spec fn delay_path_spec(b: CoeffBuilderModel, a: Seq<AttrModel>) -> Result<CoeffBuilderModel, ErrorModel> {
    match attr_lookup(a, "lo"@) {
        Err(e) => Err(e),
        Ok(lo) => match bound_of(lo) {
            None => Err(ErrorModel::Malformed("bad delay-path/@lo"@)),
            Some(l) => match attr_lookup(a, "hi"@) {
                Err(e) => Err(e),
                Ok(hi) => match bound_of(hi) {
                    None => Err(ErrorModel::Malformed("bad delay-path/@hi"@)),
                    Some(h) => Ok(CoeffBuilderModel { timing: b.timing.push(IntervalModel { lo: l, hi: h }), ..b }),
                },
            },
        },
    }
}

/// A `<c:security>` sets both labels.
pub open spec fn security_spec(b: CoeffBuilderModel, a: Seq<AttrModel>) -> Result<CoeffBuilderModel, ErrorModel> {
    match attr_lookup(a, "confidentiality"@) {
        Err(e) => Err(e),
        Ok(c) => match confidentiality_of(c) {
            None => Err(ErrorModel::UnknownEnum { kind: "confidentiality"@, value: c }),
            Some(cl) => match attr_lookup(a, "integrity"@) {
                Err(e) => Err(e),
                Ok(i) => match integrity_of(i) {
                    None => Err(ErrorModel::UnknownEnum { kind: "integrity"@, value: i }),
                    Some(il) => Ok(
                        CoeffBuilderModel { confidentiality: Some(cl), integrity: Some(il), ..b },
                    ),
                },
            },
        },
    }
}

/// A `<c:linearity>` sets the count.
pub open spec fn linearity_spec(b: CoeffBuilderModel, a: Seq<AttrModel>) -> Result<CoeffBuilderModel, ErrorModel> {
    match attr_lookup(a, "count"@) {
        Err(e) => Err(e),
        Ok(t) => match linearity_of(t) {
            None => Err(ErrorModel::Malformed("bad linearity/@count "@ + debug_text(t))),
            Some(l) => Ok(CoeffBuilderModel { linearity: Some(l), ..b }),
        },
    }
}

/// Applies an element that needs an open surface coefficient.
pub open spec fn with_builder(
    st: CoeffStateModel,
    tag: Seq<char>,
    r: spec_fn(CoeffBuilderModel) -> Result<CoeffBuilderModel, ErrorModel>,
) -> Result<CoeffStateModel, ErrorModel> {
    match st.cur {
        None => Err(outside_error(tag)),
        Some(b) => match r(b) {
            Ok(nb) => Ok(CoeffStateModel { cur: Some(nb), ..st }),
            Err(e) => Err(e),
        },
    }
}

/// The effect of a start (or empty-element) tag. Inside the block, a
/// `<c:surface-coefficient>` opens a coefficient and the other elements fill
/// it; outside it, only `<c:coefficients>` counts.
pub open spec fn coeff_open_spec(st: CoeffStateModel, n: Seq<char>, a: Seq<AttrModel>) -> Result<
    CoeffStateModel,
    ErrorModel,
> {
    if n == "coefficients"@ {
        Ok(CoeffStateModel { in_coeffs: true, ..st })
    } else if st.in_coeffs && n == "surface-coefficient"@ {
        match attr_lookup(a, "surface-ref"@) {
            Err(e) => Err(e),
            Ok(r) => match parse_surface_id_spec(r) {
                Err(e) => Err(e),
                Ok(id) => Ok(
                    CoeffStateModel {
                        cur: Some(
                            CoeffBuilderModel {
                                surface_ref: id,
                                timing: Seq::empty(),
                                confidentiality: None,
                                integrity: None,
                                linearity: None,
                            },
                        ),
                        ..st
                    },
                ),
            },
        }
    } else if st.in_coeffs && n == "delay-path"@ {
        with_builder(st, n, |b: CoeffBuilderModel| delay_path_spec(b, a))
    } else if st.in_coeffs && n == "security"@ {
        with_builder(st, n, |b: CoeffBuilderModel| security_spec(b, a))
    } else if st.in_coeffs && n == "linearity"@ {
        with_builder(st, n, |b: CoeffBuilderModel| linearity_spec(b, a))
    } else {
        Ok(st)
    }
}

/// The effect of an end tag.
pub open spec fn coeff_close_spec(st: CoeffStateModel, n: Seq<char>) -> Result<CoeffStateModel, ErrorModel> {
    if n == "coefficients"@ {
        Ok(CoeffStateModel { in_coeffs: false, ..st })
    } else if n == "surface-coefficient"@ {
        match st.cur {
            None => Ok(st),
            Some(b) => match coeff_build_spec(b) {
                Ok(c) => Ok(CoeffStateModel { out: st.out.push(c), cur: None, ..st }),
                Err(e) => Err(e),
            },
        }
    } else {
        Ok(st)
    }
}

/// The effect of one token; text and other events change nothing.
pub open spec fn coeff_step_spec(st: CoeffStateModel, tok: TokModel) -> Result<CoeffStateModel, ErrorModel> {
    match tok {
        TokModel::Open { name, attrs } => coeff_open_spec(st, name, attrs),
        TokModel::Close { name } => coeff_close_spec(st, name),
        _ => Ok(st),
    }
}

/// Nothing read yet.
pub open spec fn coeff_initial() -> CoeffStateModel {
    CoeffStateModel { out: Seq::empty(), in_coeffs: false, cur: None }
}

/// The state after a list of tokens, or the first error.
pub open spec fn coeff_run_spec(toks: Seq<TokModel>) -> Result<CoeffStateModel, ErrorModel>
    decreases toks.len(),
{
    if toks.len() == 0 {
        Ok(coeff_initial())
    } else {
        match coeff_run_spec(toks.drop_last()) {
            Ok(st) => coeff_step_spec(st, toks.last()),
            Err(e) => Err(e),
        }
    }
}

/// The coefficients that a token list reads as.
pub open spec fn coefficients_from_tokens_spec(toks: Seq<TokModel>) -> Result<
    Seq<SurfaceCoefficientModel>,
    ErrorModel,
> {
    match coeff_run_spec(toks) {
        Ok(st) => Ok(st.out),
        Err(e) => Err(e),
    }
}

/// The v1 image that two token lists read as: the base from the first, the
/// coefficients from the second, then the structural check.
pub open spec fn v1_from_tokens_spec(base_toks: Seq<TokModel>, coeff_toks: Seq<TokModel>) -> Result<
    ImageV1Model,
    ErrorModel,
> {
    match parse_tokens_spec(base_toks) {
        Err(e) => Err(e),
        Ok(base) => match coefficients_from_tokens_spec(coeff_toks) {
            Err(e) => Err(e),
            Ok(cs) => {
                let x = ImageV1Model { base, coefficients: cs };
                match validate_spec(x) {
                    Ok(_) => Ok(x),
                    Err(e) => Err(e),
                }
            },
        },
    }
}

/// The v1 reader succeeds exactly on a base and coefficients that each read
/// and that pass the structural check together.
pub proof fn lemma_v1_from_tokens_ok(
    base_toks: Seq<TokModel>,
    coeff_toks: Seq<TokModel>,
    x: ImageV1Model,
)
    requires
        parse_tokens_spec(base_toks) == Ok::<crate::session::ImageModel, ErrorModel>(x.base),
        coefficients_from_tokens_spec(coeff_toks) == Ok::<Seq<SurfaceCoefficientModel>, ErrorModel>(
            x.coefficients,
        ),
        validate_spec(x) == Ok::<(), ErrorModel>(()),
    ensures
        v1_from_tokens_spec(base_toks, coeff_toks) == Ok::<ImageV1Model, ErrorModel>(x),
{
}

/// A result of coefficients seen through their models.
pub open spec fn coeffs_rv(r: Result<Vec<SurfaceCoefficient>, SessionError>) -> Result<
    Seq<SurfaceCoefficientModel>,
    ErrorModel,
> {
    match r {
        Ok(v) => Ok(coefficients_view(v@)),
        Err(e) => Err(e@),
    }
}


// ---------------------------------------------------------------------------
// The machine

/// A surface coefficient being read.
struct CoeffBuilder {
    surface_ref: SurfaceId,
    timing: Vec<Interval>,
    confidentiality: Option<Confidentiality>,
    integrity: Option<Integrity>,
    linearity: Option<Linearity>,
}

impl View for CoeffBuilder {
    type V = CoeffBuilderModel;

    closed spec fn view(&self) -> CoeffBuilderModel {
        CoeffBuilderModel {
            surface_ref: self.surface_ref@,
            timing: intervals_view(self.timing@),
            confidentiality: self.confidentiality,
            integrity: self.integrity,
            linearity: self.linearity,
        }
    }
}

/// A `<c:delay-path>`: adds the interval `[lo, hi]`.
fn add_delay_path(b: CoeffBuilder, attrs: &Vec<XmlAttr>) -> (r: Result<CoeffBuilder, SessionError>)
    ensures
        rv(r) == delay_path_spec(b@, attrs_view(attrs@)),
{
    let lo_text = lookup_attr(attrs, "lo")?;
    let lo = match Bound::parse(lo_text.as_str()) {
        Some(x) => x,
        None => {
            return Err(SessionError::Malformed(String::from_str("bad delay-path/@lo")));
        },
    };
    let hi_text = lookup_attr(attrs, "hi")?;
    let hi = match Bound::parse(hi_text.as_str()) {
        Some(x) => x,
        None => {
            return Err(SessionError::Malformed(String::from_str("bad delay-path/@hi")));
        },
    };
    let CoeffBuilder { surface_ref, timing, confidentiality, integrity, linearity } = b;
    let ghost before = intervals_view(timing@);
    let mut timing = timing;
    let iv = Interval { lo, hi };
    timing.push(iv);
    proof {
        assert(intervals_view(timing@) =~= before.push(iv@));
    }
    Ok(CoeffBuilder { surface_ref, timing, confidentiality, integrity, linearity })
}

/// A `<c:security>`: sets both labels.
fn set_security(b: CoeffBuilder, attrs: &Vec<XmlAttr>) -> (r: Result<CoeffBuilder, SessionError>)
    ensures
        rv(r) == security_spec(b@, attrs_view(attrs@)),
{
    let c = lookup_attr(attrs, "confidentiality")?;
    let cl = match Confidentiality::parse(c.as_str()) {
        Some(x) => x,
        None => {
            return Err(
                SessionError::UnknownEnum { kind: String::from_str("confidentiality"), value: c },
            );
        },
    };
    let i = lookup_attr(attrs, "integrity")?;
    let il = match Integrity::parse(i.as_str()) {
        Some(x) => x,
        None => {
            return Err(SessionError::UnknownEnum { kind: String::from_str("integrity"), value: i });
        },
    };
    Ok(CoeffBuilder { confidentiality: Some(cl), integrity: Some(il), ..b })
}

/// A `<c:linearity>`: sets the count.
fn set_linearity(b: CoeffBuilder, attrs: &Vec<XmlAttr>) -> (r: Result<CoeffBuilder, SessionError>)
    ensures
        rv(r) == linearity_spec(b@, attrs_view(attrs@)),
{
    let t = lookup_attr(attrs, "count")?;
    match Linearity::parse(t.as_str()) {
        Some(l) => Ok(CoeffBuilder { linearity: Some(l), ..b }),
        None => {
            let mut msg = String::from_str("bad linearity/@count ");
            let d = debug_string(t.as_str());
            push_str(&mut msg, d.as_str());
            Err(SessionError::Malformed(msg))
        },
    }
}

/// The error for a surface coefficient that lacks `part`.
fn coeff_missing_part(part: &str) -> (e: SessionError)
    ensures
        e@ == coeff_missing(part@),
{
    let mut msg = String::from_str("surface-coefficient missing <");
    push_str(&mut msg, part);
    push_str(&mut msg, ">");
    SessionError::Malformed(msg)
}

/// The finished coefficient.
fn build_coefficient(b: CoeffBuilder) -> (r: Result<SurfaceCoefficient, SessionError>)
    ensures
        rv(r) == coeff_build_spec(b@),
{
    if b.timing.len() == 0 {
        return Err(coeff_missing_part("timing/delay-path"));
    }
    let confidentiality = match b.confidentiality {
        Some(x) => x,
        None => {
            return Err(coeff_missing_part("security"));
        },
    };
    let integrity = match b.integrity {
        Some(x) => x,
        None => {
            return Err(coeff_missing_part("security"));
        },
    };
    let linearity = match b.linearity {
        Some(x) => x,
        None => {
            return Err(coeff_missing_part("linearity"));
        },
    };
    Ok(
        SurfaceCoefficient {
            surface_ref: b.surface_ref,
            coefficient: Coefficient { timing: b.timing, confidentiality, integrity, linearity },
        },
    )
}

/// The error for `tag` outside a surface coefficient.
fn outside(tag: &str) -> (e: SessionError)
    ensures
        e@ == outside_error(tag@),
{
    let mut msg = String::from_str("<");
    push_str(&mut msg, tag);
    push_str(&mut msg, "> outside <surface-coefficient>");
    SessionError::Malformed(msg)
}

/// The state of the coefficient reader.
struct CoeffState {
    out: Vec<SurfaceCoefficient>,
    in_coeffs: bool,
    cur: Option<CoeffBuilder>,
}

/// The model of an optional coefficient builder.
spec fn opt_coeff_builder_view(o: Option<CoeffBuilder>) -> Option<CoeffBuilderModel> {
    match o {
        Some(b) => Some(b@),
        None => None,
    }
}

impl View for CoeffState {
    type V = CoeffStateModel;

    closed spec fn view(&self) -> CoeffStateModel {
        CoeffStateModel {
            out: coefficients_view(self.out@),
            in_coeffs: self.in_coeffs,
            cur: opt_coeff_builder_view(self.cur),
        }
    }
}

fn coeff_start() -> (st: CoeffState)
    ensures
        st@ == coeff_initial(),
{
    let st = CoeffState { out: Vec::new(), in_coeffs: false, cur: None };
    proof {
        assert(st@.out =~= Seq::<SurfaceCoefficientModel>::empty());
    }
    st
}

/// The effect of a start or empty-element tag.
fn coeff_open(st: CoeffState, name: &str, attrs: &Vec<XmlAttr>) -> (r: Result<CoeffState, SessionError>)
    ensures
        rv(r) == coeff_open_spec(st@, name@, attrs_view(attrs@)),
{
    let CoeffState { out, in_coeffs, cur } = st;
    if str_eq(name, "coefficients") {
        Ok(CoeffState { out, in_coeffs: true, cur })
    } else if in_coeffs && str_eq(name, "surface-coefficient") {
        let r = lookup_attr(attrs, "surface-ref")?;
        let id = parse_surface_id(r.as_str())?;
        let b = CoeffBuilder {
            surface_ref: id,
            timing: Vec::new(),
            confidentiality: None,
            integrity: None,
            linearity: None,
        };
        proof {
            assert(b@.timing =~= Seq::<IntervalModel>::empty());
        }
        Ok(CoeffState { out, in_coeffs, cur: Some(b) })
    } else if in_coeffs && str_eq(name, "delay-path") {
        match cur {
            None => Err(outside(name)),
            Some(b) => {
                let nb = add_delay_path(b, attrs)?;
                Ok(CoeffState { out, in_coeffs, cur: Some(nb) })
            },
        }
    } else if in_coeffs && str_eq(name, "security") {
        match cur {
            None => Err(outside(name)),
            Some(b) => {
                let nb = set_security(b, attrs)?;
                Ok(CoeffState { out, in_coeffs, cur: Some(nb) })
            },
        }
    } else if in_coeffs && str_eq(name, "linearity") {
        match cur {
            None => Err(outside(name)),
            Some(b) => {
                let nb = set_linearity(b, attrs)?;
                Ok(CoeffState { out, in_coeffs, cur: Some(nb) })
            },
        }
    } else {
        Ok(CoeffState { out, in_coeffs, cur })
    }
}

/// The effect of an end tag.
fn coeff_close(st: CoeffState, name: &str) -> (r: Result<CoeffState, SessionError>)
    ensures
        rv(r) == coeff_close_spec(st@, name@),
{
    let CoeffState { out, in_coeffs, cur } = st;
    if str_eq(name, "coefficients") {
        Ok(CoeffState { out, in_coeffs: false, cur })
    } else if str_eq(name, "surface-coefficient") {
        match cur {
            None => Ok(CoeffState { out, in_coeffs, cur: None }),
            Some(b) => {
                let c = build_coefficient(b)?;
                let ghost before = coefficients_view(out@);
                let mut out = out;
                out.push(c);
                proof {
                    assert(coefficients_view(out@) =~= before.push(c@));
                }
                Ok(CoeffState { out, in_coeffs, cur: None })
            },
        }
    } else {
        Ok(CoeffState { out, in_coeffs, cur })
    }
}

/// The effect of one token.
fn coeff_step(st: CoeffState, tok: &XmlTok) -> (r: Result<CoeffState, SessionError>)
    ensures
        rv(r) == coeff_step_spec(st@, tok@),
{
    match tok {
        XmlTok::Open { name, attrs } => coeff_open(st, name.as_str(), attrs),
        XmlTok::Close { name } => coeff_close(st, name.as_str()),
        _ => Ok(st),
    }
}


proof fn lemma_coeff_run_err_stays(t: Seq<TokModel>, i: int, j: int)
    requires
        0 <= i <= j <= t.len(),
        coeff_run_spec(t.take(i)) is Err,
    ensures
        coeff_run_spec(t.take(j)) == coeff_run_spec(t.take(i)),
    decreases j - i,
{
    if j > i {
        lemma_coeff_run_err_stays(t, i, j - 1);
        assert(t.take(j).drop_last() =~= t.take(j - 1));
    }
}

/// Reads the coefficient block from a list of tokens.
pub fn coefficients_from_tokens(toks: &Vec<XmlTok>) -> (r: Result<Vec<SurfaceCoefficient>, SessionError>)
    ensures
        coeffs_rv(r) == coefficients_from_tokens_spec(toks_view(toks@)),
{
    let ghost t = toks_view(toks@);
    let mut st = coeff_start();
    let n = toks.len();
    let mut i: usize = 0;
    proof {
        assert(t.take(0) =~= Seq::<TokModel>::empty());
    }
    while i < n
        invariant
            n == toks@.len(),
            t == toks_view(toks@),
            t.len() == n,
            i <= n,
            coeff_run_spec(t.take(i as int)) == Ok::<CoeffStateModel, ErrorModel>(st@),
        decreases n - i,
    {
        proof {
            assert(t.take(i + 1).drop_last() =~= t.take(i as int));
            assert(t.take(i + 1).last() == toks@[i as int]@);
        }
        match coeff_step(st, &toks[i]) {
            Ok(next) => {
                st = next;
            },
            Err(e) => {
                proof {
                    lemma_coeff_run_err_stays(t, i + 1, n as int);
                    assert(t.take(n as int) =~= t);
                }
                return Err(e);
            },
        }
        i = i + 1;
    }
    proof {
        assert(t.take(n as int) =~= t);
    }
    let CoeffState { out, in_coeffs: _, cur: _ } = st;
    Ok(out)
}

/// What reading the coefficient block of a document gives, from the events
/// that the XML reader yields for it (compare
/// [`crate::session_parse::read_document_spec`]).
pub open spec fn read_coeffs_document_spec(evs: Seq<EvModel>) -> Result<Seq<SurfaceCoefficientModel>, ErrorModel> {
    let toks = doc_tokens(evs);
    match doc_error(evs) {
        None => coefficients_from_tokens_spec(toks),
        Some(m) => match coeff_run_spec(toks) {
            Err(e) => Err(e),
            Ok(_) => Err(ErrorModel::Xml(m)),
        },
    }
}


/// Reads the coefficient block of a document: what
/// [`read_coeffs_document_spec`] makes of the events of the text.
fn read_coefficients(xml: &str) -> (r: Result<Vec<SurfaceCoefficient>, SessionError>)
    ensures
        coeffs_rv(r) == read_coeffs_document_spec(doc_events(xml@)),
{
    let mut reader = xml_reader(xml);
    let ghost evs = doc_events(xml@);
    let mut st = coeff_start();
    let ghost mut k: int = 0;
    proof {
        assert(evs.take(0).map_values(|e: EvModel| ev_tok(e)) =~= Seq::<TokModel>::empty());
    }
    loop
        invariant
            evs == doc_events(xml@),
            events_end(evs),
            0 <= k < evs.len(),
            reader_events(reader) == evs.skip(k),
            coeff_run_spec(evs.take(k).map_values(|e: EvModel| ev_tok(e))) == Ok::<CoeffStateModel, ErrorModel>(st@),
        decreases evs.len() - k,
    {
        proof {
            lemma_doc_tokens_prefix(evs, k);
            assert(evs.skip(k)[0] == evs[k]);
            assert(evs.skip(k).drop_first() =~= evs.skip(k + 1));
        }
        let ghost toks = doc_tokens(evs);
        match next_token(&mut reader) {
            Err(m) => {
                proof {
                    assert(k == evs.len() - 1);
                    assert(toks =~= evs.take(k).map_values(|e: EvModel| ev_tok(e)));
                }
                return Err(SessionError::Xml(m));
            },
            Ok(None) => {
                proof {
                    assert(k == evs.len() - 1);
                    assert(toks =~= evs.take(k).map_values(|e: EvModel| ev_tok(e)));
                }
                let CoeffState { out, in_coeffs: _, cur: _ } = st;
                return Ok(out);
            },
            Ok(Some(tok)) => {
                proof {
                    assert(!ev_final(evs[k]));
                    assert(k + 1 < evs.len());
                    lemma_doc_tokens_prefix(evs, k + 1);
                    let p = evs.take(k + 1).map_values(|e: EvModel| ev_tok(e));
                    assert(p.drop_last() =~= evs.take(k).map_values(|e: EvModel| ev_tok(e)));
                    assert(p.last() == tok@);
                }
                match coeff_step(st, &tok) {
                    Ok(next) => {
                        st = next;
                    },
                    Err(e) => {
                        proof {
                            assert(toks.take(k + 1) == evs.take(k + 1).map_values(|e: EvModel| ev_tok(e)));
                            let p = toks.take(k + 1);
                            assert(p.drop_last() =~= evs.take(k).map_values(|e: EvModel| ev_tok(e)));
                            assert(p.last() == tok@);
                            lemma_coeff_run_err_stays(toks, k + 1, toks.len() as int);
                            assert(toks.take(toks.len() as int) =~= toks);
                        }
                        return Err(e);
                    },
                }
                proof {
                    k = k + 1;
                }
            },
        }
    }
}

/// What reading a v1 document gives, from the events of its text: the base
/// as the v0 reader reads it, then the coefficient block as the
/// coefficient reader reads it, then the structural check.
pub open spec fn read_v1_document_spec(evs: Seq<EvModel>) -> Result<ImageV1Model, ErrorModel> {
    match crate::session_parse::read_document_spec(evs) {
        Err(e) => Err(e),
        Ok(base) => match read_coeffs_document_spec(evs) {
            Err(e) => Err(e),
            Ok(cs) => {
                let x = ImageV1Model { base, coefficients: cs };
                match validate_spec(x) {
                    Ok(_) => Ok(x),
                    Err(e) => Err(e),
                }
            },
        },
    }
}

impl SessionImageV1 {
    /// Parse a v1 image from text XML: the base by the v0 reader (which
    /// passes over the coefficient namespace), then the coefficient block in
    /// a second pass, then the structural check.
    pub fn from_xml(xml: &str) -> (r: Result<SessionImageV1, SessionError>)
        ensures
            rv(r) == read_v1_document_spec(doc_events(xml@)),
    {
        let base = match SessionImage::from_xml(xml) {
            Ok(b) => b,
            Err(e) => {
                return Err(e);
            },
        };
        let coefficients = match read_coefficients(xml) {
            Ok(c) => c,
            Err(e) => {
                return Err(e);
            },
        };
        let img = SessionImageV1 { base, coefficients };
        match img.validate() {
            Ok(()) => Ok(img),
            Err(e) => Err(e),
        }
    }
}

} // verus!
