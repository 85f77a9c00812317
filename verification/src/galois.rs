//! The v0 ⇄ v1 session-image Galois connection.
//!
//! ```text
//! α : I₁ → I₀   "forget the coefficients"   (lower adjoint)
//! γ : I₀ → I₁   "embed at the semiring top" (upper adjoint)
//! ```
//!
//! [`SessionImage`] is the v0 image (`I₀`); [`SessionImageV1`] is the v1 image
//! (`I₁`): a base image plus one coefficient per surface. [`alpha`] drops the
//! coefficient block; [`gamma`] reinstates it at [`Coefficient::top`].
//!
//! The content id is computed over the base projection only, so a v1 image
//! and its α share an id (identity-stability). Under the order in which `⊤` is
//! the greatest coefficient, the round trip `γ∘α` is inflationary:
//! `img₁ ⊑ γ(α(img₁))`.
use vstd::prelude::*;
use vstd::slice::slice_to_vec;
use vstd::utf8::encode_utf8;
use crate::coefficients::{bound_text, confidentiality_text, integrity_text, linearity_text,
    coefficient_leq, intervals_view, is_top_spec, law_below_top, law_leq_reflexive, top_spec,
    Coefficient, CoefficientModel, Interval, IntervalModel};
use crate::session::{canonical_bytes_spec, content_id, ind, nl, push_ind, push_nl, rv,
    lemma_append_step, session_doc, surface_id_text, surface_id_to_str, xml_declaration,
    ErrorModel, ImageModel, SessionError, SessionImage, SurfaceModel};
use crate::text::{push_char, push_decimal, push_str, decimal};
use crate::wire::{surface_id_eq, SurfaceId};

verus! {

/// The XML namespace of the v1 coefficient block.
pub open spec fn coefficients_namespace() -> Seq<char> {
    "https://simulboot.dev/session/v1/coefficients"@
}

/// One surface's coefficient assignment in a v1 image.
#[derive(Debug, Clone, PartialEq, Eq)]
pub struct SurfaceCoefficient {
    /// References a surface of the base image by its id.
    pub surface_ref: SurfaceId,
    pub coefficient: Coefficient,
}

/// A v1 session image (`I₁`): a base image plus its per-surface coefficients.
#[derive(Debug, Clone, PartialEq, Eq)]
pub struct SessionImageV1 {
    pub base: SessionImage,
    pub coefficients: Vec<SurfaceCoefficient>,
}

/// The model of a [`SurfaceCoefficient`].
pub struct SurfaceCoefficientModel {
    pub surface_ref: Seq<u8>,
    pub coefficient: CoefficientModel,
}

/// The model of a [`SessionImageV1`].
pub struct ImageV1Model {
    pub base: ImageModel,
    pub coefficients: Seq<SurfaceCoefficientModel>,
}

impl View for SurfaceCoefficient {
    type V = SurfaceCoefficientModel;

    open spec fn view(&self) -> SurfaceCoefficientModel {
        SurfaceCoefficientModel { surface_ref: self.surface_ref@, coefficient: self.coefficient@ }
    }
}

/// The models of a sequence of surface coefficients.
pub open spec fn coefficients_view(v: Seq<SurfaceCoefficient>) -> Seq<SurfaceCoefficientModel> {
    v.map_values(|c: SurfaceCoefficient| c@)
}

impl View for SessionImageV1 {
    type V = ImageV1Model;

    open spec fn view(&self) -> ImageV1Model {
        ImageV1Model { base: self.base@, coefficients: coefficients_view(self.coefficients@) }
    }
}

// ---------------------------------------------------------------------------
// The maps and the order, as specifications

/// α: the base image.
pub open spec fn alpha_spec(x: ImageV1Model) -> ImageModel {
    x.base
}

/// The top coefficient for one surface.
pub open spec fn top_for(s: SurfaceModel) -> SurfaceCoefficientModel {
    SurfaceCoefficientModel { surface_ref: s.id, coefficient: top_spec() }
}

/// γ: the image with one top coefficient per surface, in surface order.
pub open spec fn gamma_spec(b: ImageModel) -> ImageV1Model {
    ImageV1Model { base: b, coefficients: b.surfaces.map_values(|s: SurfaceModel| top_for(s)) }
}

/// The first coefficient whose surface reference is `id`.
pub open spec fn coefficient_for_spec(cs: Seq<SurfaceCoefficientModel>, id: Seq<u8>) -> Option<
    CoefficientModel,
>
    decreases cs.len(),
{
    if cs.len() == 0 {
        None
    } else if cs[0].surface_ref == id {
        Some(cs[0].coefficient)
    } else {
        coefficient_for_spec(cs.drop_first(), id)
    }
}

/// How many coefficients refer to `id`.
pub open spec fn ref_count(cs: Seq<SurfaceCoefficientModel>, id: Seq<u8>) -> nat
    decreases cs.len(),
{
    if cs.len() == 0 {
        0
    } else {
        ref_count(cs.drop_last(), id) + if cs.last().surface_ref == id {
            1nat
        } else {
            0nat
        }
    }
}

/// Whether the bases are equal under the canonical form.
pub open spec fn base_eq_spec(x: ImageV1Model, y: ImageV1Model) -> bool {
    canonical_bytes_spec(x.base) == canonical_bytes_spec(y.base)
}

/// Whether every coefficient is the semiring top.
pub open spec fn coeff_is_top_spec(x: ImageV1Model) -> bool {
    forall|i: int| 0 <= i < x.coefficients.len() ==> is_top_spec(#[trigger] x.coefficients[i].coefficient)
}

/// `x ⊑ y` in `I₁`: equal base (canonically), as many coefficients, and each
/// coefficient of `x` below the coefficient that `y` gives its surface.
pub open spec fn leq_spec(x: ImageV1Model, y: ImageV1Model) -> bool {
    &&& base_eq_spec(x, y)
    &&& forall|i: int|
        0 <= i < x.coefficients.len() ==> match coefficient_for_spec(
            y.coefficients,
            #[trigger] x.coefficients[i].surface_ref,
        ) {
            Some(o) => coefficient_leq(x.coefficients[i].coefficient, o),
            None => false,
        }
    &&& x.coefficients.len() == y.coefficients.len()
}

/// The structural invariant of a v1 image: one coefficient per surface.
pub open spec fn valid_spec(x: ImageV1Model) -> bool {
    &&& x.coefficients.len() == x.base.surfaces.len()
    &&& forall|i: int| 0 <= i < x.base.surfaces.len() ==> ref_count(x.coefficients, #[trigger] x.base.surfaces[i].id) == 1
}

/// The index of the first surface that does not have exactly one
/// coefficient.
pub open spec fn first_bad_surface(x: ImageV1Model) -> int {
    choose|i: int|
        0 <= i < x.base.surfaces.len() && ref_count(x.coefficients, x.base.surfaces[i].id) != 1 && forall|
            j: int,
        |
            0 <= j < i ==> ref_count(x.coefficients, #[trigger] x.base.surfaces[j].id) == 1
}

/// What [`SessionImageV1::validate`] gives.
pub open spec fn validate_spec(x: ImageV1Model) -> Result<(), ErrorModel> {
    if x.coefficients.len() != x.base.surfaces.len() {
        Err(
            ErrorModel::Malformed(
                "v1 image has "@ + decimal(x.base.surfaces.len()) + " surfaces but "@ + decimal(
                    x.coefficients.len(),
                ) + " coefficients"@,
            ),
        )
    } else if valid_spec(x) {
        Ok(())
    } else {
        let i = first_bad_surface(x);
        Err(
            ErrorModel::Malformed(
                "surface "@ + surface_id_text(x.base.surfaces[i].id) + " has "@ + decimal(
                    ref_count(x.coefficients, x.base.surfaces[i].id),
                ) + " coefficients (expected 1)"@,
            ),
        )
    }
}

// ---------------------------------------------------------------------------
// The coefficient block

/// One `<c:delay-path>` element (attributes sorted: hi, lo).
pub open spec fn delay_path_xml(iv: IntervalModel, pretty: bool) -> Seq<char> {
    ind(pretty, 4) + "<c:delay-path hi=\""@ + bound_text(iv.hi) + "\" lo=\""@ + bound_text(iv.lo)
        + "\"/>"@ + nl(pretty)
}

/// The `<c:delay-path>` elements of a timing multi-interval.
pub open spec fn delay_paths_xml(ivs: Seq<IntervalModel>, pretty: bool) -> Seq<char>
    decreases ivs.len(),
{
    if ivs.len() == 0 {
        Seq::empty()
    } else {
        delay_paths_xml(ivs.drop_last(), pretty) + delay_path_xml(ivs.last(), pretty)
    }
}

/// The closing `</c:timing>` line.
pub open spec fn timing_close_xml(pretty: bool) -> Seq<char> {
    ind(pretty, 3) + "</c:timing>"@ + nl(pretty)
}

/// One `<c:surface-coefficient>` element: its reference, one `<c:delay-path>`
/// per interval, the security labels and the linearity count.
pub open spec fn surface_coefficient_xml(id: Seq<u8>, c: CoefficientModel, pretty: bool) -> Seq<char> {
    coefficient_head_xml(id, pretty) + delay_paths_xml(c.timing, pretty) + timing_close_xml(pretty)
        + security_xml(c, pretty) + linearity_close_xml(c, pretty)
}

/// The coefficient elements, following the order of the base's surfaces; a
/// surface without a coefficient is skipped.
pub open spec fn coefficient_elements(
    ss: Seq<SurfaceModel>,
    cs: Seq<SurfaceCoefficientModel>,
    pretty: bool,
) -> Seq<char>
    decreases ss.len(),
{
    if ss.len() == 0 {
        Seq::empty()
    } else {
        coefficient_elements(ss.drop_last(), cs, pretty) + match coefficient_for_spec(
            cs,
            ss.last().id,
        ) {
            Some(c) => surface_coefficient_xml(ss.last().id, c, pretty),
            None => Seq::empty(),
        }
    }
}

/// The `<c:coefficients>` block.
pub open spec fn coefficients_xml(x: ImageV1Model, pretty: bool) -> Seq<char> {
    ind(pretty, 1) + "<c:coefficients xmlns:c=\""@ + coefficients_namespace() + "\">"@ + nl(pretty)
        + coefficient_elements(x.base.surfaces, x.coefficients, pretty) + ind(pretty, 1)
        + "</c:coefficients>"@ + nl(pretty)
}

/// The canonical v1 form: the base document with the coefficient block, no id.
pub open spec fn v1_canonical_doc(x: ImageV1Model) -> Seq<char> {
    session_doc(x.base, false, None, Some(coefficients_xml(x, false)))
}

/// The pretty v1 text: declaration, then the document with the base's
/// content id and the coefficient block.
pub open spec fn v1_pretty_xml(x: ImageV1Model) -> Seq<char> {
    xml_declaration() + session_doc(
        x.base,
        true,
        Some(content_id(x.base)),
        Some(coefficients_xml(x, true)),
    )
}

// ---------------------------------------------------------------------------
// Executable maps

/// **α : I₁ → I₀** — forget the coefficients: the base image.
pub fn alpha(img: &SessionImageV1) -> (out: SessionImage)
    ensures
        out@ == alpha_spec(img@),
{
    img.base.duplicate()
}

/// **γ : I₀ → I₁** — embed a v0 image at the semiring top: one
/// [`Coefficient::top`] per surface, in surface order.
pub fn gamma(base: &SessionImage) -> (out: SessionImageV1)
    ensures
        out@ == gamma_spec(base@),
{
    let mut coefficients: Vec<SurfaceCoefficient> = Vec::new();
    let n = base.surfaces.len();
    let mut i: usize = 0;
    while i < n
        invariant
            n == base.surfaces@.len(),
            i <= n,
            coefficients@.len() == i,
            forall|k: int|
                0 <= k < i ==> (#[trigger] coefficients@[k])@ == top_for(base.surfaces@[k]@),
        decreases n - i,
    {
        coefficients.push(
            SurfaceCoefficient { surface_ref: base.surfaces[i].id, coefficient: Coefficient::top() },
        );
        i = i + 1;
    }
    let out = SessionImageV1 { base: base.duplicate(), coefficients };
    proof {
        assert(out@.coefficients =~= gamma_spec(base@).coefficients);
    }
    out
}

fn coefficient_for_index(cs: &Vec<SurfaceCoefficient>, id: &SurfaceId) -> (r: Option<usize>)
    ensures
        match r {
            Some(k) => k < cs@.len() && coefficient_for_spec(coefficients_view(cs@), id@) == Some(
                cs@[k as int].coefficient@,
            ),
            None => coefficient_for_spec(coefficients_view(cs@), id@) is None,
        },
{
    let n = cs.len();
    let mut i: usize = 0;
    let ghost all = coefficients_view(cs@);
    proof {
        assert(all.skip(0) =~= all);
    }
    while i < n
        invariant
            n == cs@.len(),
            i <= n,
            all == coefficients_view(cs@),
            coefficient_for_spec(all, id@) == coefficient_for_spec(all.skip(i as int), id@),
        decreases n - i,
    {
        let ghost rest = all.skip(i as int);
        if surface_id_eq(&cs[i].surface_ref, id) {
            proof {
                assert(rest[0] == cs@[i as int]@);
            }
            return Some(i);
        }
        proof {
            assert(rest[0] == cs@[i as int]@);
            assert(rest.drop_first() =~= all.skip(i + 1));
        }
        i = i + 1;
    }
    proof {
        assert(all.skip(n as int).len() == 0);
    }
    None
}

fn count_refs(cs: &Vec<SurfaceCoefficient>, id: &SurfaceId) -> (r: usize)
    ensures
        r == ref_count(coefficients_view(cs@), id@),
{
    let n = cs.len();
    let mut i: usize = 0;
    let mut count: usize = 0;
    let ghost all = coefficients_view(cs@);
    while i < n
        invariant
            n == cs@.len(),
            i <= n,
            all == coefficients_view(cs@),
            count == ref_count(all.take(i as int), id@),
            count <= i,
        decreases n - i,
    {
        proof {
            assert(all.take(i + 1).drop_last() =~= all.take(i as int));
            assert(all.take(i + 1).last() == cs@[i as int]@);
        }
        if surface_id_eq(&cs[i].surface_ref, id) {
            count = count + 1;
        }
        i = i + 1;
    }
    proof {
        assert(all.take(n as int) =~= all);
    }
    count
}

impl SessionImageV1 {
    /// The content-addressed id, computed over the base projection only: it
    /// equals `base.compute_id()` and is invariant under [`alpha`].
    pub fn session_id(&self) -> (out: String)
        ensures
            out@ == content_id(self@.base),
    {
        self.base.compute_id()
    }

    /// Confirm the structural invariant: exactly one coefficient per surface.
    /// A count mismatch is reported first; otherwise the first surface that
    /// does not have exactly one coefficient.
    pub fn validate(&self) -> (r: Result<(), SessionError>)
        ensures
            rv(r) == validate_spec(self@),
    {
        let ns = self.base.surfaces.len();
        let nc = self.coefficients.len();
        if nc != ns {
            let mut m = String::from_str("v1 image has ");
            push_decimal(&mut m, ns as u64);
            m.append(" surfaces but ");
            push_decimal(&mut m, nc as u64);
            m.append(" coefficients");
            proof {
                assert(self@.base.surfaces.len() == ns);
                assert(self@.coefficients.len() == nc);
            }
            return Err(SessionError::Malformed(m));
        }
        let mut i: usize = 0;
        while i < ns
            invariant
                ns == self.base.surfaces@.len(),
                ns == self@.base.surfaces.len(),
                nc == ns,
                nc == self@.coefficients.len(),
                i <= ns,
                forall|j: int|
                    0 <= j < i ==> ref_count(self@.coefficients, #[trigger] self@.base.surfaces[j].id)
                        == 1,
            decreases ns - i,
        {
            let n = count_refs(&self.coefficients, &self.base.surfaces[i].id);
            proof {
                assert(self@.base.surfaces[i as int].id == self.base.surfaces@[i as int].id@);
            }
            if n != 1 {
                let mut m = String::from_str("surface ");
                let t = surface_id_to_str(&self.base.surfaces[i].id);
                push_str(&mut m, t.as_str());
                m.append(" has ");
                push_decimal(&mut m, n as u64);
                m.append(" coefficients (expected 1)");
                proof {
                    let x = self@;
                    assert(!valid_spec(x));
                    let k = first_bad_surface(x);
                    assert(0 <= k < x.base.surfaces.len() && ref_count(x.coefficients, x.base.surfaces[k].id) != 1 && forall|j: int| 0 <= j < k ==> ref_count(x.coefficients, #[trigger] x.base.surfaces[j].id) == 1);
                    if k < i {
                    } else if k > i {
                        assert(ref_count(x.coefficients, x.base.surfaces[i as int].id) == 1);
                    }
                    assert(k == i);
                }
                return Err(SessionError::Malformed(m));
            }
            i = i + 1;
        }
        Ok(())
    }

    /// Look up the coefficient for a surface id (the first that refers to it).
    pub fn coefficient_for(&self, id: &SurfaceId) -> (r: Option<&Coefficient>)
        ensures
            match r {
                Some(c) => coefficient_for_spec(self@.coefficients, id@) == Some(c@),
                None => coefficient_for_spec(self@.coefficients, id@) is None,
            },
    {
        match coefficient_for_index(&self.coefficients, id) {
            Some(k) => Some(&self.coefficients[k].coefficient),
            None => None,
        }
    }

    /// Whether every coefficient is the semiring top — i.e. this image is the
    /// γ-image of a v0 image.
    pub fn coeff_is_top(&self) -> (r: bool)
        ensures
            r == coeff_is_top_spec(self@),
    {
        let n = self.coefficients.len();
        let mut i: usize = 0;
        while i < n
            invariant
                n == self.coefficients@.len(),
                i <= n,
                forall|k: int|
                    0 <= k < i ==> is_top_spec(#[trigger] self@.coefficients[k].coefficient),
            decreases n - i,
        {
            if !self.coefficients[i].coefficient.is_top() {
                proof {
                    assert(self@.coefficients[i as int] == self.coefficients@[i as int]@);
                    assert(!is_top_spec(self@.coefficients[i as int].coefficient));
                }
                return false;
            }
            proof {
                assert(self@.coefficients[i as int] == self.coefficients@[i as int]@);
            }
            i = i + 1;
        }
        true
    }

    /// Bases are equal under the canonical form.
    pub fn base_eq(&self, other: &SessionImageV1) -> (r: bool)
        ensures
            r == base_eq_spec(self@, other@),
    {
        let a = self.base.canonical_bytes();
        let b = other.base.canonical_bytes();
        bytes_eq(a.as_slice(), b.as_slice())
    }

    /// `self ⊑ other` in `I₁`: equal base, and each coefficient of `self`
    /// below the coefficient that `other` gives its surface, with as many
    /// coefficients on both sides.
    pub fn leq(&self, other: &SessionImageV1) -> (r: bool)
        ensures
            r == leq_spec(self@, other@),
    {
        if !self.base_eq(other) {
            return false;
        }
        let n = self.coefficients.len();
        let mut i: usize = 0;
        while i < n
            invariant
                n == self.coefficients@.len(),
                i <= n,
                forall|k: int|
                    0 <= k < i ==> match coefficient_for_spec(
                        other@.coefficients,
                        #[trigger] self@.coefficients[k].surface_ref,
                    ) {
                        Some(o) => coefficient_leq(self@.coefficients[k].coefficient, o),
                        None => false,
                    },
            decreases n - i,
        {
            let sc = &self.coefficients[i];
            proof {
                assert(self@.coefficients[i as int] == sc@);
            }
            match other.coefficient_for(&sc.surface_ref) {
                Some(o) => {
                    if !sc.coefficient.leq(o) {
                        proof {
                            assert(!match coefficient_for_spec(
                                other@.coefficients,
                                self@.coefficients[i as int].surface_ref,
                            ) {
                                Some(o) => coefficient_leq(self@.coefficients[i as int].coefficient, o),
                                None => false,
                            });
                        }
                        return false;
                    }
                },
                None => {
                    proof {
                        assert(!match coefficient_for_spec(
                            other@.coefficients,
                            self@.coefficients[i as int].surface_ref,
                        ) {
                            Some(o) => coefficient_leq(self@.coefficients[i as int].coefficient, o),
                            None => false,
                        });
                    }
                    return false;
                },
            }
            i = i + 1;
        }
        self.coefficients.len() == other.coefficients.len()
    }

    /// Render the `<c:coefficients>` block, following the base's surface
    /// order.
    pub fn write_coefficients(&self, pretty: bool) -> (out: String)
        ensures
            out@ == coefficients_xml(self@, pretty),
    {
        let mut s = String::new();
        push_ind(&mut s, pretty, 1);
        s.append("<c:coefficients xmlns:c=\"");
        s.append("https://simulboot.dev/session/v1/coefficients");
        s.append("\">");
        push_nl(&mut s, pretty);
        let ghost head = s@;
        let n = self.base.surfaces.len();
        let mut i: usize = 0;
        while i < n
            invariant
                n == self.base.surfaces@.len(),
                n == self@.base.surfaces.len(),
                i <= n,
                s@ == head + coefficient_elements(
                    self@.base.surfaces.take(i as int),
                    self@.coefficients,
                    pretty,
                ),
            decreases n - i,
        {
            let surf = &self.base.surfaces[i];
            let ghost before = s@;
            match self.coefficient_for(&surf.id) {
                Some(c) => push_surface_coefficient(&mut s, &surf.id, c, pretty),
                None => {},
            }
            proof {
                let t = self@.base.surfaces.take(i + 1);
                assert(t.drop_last() =~= self@.base.surfaces.take(i as int));
                assert(t.last() == surf@);
                vstd::seq_lib::lemma_concat_associative(
                    head,
                    coefficient_elements(self@.base.surfaces.take(i as int), self@.coefficients, pretty),
                    match coefficient_for_spec(self@.coefficients, surf@.id) {
                        Some(c) => surface_coefficient_xml(surf@.id, c, pretty),
                        None => Seq::empty(),
                    },
                );
                assert(s@ =~= head + coefficient_elements(t, self@.coefficients, pretty));
            }
            i = i + 1;
        }
        proof {
            assert(self@.base.surfaces.take(n as int) =~= self@.base.surfaces);
        }
        let ghost body = s@;
        push_ind(&mut s, pretty, 1);
        s.append("</c:coefficients>");
        push_nl(&mut s, pretty);
        proof {
            assert(s@ =~= coefficients_xml(self@, pretty));
        }
        s
    }

    /// Pretty, human-readable v1 XML with the (base-determined) id and an XML
    /// declaration.
    pub fn to_xml(&self) -> (out: String)
        ensures
            out@ == v1_pretty_xml(self@),
    {
        let id = self.session_id();
        let extra = self.write_coefficients(true);
        let body = self.base.write_doc_with_id(true, Some(id.as_str()), Some(extra.as_str()));
        let mut out = String::from_str("<?xml version=\"1.0\" encoding=\"UTF-8\"?>\n");
        push_str(&mut out, body.as_str());
        out
    }

    /// The canonical, whitespace-free v1 serialisation (base + coefficients),
    /// omitting the `<session>` id attribute.
    pub fn canonical_bytes(&self) -> (out: Vec<u8>)
        ensures
            out@ == encode_utf8(v1_canonical_doc(self@)),
    {
        let extra = self.write_coefficients(false);
        let doc = self.base.write_doc_with_id(false, None, Some(extra.as_str()));
        slice_to_vec(doc.as_str().as_bytes())
    }
}

/// Whether two byte strings are equal.
pub fn bytes_eq(a: &[u8], b: &[u8]) -> (r: bool)
    ensures
        r == (a@ == b@),
{
    if a.len() != b.len() {
        return false;
    }
    let n = a.len();
    let mut i: usize = 0;
    while i < n
        invariant
            n == a@.len(),
            n == b@.len(),
            i <= n,
            forall|j: int| 0 <= j < i ==> a@[j] == b@[j],
        decreases n - i,
    {
        if a[i] != b[i] {
            return false;
        }
        i = i + 1;
    }
    proof {
        assert(a@ =~= b@);
    }
    true
}

fn push_delay_path(out: &mut String, iv: &Interval, pretty: bool)
    ensures
        final(out)@ == old(out)@ + delay_path_xml(iv@, pretty),
{
    push_ind(out, pretty, 4);
    out.append("<c:delay-path hi=\"");
    let h = iv.hi.to_str();
    push_str(out, h.as_str());
    out.append("\" lo=\"");
    let l = iv.lo.to_str();
    push_str(out, l.as_str());
    out.append("\"/>");
    push_nl(out, pretty);
    proof {
        assert(out@ =~= old(out)@ + delay_path_xml(iv@, pretty));
    }
}

fn push_delay_paths(out: &mut String, ivs: &Vec<Interval>, pretty: bool)
    ensures
        final(out)@ == old(out)@ + delay_paths_xml(intervals_view(ivs@), pretty),
{
    let n = ivs.len();
    let mut i: usize = 0;
    while i < n
        invariant
            n == ivs@.len(),
            i <= n,
            out@ == old(out)@ + delay_paths_xml(intervals_view(ivs@.take(i as int)), pretty),
        decreases n - i,
    {
        push_delay_path(out, &ivs[i], pretty);
        i = i + 1;
        proof {
            let cur = intervals_view(ivs@.take(i as int));
            assert(cur.drop_last() =~= intervals_view(ivs@.take(i - 1)));
            assert(cur.last() == ivs@[i - 1]@);
            vstd::seq_lib::lemma_concat_associative(
                old(out)@,
                delay_paths_xml(intervals_view(ivs@.take(i - 1)), pretty),
                delay_path_xml(ivs@[i - 1]@, pretty),
            );
        }
    }
    proof {
        assert(ivs@.take(n as int) =~= ivs@);
    }
}

/// The opening lines of a `<c:surface-coefficient>` element, up to `<c:timing>`.
pub open spec fn coefficient_head_xml(id: Seq<u8>, pretty: bool) -> Seq<char> {
    ind(pretty, 2) + "<c:surface-coefficient surface-ref=\""@ + surface_id_text(id) + "\">"@ + nl(
        pretty,
    ) + ind(pretty, 3) + "<c:timing>"@ + nl(pretty)
}

fn push_coefficient_head(out: &mut String, id: &SurfaceId, pretty: bool)
    ensures
        final(out)@ == old(out)@ + coefficient_head_xml(id@, pretty),
{
    push_ind(out, pretty, 2);
    out.append("<c:surface-coefficient surface-ref=\"");
    let t = surface_id_to_str(id);
    push_str(out, t.as_str());
    out.append("\">");
    push_nl(out, pretty);
    push_ind(out, pretty, 3);
    out.append("<c:timing>");
    push_nl(out, pretty);
    proof {
        assert(out@ =~= old(out)@ + coefficient_head_xml(id@, pretty));
    }
}

/// The `<c:security>` line.
pub open spec fn security_xml(c: CoefficientModel, pretty: bool) -> Seq<char> {
    ind(pretty, 3) + "<c:security confidentiality=\""@ + confidentiality_text(c.confidentiality)
        + "\" integrity=\""@ + integrity_text(c.integrity) + "\"/>"@ + nl(pretty)
}

fn push_security(out: &mut String, c: &Coefficient, pretty: bool)
    ensures
        final(out)@ == old(out)@ + security_xml(c@, pretty),
{
    push_ind(out, pretty, 3);
    out.append("<c:security confidentiality=\"");
    out.append(c.confidentiality.to_str());
    out.append("\" integrity=\"");
    out.append(c.integrity.to_str());
    out.append("\"/>");
    push_nl(out, pretty);
    proof {
        assert(out@ =~= old(out)@ + security_xml(c@, pretty));
    }
}

/// The `<c:linearity>` line and the closing tag.
pub open spec fn linearity_close_xml(c: CoefficientModel, pretty: bool) -> Seq<char> {
    ind(pretty, 3) + "<c:linearity count=\""@ + linearity_text(c.linearity) + "\"/>"@ + nl(pretty)
        + ind(pretty, 2) + "</c:surface-coefficient>"@ + nl(pretty)
}

fn push_linearity_close(out: &mut String, c: &Coefficient, pretty: bool)
    ensures
        final(out)@ == old(out)@ + linearity_close_xml(c@, pretty),
{
    push_ind(out, pretty, 3);
    out.append("<c:linearity count=\"");
    let l = c.linearity.to_str();
    push_str(out, l.as_str());
    out.append("\"/>");
    push_nl(out, pretty);
    push_ind(out, pretty, 2);
    out.append("</c:surface-coefficient>");
    push_nl(out, pretty);
    proof {
        assert(out@ =~= old(out)@ + linearity_close_xml(c@, pretty));
    }
}

fn push_timing_close(out: &mut String, pretty: bool)
    ensures
        final(out)@ == old(out)@ + timing_close_xml(pretty),
{
    push_ind(out, pretty, 3);
    out.append("</c:timing>");
    push_nl(out, pretty);
    proof {
        assert(out@ =~= old(out)@ + timing_close_xml(pretty));
    }
}

fn push_surface_coefficient(out: &mut String, id: &SurfaceId, c: &Coefficient, pretty: bool)
    ensures
        final(out)@ == old(out)@ + surface_coefficient_xml(id@, c@, pretty),
{
    let ghost o = out@;
    push_coefficient_head(out, id, pretty);
    let ghost a = coefficient_head_xml(id@, pretty);
    push_delay_paths(out, &c.timing, pretty);
    let ghost b = delay_paths_xml(c@.timing, pretty);
    proof { lemma_append_step(o, a, b); }
    push_timing_close(out, pretty);
    let ghost t = timing_close_xml(pretty);
    proof { lemma_append_step(o, a + b, t); }
    push_security(out, c, pretty);
    let ghost u = security_xml(c@, pretty);
    proof { lemma_append_step(o, a + b + t, u); }
    push_linearity_close(out, c, pretty);
    let ghost v = linearity_close_xml(c@, pretty);
    proof {
        lemma_append_step(o, a + b + t + u, v);
    }
}

// ---------------------------------------------------------------------------
// The persistence laws

/// L1 — the v0 round trip is the identity: `α(γ(img₀)) = img₀`; hence the
/// same canonical bytes and the same content id.
pub proof fn law_alpha_gamma_identity(b: ImageModel)
    ensures
        alpha_spec(gamma_spec(b)) == b,
        canonical_bytes_spec(alpha_spec(gamma_spec(b))) == canonical_bytes_spec(b),
        content_id(alpha_spec(gamma_spec(b))) == content_id(b),
{
}

/// Identity-stability — the content id is invariant under abstraction and
/// concretisation, because it is computed over the base projection only.
pub proof fn law_identity_stable(b: ImageModel, x: ImageV1Model)
    ensures
        content_id(gamma_spec(b).base) == content_id(b),
        content_id(alpha_spec(x)) == content_id(x.base),
{
}

/// L2 (operational) — `γ(α(img₁))` keeps the base and resets every
/// coefficient to the semiring top.
pub proof fn law_round_trip_resets_to_top(x: ImageV1Model)
    ensures
        base_eq_spec(gamma_spec(alpha_spec(x)), x),
        coeff_is_top_spec(gamma_spec(alpha_spec(x))),
        gamma_spec(alpha_spec(x)).base == x.base,
{
    let g = gamma_spec(alpha_spec(x));
    assert forall|i: int| 0 <= i < g.coefficients.len() implies is_top_spec(#[trigger] g.coefficients[i].coefficient) by {
        assert(g.coefficients[i] == top_for(x.base.surfaces[i]));
    }
}

/// In `γ(b)`, every surface of `b` is given the top coefficient.
pub proof fn lemma_gamma_lookup(b: ImageModel, k: int)
    requires
        0 <= k < b.surfaces.len(),
    ensures
        coefficient_for_spec(gamma_spec(b).coefficients, b.surfaces[k].id) == Some(top_spec()),
{
    lemma_lookup_all_top(b.surfaces.map_values(|s: SurfaceModel| top_for(s)), b.surfaces[k].id, k);
}

proof fn lemma_lookup_all_top(cs: Seq<SurfaceCoefficientModel>, id: Seq<u8>, k: int)
    requires
        0 <= k < cs.len(),
        cs[k].surface_ref == id,
        forall|j: int| 0 <= j < cs.len() ==> (#[trigger] cs[j]).coefficient == top_spec(),
    ensures
        coefficient_for_spec(cs, id) == Some(top_spec()),
    decreases cs.len(),
{
    if cs[0].surface_ref != id {
        assert(k > 0);
        assert(cs.drop_first()[k - 1] == cs[k]);
        lemma_lookup_all_top(cs.drop_first(), id, k - 1);
    }
}

/// Whether the surfaces of an image carry pairwise distinct ids.
pub open spec fn distinct_ids(x: ImageV1Model) -> bool {
    forall|i: int, j: int|
        0 <= i < j < x.base.surfaces.len() ==> x.base.surfaces[i].id != x.base.surfaces[j].id
}

/// How many of `ids` are `r`.
pub open spec fn occurrences(ids: Seq<Seq<u8>>, r: Seq<u8>) -> nat
    decreases ids.len(),
{
    if ids.len() == 0 {
        0
    } else {
        occurrences(ids.drop_last(), r) + if ids.last() == r {
            1nat
        } else {
            0nat
        }
    }
}

/// The references of `cs` to the ids, counted id by id.
pub open spec fn sum_ref_counts(cs: Seq<SurfaceCoefficientModel>, ids: Seq<Seq<u8>>) -> nat
    decreases ids.len(),
{
    if ids.len() == 0 {
        0
    } else {
        sum_ref_counts(cs, ids.drop_last()) + ref_count(cs, ids.last())
    }
}

/// The coefficients of `cs` that refer to one of the ids.
pub open spec fn refs_into(cs: Seq<SurfaceCoefficientModel>, ids: Seq<Seq<u8>>) -> nat
    decreases cs.len(),
{
    if cs.len() == 0 {
        0
    } else {
        refs_into(cs.drop_last(), ids) + if ids.contains(cs.last().surface_ref) {
            1nat
        } else {
            0nat
        }
    }
}

proof fn lemma_sum_ref_counts_step(cs: Seq<SurfaceCoefficientModel>, ids: Seq<Seq<u8>>)
    requires
        cs.len() > 0,
    ensures
        sum_ref_counts(cs, ids) == sum_ref_counts(cs.drop_last(), ids) + occurrences(ids, cs.last().surface_ref),
    decreases ids.len(),
{
    if ids.len() > 0 {
        lemma_sum_ref_counts_step(cs, ids.drop_last());
    }
}

proof fn lemma_occurrences_distinct(ids: Seq<Seq<u8>>, r: Seq<u8>)
    requires
        forall|i: int, j: int| 0 <= i < j < ids.len() ==> ids[i] != ids[j],
    ensures
        occurrences(ids, r) == if ids.contains(r) {
            1nat
        } else {
            0nat
        },
    decreases ids.len(),
{
    if ids.len() > 0 {
        let p = ids.drop_last();
        assert forall|i: int, j: int| 0 <= i < j < p.len() implies p[i] != p[j] by {
            assert(p[i] == ids[i] && p[j] == ids[j]);
        }
        lemma_occurrences_distinct(p, r);
        if ids.last() == r {
            if p.contains(r) {
                let i = choose|i: int| 0 <= i < p.len() && p[i] == r;
                assert(ids[i] == ids[ids.len() - 1]);
            }
            assert(ids.contains(r)) by {
                assert(ids[ids.len() - 1] == r);
            }
        } else {
            if ids.contains(r) {
                let i = choose|i: int| 0 <= i < ids.len() && ids[i] == r;
                assert(p[i] == r);
            }
            if p.contains(r) {
                let i = choose|i: int| 0 <= i < p.len() && p[i] == r;
                assert(ids[i] == r);
            }
        }
    }
}

proof fn lemma_sum_is_refs(cs: Seq<SurfaceCoefficientModel>, ids: Seq<Seq<u8>>)
    requires
        forall|i: int, j: int| 0 <= i < j < ids.len() ==> ids[i] != ids[j],
    ensures
        sum_ref_counts(cs, ids) == refs_into(cs, ids),
    decreases cs.len(),
{
    if cs.len() == 0 {
        lemma_sum_empty(cs, ids);
    } else {
        lemma_sum_is_refs(cs.drop_last(), ids);
        lemma_sum_ref_counts_step(cs, ids);
        lemma_occurrences_distinct(ids, cs.last().surface_ref);
    }
}

proof fn lemma_sum_empty(cs: Seq<SurfaceCoefficientModel>, ids: Seq<Seq<u8>>)
    requires
        cs.len() == 0,
    ensures
        sum_ref_counts(cs, ids) == 0,
    decreases ids.len(),
{
    if ids.len() > 0 {
        lemma_sum_empty(cs, ids.drop_last());
    }
}

proof fn lemma_sum_ones(cs: Seq<SurfaceCoefficientModel>, ids: Seq<Seq<u8>>)
    requires
        forall|k: int| 0 <= k < ids.len() ==> ref_count(cs, #[trigger] ids[k]) == 1,
    ensures
        sum_ref_counts(cs, ids) == ids.len(),
    decreases ids.len(),
{
    if ids.len() > 0 {
        let p = ids.drop_last();
        assert forall|k: int| 0 <= k < p.len() implies ref_count(cs, #[trigger] p[k]) == 1 by {
            assert(p[k] == ids[k]);
        }
        lemma_sum_ones(cs, p);
        assert(ref_count(cs, ids[ids.len() - 1]) == 1);
    }
}

proof fn lemma_refs_all(cs: Seq<SurfaceCoefficientModel>, ids: Seq<Seq<u8>>)
    requires
        refs_into(cs, ids) == cs.len(),
    ensures
        forall|j: int| 0 <= j < cs.len() ==> ids.contains(#[trigger] cs[j].surface_ref),
    decreases cs.len(),
{
    if cs.len() > 0 {
        lemma_refs_bound(cs.drop_last(), ids);
        lemma_refs_all(cs.drop_last(), ids);
        assert forall|j: int| 0 <= j < cs.len() implies ids.contains(#[trigger] cs[j].surface_ref) by {
            if j < cs.len() - 1 {
                assert(cs[j] == cs.drop_last()[j]);
            }
        }
    }
}

proof fn lemma_refs_bound(cs: Seq<SurfaceCoefficientModel>, ids: Seq<Seq<u8>>)
    ensures
        refs_into(cs, ids) <= cs.len(),
    decreases cs.len(),
{
    if cs.len() > 0 {
        lemma_refs_bound(cs.drop_last(), ids);
    }
}

/// In a valid image whose surfaces carry distinct ids, every coefficient
/// refers to a surface: there are as many coefficients as surfaces, and
/// each surface is referred to exactly once.
pub proof fn lemma_valid_refs(x: ImageV1Model)
    requires
        valid_spec(x),
        distinct_ids(x),
    ensures
        forall|i: int|
            0 <= i < x.coefficients.len() ==> exists|k: int|
                0 <= k < x.base.surfaces.len() && x.base.surfaces[k].id == (
                #[trigger] x.coefficients[i]).surface_ref,
{
    let ids = x.base.surfaces.map_values(|s: SurfaceModel| s.id);
    let cs = x.coefficients;
    assert forall|i: int, j: int| 0 <= i < j < ids.len() implies ids[i] != ids[j] by {
        assert(ids[i] == x.base.surfaces[i].id && ids[j] == x.base.surfaces[j].id);
    }
    assert forall|k: int| 0 <= k < ids.len() implies ref_count(cs, #[trigger] ids[k]) == 1 by {
        assert(ids[k] == x.base.surfaces[k].id);
    }
    lemma_sum_ones(cs, ids);
    lemma_sum_is_refs(cs, ids);
    lemma_refs_all(cs, ids);
    assert forall|i: int| 0 <= i < cs.len() implies exists|k: int|
        0 <= k < x.base.surfaces.len() && x.base.surfaces[k].id == (#[trigger] cs[i]).surface_ref by {
        assert(ids.contains(cs[i].surface_ref));
        let k = choose|k: int| 0 <= k < ids.len() && ids[k] == cs[i].surface_ref;
        assert(x.base.surfaces[k].id == ids[k]);
    }
}

/// Whether every coefficient of an image has one delay path (the arity of
/// the top).
pub open spec fn single_paths(x: ImageV1Model) -> bool {
    forall|i: int|
        0 <= i < x.coefficients.len() ==> (#[trigger] x.coefficients[i]).coefficient.timing.len() == 1
}

/// Whether every coefficient of `x` refers to a surface of its base and has
/// one delay path, with as many coefficients as surfaces.
pub open spec fn single_path_image(x: ImageV1Model) -> bool {
    &&& x.coefficients.len() == x.base.surfaces.len()
    &&& forall|i: int|
        0 <= i < x.coefficients.len() ==> (#[trigger] x.coefficients[i]).coefficient.timing.len() == 1
    &&& forall|i: int|
        0 <= i < x.coefficients.len() ==> exists|k: int|
            0 <= k < x.base.surfaces.len() && x.base.surfaces[k].id == (
            #[trigger] x.coefficients[i]).surface_ref
}

/// L2 (order) — the v1 round trip is inflationary: `img₁ ⊑ γ(α(img₁))`, for
/// every valid image whose surfaces carry distinct ids and whose
/// coefficients each have one delay path (the arity of the top).
pub proof fn law_round_trip_inflationary(x: ImageV1Model)
    requires
        valid_spec(x),
        distinct_ids(x),
        single_paths(x),
    ensures
        leq_spec(x, gamma_spec(alpha_spec(x))),
{
    lemma_valid_refs(x);
    assert(single_path_image(x));
    let g = gamma_spec(alpha_spec(x));
    assert forall|i: int| 0 <= i < x.coefficients.len() implies match coefficient_for_spec(
        g.coefficients,
        #[trigger] x.coefficients[i].surface_ref,
    ) {
        Some(o) => coefficient_leq(x.coefficients[i].coefficient, o),
        None => false,
    } by {
        let k = choose|k: int|
            0 <= k < x.base.surfaces.len() && x.base.surfaces[k].id == x.coefficients[i].surface_ref;
        lemma_gamma_lookup(x.base, k);
        law_below_top(x.coefficients[i].coefficient);
    }
}

/// L2 (equality case) — an all-top image lies above its round trip too, when
/// every surface has a coefficient: together with L2 the two are equivalent.
pub proof fn law_top_image_round_trip(x: ImageV1Model)
    requires
        valid_spec(x),
        coeff_is_top_spec(x),
    ensures
        leq_spec(gamma_spec(alpha_spec(x)), x),
{
    let g = gamma_spec(alpha_spec(x));
    assert forall|i: int| 0 <= i < g.coefficients.len() implies match coefficient_for_spec(
        x.coefficients,
        #[trigger] g.coefficients[i].surface_ref,
    ) {
        Some(o) => coefficient_leq(g.coefficients[i].coefficient, o),
        None => false,
    } by {
        let id = x.base.surfaces[i].id;
        assert(g.coefficients[i] == top_for(x.base.surfaces[i]));
        assert(ref_count(x.coefficients, id) == 1);
        let o = lemma_lookup_present(x.coefficients, id);
        assert(is_top_spec(o)) by {
            lemma_lookup_member(x.coefficients, id);
        }
        assert(o.timing =~= top_spec().timing);
        law_leq_reflexive(top_spec());
    }
}

pub proof fn lemma_lookup_present(cs: Seq<SurfaceCoefficientModel>, id: Seq<u8>) -> (o: CoefficientModel)
    requires
        ref_count(cs, id) >= 1,
    ensures
        coefficient_for_spec(cs, id) == Some(o),
    decreases cs.len(),
{
    lemma_ref_count_front(cs, id);
    if cs[0].surface_ref == id {
        cs[0].coefficient
    } else {
        lemma_lookup_present(cs.drop_first(), id)
    }
}

/// `ref_count` counted from the front.
pub proof fn lemma_ref_count_front(cs: Seq<SurfaceCoefficientModel>, id: Seq<u8>)
    requires
        cs.len() > 0,
    ensures
        ref_count(cs, id) == ref_count(cs.drop_first(), id) + if cs[0].surface_ref == id {
            1nat
        } else {
            0nat
        },
    decreases cs.len(),
{
    if cs.len() > 1 {
        let dl = cs.drop_last();
        let df = cs.drop_first();
        lemma_ref_count_front(dl, id);
        assert(dl.drop_first() =~= df.drop_last());
        assert(df.last() == cs.last());
        assert(dl[0] == cs[0]);
        assert(ref_count(df, id) == ref_count(df.drop_last(), id) + if df.last().surface_ref == id {
            1nat
        } else {
            0nat
        });
    } else {
        assert(cs.drop_last().len() == 0);
        assert(cs.drop_first().len() == 0);
        assert(cs.last() == cs[0]);
        assert(ref_count(cs.drop_first(), id) == 0);
        assert(ref_count(cs.drop_last(), id) == 0);
    }
}

/// The coefficient found for `id` is one of the list's coefficients.
pub proof fn lemma_lookup_member(cs: Seq<SurfaceCoefficientModel>, id: Seq<u8>)
    ensures
        match coefficient_for_spec(cs, id) {
            Some(o) => exists|j: int| 0 <= j < cs.len() && (#[trigger] cs[j]).coefficient == o,
            None => true,
        },
    decreases cs.len(),
{
    if cs.len() > 0 && cs[0].surface_ref != id {
        lemma_lookup_member(cs.drop_first(), id);
        if let Some(o) = coefficient_for_spec(cs, id) {
            let j = choose|j: int| 0 <= j < cs.drop_first().len() && (#[trigger] cs.drop_first()[j]).coefficient == o;
            assert(cs[j + 1] == cs.drop_first()[j]);
        }
    } else if cs.len() > 0 {
        assert(cs[0].coefficient == cs[0].coefficient);
    }
}

/// The Galois connection, from right to left: `x ⊑ γ(y)` implies
/// `α(x) = y` under the canonical form.
pub proof fn law_galois_right_to_left(x: ImageV1Model, y: ImageModel)
    requires
        leq_spec(x, gamma_spec(y)),
    ensures
        canonical_bytes_spec(alpha_spec(x)) == canonical_bytes_spec(y),
{
}

/// The Galois connection, from left to right: `α(x) = y` under the
/// canonical form implies `x ⊑ γ(y)`, for every valid image whose surfaces
/// carry distinct ids and whose coefficients each have one delay path.
/// (Equal canonical forms list the same surface ids in the same order.)
pub proof fn law_galois_left_to_right(x: ImageV1Model, y: ImageModel)
    requires
        valid_spec(x),
        distinct_ids(x),
        single_paths(x),
        canonical_bytes_spec(alpha_spec(x)) == canonical_bytes_spec(y),
    ensures
        leq_spec(x, gamma_spec(y)),
{
    lemma_valid_refs(x);
    crate::canonical::lemma_canonical_determines_ids(x.base, y);
    let g = gamma_spec(y);
    assert forall|i: int| 0 <= i < x.coefficients.len() implies match coefficient_for_spec(
        g.coefficients,
        #[trigger] x.coefficients[i].surface_ref,
    ) {
        Some(o) => coefficient_leq(x.coefficients[i].coefficient, o),
        None => false,
    } by {
        let k = choose|k: int|
            0 <= k < x.base.surfaces.len() && x.base.surfaces[k].id == x.coefficients[i].surface_ref;
        assert(y.surfaces[k].id == x.base.surfaces[k].id);
        lemma_gamma_lookup(y, k);
        law_below_top(x.coefficients[i].coefficient);
    }
}

/// L3 — the renderer-migration law: for any v1 load/checkpoint pair that
/// returns what it loaded, `α(checkpoint(load(γ(img₀)))) = img₀`, with the
/// same content id.
pub proof fn law_migration(b: ImageModel, load: spec_fn(ImageV1Model) -> ImageV1Model, checkpoint: spec_fn(ImageV1Model) -> ImageV1Model)
    requires
        forall|x: ImageV1Model| #[trigger] checkpoint(load(x)) == x,
    ensures
        alpha_spec(checkpoint(load(gamma_spec(b)))) == b,
        content_id(alpha_spec(checkpoint(load(gamma_spec(b))))) == content_id(b),
{
    assert(checkpoint(load(gamma_spec(b))) == gamma_spec(b));
}

/// A coefficient list that names `id` at position `j` names it at least
/// once.
proof fn lemma_ref_count_member(cs: Seq<SurfaceCoefficientModel>, id: Seq<u8>, j: int)
    requires
        0 <= j < cs.len(),
        cs[j].surface_ref == id,
    ensures
        ref_count(cs, id) >= 1,
    decreases cs.len(),
{
    lemma_ref_count_front(cs, id);
    if j > 0 {
        assert(cs.drop_first()[j - 1] == cs[j]);
        lemma_ref_count_member(cs.drop_first(), id, j - 1);
    }
}

/// Where `id` is named exactly once, at position `j`, the coefficient found
/// for it is the one at `j`.
proof fn lemma_lookup_unique(cs: Seq<SurfaceCoefficientModel>, id: Seq<u8>, j: int)
    requires
        0 <= j < cs.len(),
        cs[j].surface_ref == id,
        ref_count(cs, id) == 1,
    ensures
        coefficient_for_spec(cs, id) == Some(cs[j].coefficient),
    decreases cs.len(),
{
    lemma_ref_count_front(cs, id);
    if cs[0].surface_ref == id {
        if j > 0 {
            assert(cs.drop_first()[j - 1] == cs[j]);
            lemma_ref_count_member(cs.drop_first(), id, j - 1);
        }
    } else {
        assert(cs.drop_first()[j - 1] == cs[j]);
        lemma_lookup_unique(cs.drop_first(), id, j - 1);
    }
}

/// L2 (equality case, converse) — a valid image whose surfaces carry
/// distinct ids lies above its round trip only if every coefficient is the
/// top: with [`law_top_image_round_trip`], `γ(α(img₁)) ⊑ img₁` holds
/// exactly for the all-top images.
pub proof fn law_above_round_trip_is_top(x: ImageV1Model)
    requires
        valid_spec(x),
        distinct_ids(x),
        leq_spec(gamma_spec(alpha_spec(x)), x),
    ensures
        coeff_is_top_spec(x),
{
    lemma_valid_refs(x);
    let g = gamma_spec(alpha_spec(x));
    assert forall|j: int| 0 <= j < x.coefficients.len() implies is_top_spec(
        #[trigger] x.coefficients[j].coefficient,
    ) by {
        let k = choose|k: int|
            0 <= k < x.base.surfaces.len() && x.base.surfaces[k].id == x.coefficients[j].surface_ref;
        let id = x.base.surfaces[k].id;
        assert(g.coefficients[k] == top_for(x.base.surfaces[k]));
        assert(ref_count(x.coefficients, x.base.surfaces[k].id) == 1);
        lemma_lookup_unique(x.coefficients, id, j);
        assert(g.coefficients[k].surface_ref == id);
        let o = x.coefficients[j].coefficient;
        assert(coefficient_leq(top_spec(), o));
        assert(crate::coefficients::contained_in(top_spec().timing[0], o.timing[0]));
    }
}

} // verus!
