//! What the canonical form of an image determines: the ids of its surfaces,
//! in order.
//!
//! The canonical text is cut before each `<` into chunks. Every field that
//! the writer puts into the text is escaped or otherwise free of `<`, so
//! each tag of the writer starts exactly one chunk; the opening `<surface>`
//! tags, read up to the closing `</surfaces>`, give back the surface ids.
use vstd::prelude::*;
use crate::session::{canonical_bytes_spec, canonical_doc, escape_attr, escape_text, ImageModel,
    SurfaceModel};

verus! {

/// Whether `s` holds no `<`.
pub open spec fn lt_free(s: Seq<char>) -> bool {
    forall|k: int| 0 <= k < s.len() ==> s[k] != '<'
}

/// The position of the first `<` in `s` at or after `i` (its length if
/// there is none).
pub open spec fn next_lt(s: Seq<char>, i: int) -> int
    decreases s.len() - i,
{
    if i >= s.len() {
        s.len() as int
    } else if s[i] == '<' {
        i
    } else {
        next_lt(s, i + 1)
    }
}

proof fn lemma_next_lt(s: Seq<char>, i: int)
    requires
        0 <= i <= s.len(),
    ensures
        i <= next_lt(s, i) <= s.len(),
        forall|k: int| i <= k < next_lt(s, i) ==> s[k] != '<',
        next_lt(s, i) < s.len() ==> s[next_lt(s, i)] == '<',
    decreases s.len() - i,
{
    if i < s.len() && s[i] != '<' {
        lemma_next_lt(s, i + 1);
    }
}

/// The text cut before each `<` after its first character.
pub open spec fn chunks(s: Seq<char>) -> Seq<Seq<char>>
    decreases s.len(),
{
    if s.len() == 0 {
        Seq::empty()
    } else {
        let j = next_lt(s, 1);
        if 1 <= j <= s.len() {
            seq![s.take(j)] + chunks(s.skip(j))
        } else {
            seq![s]
        }
    }
}

proof fn lemma_next_lt_concat(a: Seq<char>, b: Seq<char>, i: int)
    requires
        0 <= i <= a.len(),
        b.len() == 0 || b[0] == '<',
    ensures
        next_lt(a + b, i) == next_lt(a, i),
    decreases a.len() - i,
{
    if i < a.len() {
        assert((a + b)[i] == a[i]);
        if a[i] != '<' {
            lemma_next_lt_concat(a, b, i + 1);
        }
    } else if b.len() > 0 {
        assert((a + b)[i] == b[0]);
    } else {
        assert(a + b =~= a);
    }
}

/// Cutting a text that ends where a `<` (or the end) follows.
pub proof fn lemma_chunks_concat(a: Seq<char>, b: Seq<char>)
    requires
        b.len() == 0 || b[0] == '<',
    ensures
        chunks(a + b) == chunks(a) + chunks(b),
    decreases a.len(),
{
    if a.len() == 0 {
        assert(a + b =~= b);
        assert(chunks(a) + chunks(b) =~= chunks(b));
    } else {
        let j = next_lt(a, 1);
        lemma_next_lt(a, 1);
        lemma_next_lt_concat(a, b, 1);
        lemma_next_lt(a + b, 1);
        assert((a + b).take(j) =~= a.take(j));
        assert((a + b).skip(j) =~= a.skip(j) + b);
        lemma_chunks_concat(a.skip(j), b);
        assert(chunks(a + b) =~= seq![a.take(j)] + (chunks(a.skip(j)) + chunks(b)));
        assert(chunks(a) =~= seq![a.take(j)] + chunks(a.skip(j)));
    }
}

/// A tag of the writer: a `<` and then no `<`.
pub open spec fn tag_unit(u: Seq<char>) -> bool {
    &&& u.len() > 0
    &&& u[0] == '<'
    &&& forall|k: int| 1 <= k < u.len() ==> u[k] != '<'
}

/// A tag of the writer is one chunk.
pub proof fn lemma_chunks_unit(u: Seq<char>)
    requires
        tag_unit(u),
    ensures
        chunks(u) == seq![u],
{
    lemma_next_lt(u, 1);
    assert(next_lt(u, 1) == u.len());
    assert(u.take(u.len() as int) =~= u);
    assert(u.skip(u.len() as int) =~= Seq::<char>::empty());
    assert(chunks(u.skip(u.len() as int)) =~= Seq::<Seq<char>>::empty());
}

/// A tag followed by a `<`-free field is a tag.
pub proof fn lemma_unit_concat(u: Seq<char>, f: Seq<char>)
    requires
        tag_unit(u),
        lt_free(f),
    ensures
        tag_unit(u + f),
{
    assert forall|k: int| 1 <= k < (u + f).len() implies (u + f)[k] != '<' by {
        if k < u.len() {
            assert((u + f)[k] == u[k]);
        } else {
            assert((u + f)[k] == f[k - u.len()]);
        }
    }
}

proof fn lemma_lt_free_concat(a: Seq<char>, b: Seq<char>)
    requires
        lt_free(a),
        lt_free(b),
    ensures
        lt_free(a + b),
{
    assert forall|k: int| 0 <= k < (a + b).len() implies (a + b)[k] != '<' by {
        if k < a.len() {
            assert((a + b)[k] == a[k]);
        } else {
            assert((a + b)[k] == b[k - a.len()]);
        }
    }
}

/// Escaped attribute values hold no `<` and no `"`.
pub proof fn lemma_escape_attr_free(s: Seq<char>)
    ensures
        lt_free(escape_attr(s)),
        forall|k: int| 0 <= k < escape_attr(s).len() ==> escape_attr(s)[k] != '"',
    decreases s.len(),
{
    reveal_strlit("&amp;");
    reveal_strlit("&lt;");
    reveal_strlit("&gt;");
    reveal_strlit("&quot;");
    if s.len() > 0 {
        lemma_escape_attr_free(s.drop_last());
        let a = escape_attr(s.drop_last());
        let c = crate::session::attr_escape_char(s.last());
        assert forall|k: int| 0 <= k < c.len() implies c[k] != '<' && c[k] != '"' by {}
        assert forall|k: int| 0 <= k < (a + c).len() implies (a + c)[k] != '<' && (a + c)[k] != '"' by {
            if k < a.len() {
                assert((a + c)[k] == a[k]);
            } else {
                assert((a + c)[k] == c[k - a.len()]);
            }
        }
    }
}

/// Escaped element text holds no `<`.
pub proof fn lemma_escape_text_free(s: Seq<char>)
    ensures
        lt_free(escape_text(s)),
    decreases s.len(),
{
    reveal_strlit("&amp;");
    reveal_strlit("&lt;");
    reveal_strlit("&gt;");
    if s.len() > 0 {
        lemma_escape_text_free(s.drop_last());
        let c = crate::session::text_escape_char(s.last());
        assert(lt_free(c));
        lemma_lt_free_concat(escape_text(s.drop_last()), c);
    }
}

/// Digits hold no `<`.
proof fn lemma_digits_free(s: Seq<char>)
    requires
        crate::text::all_digits(s),
    ensures
        lt_free(s),
{
    assert forall|k: int| 0 <= k < s.len() implies s[k] != '<' by {
        assert(crate::text::is_digit(s[k]));
    }
}

/// A decimal numeral holds no `<`.
proof fn lemma_decimal_free(n: nat)
    ensures
        lt_free(crate::text::decimal(n)),
{
    crate::roundtrip::lemma_decimal_digits(n);
    lemma_digits_free(crate::text::decimal(n));
}

// ---------------------------------------------------------------------------
// Chunks that matter

/// A chunk that opens a surface element.
pub open spec fn opens_surface(c: Seq<char>) -> bool {
    c.len() >= 13 && c.take(13) == "<surface id=\""@
}

/// The chunk that closes the surfaces element.
pub open spec fn closes_surfaces(c: Seq<char>) -> bool {
    c == "</surfaces>"@
}

/// A chunk that neither opens a surface nor closes the surfaces.
pub open spec fn boring(c: Seq<char>) -> bool {
    !opens_surface(c) && !closes_surfaces(c)
}

/// The position of the first `"` in `s` at or after `i` (its length if
/// there is none).
pub open spec fn next_quote(s: Seq<char>, i: int) -> int
    decreases s.len() - i,
{
    if i >= s.len() {
        s.len() as int
    } else if s[i] == '"' {
        i
    } else {
        next_quote(s, i + 1)
    }
}

/// The id text of an opening surface tag: what stands between `id="` and
/// the next `"`.
pub open spec fn open_id_text(c: Seq<char>) -> Seq<char> {
    c.subrange(13, next_quote(c, 13))
}

/// The id texts of the surfaces that a list of chunks opens before it
/// closes the surfaces.
pub open spec fn surface_id_texts(cs: Seq<Seq<char>>) -> Seq<Seq<char>>
    decreases cs.len(),
{
    if cs.len() == 0 {
        Seq::empty()
    } else if closes_surfaces(cs[0]) {
        Seq::empty()
    } else if opens_surface(cs[0]) {
        seq![open_id_text(cs[0])] + surface_id_texts(cs.drop_first())
    } else {
        surface_id_texts(cs.drop_first())
    }
}

/// A text of writer tags none of which opens a surface or closes the
/// surfaces.
pub open spec fn boring_text(t: Seq<char>) -> bool {
    &&& (t.len() == 0 || t[0] == '<')
    &&& forall|i: int| 0 <= i < chunks(t).len() ==> boring(#[trigger] chunks(t)[i])
}

proof fn lemma_boring_concat(a: Seq<char>, b: Seq<char>)
    requires
        boring_text(a),
        boring_text(b),
    ensures
        boring_text(a + b),
{
    lemma_chunks_concat(a, b);
    if a.len() > 0 {
        assert((a + b)[0] == a[0]);
    } else {
        assert(a + b =~= b);
    }
    assert forall|i: int| 0 <= i < chunks(a + b).len() implies boring(#[trigger] chunks(a + b)[i]) by {
        if i < chunks(a).len() {
            assert(chunks(a + b)[i] == chunks(a)[i]);
        } else {
            assert(chunks(a + b)[i] == chunks(b)[i - chunks(a).len()]);
        }
    }
}

/// A short writer tag (shorter than `<surface id="` and not the closing
/// `</surfaces>`) is a boring text.
proof fn lemma_short_unit(u: Seq<char>)
    requires
        tag_unit(u),
        u.len() < 13,
        u != "</surfaces>"@,
    ensures
        boring_text(u),
{
    lemma_chunks_unit(u);
}

/// A writer tag whose second character is neither `s` nor `/` is a boring
/// text.
proof fn lemma_plain_unit(u: Seq<char>)
    requires
        tag_unit(u),
        u.len() > 1,
        u[1] != 's',
        u[1] != '/',
    ensures
        boring_text(u),
{
    reveal_strlit("<surface id=\"");
    reveal_strlit("</surfaces>");
    lemma_chunks_unit(u);
    if opens_surface(u) {
        assert(u.take(13)[1] == u[1]);
    }
    if closes_surfaces(u) {
        assert(u[1] == '/');
    }
}

/// A text-only element of the canonical form is a boring text, for a tag
/// that starts with neither `s` nor `/`.
proof fn lemma_text_el_boring(d: nat, tag: Seq<char>, text: Seq<char>)
    requires
        tag.len() > 0,
        lt_free(tag),
        tag[0] != 's',
        tag[0] != '/',
    ensures
        boring_text(crate::session::text_el(false, d, tag, text)),
{
    reveal_strlit("<");
    reveal_strlit(">");
    reveal_strlit("</");
    reveal_strlit("</surfaces>");
    let e = escape_text(text);
    lemma_escape_text_free(text);
    let u1 = "<"@ + tag + ">"@ + e;
    let u2 = "</"@ + tag + ">"@;
    assert(crate::session::text_el(false, d, tag, text) =~= u1 + u2);
    assert(lt_free(">"@));
    lemma_lt_free_concat(tag, ">"@);
    lemma_lt_free_concat(tag + ">"@, e);
    assert(tag_unit("<"@));
    lemma_unit_concat("<"@, tag + ">"@ + e);
    assert("<"@ + (tag + ">"@ + e) =~= u1);
    assert(u1[1] == tag[0]);
    lemma_plain_unit(u1);
    assert(tag_unit("</"@));
    lemma_unit_concat("</"@, tag + ">"@);
    assert("</"@ + (tag + ">"@) =~= u2);
    lemma_chunks_unit(u2);
    reveal_strlit("<surface id=\"");
    if closes_surfaces(u2) {
        assert(u2[2] == tag[0]);
        assert("</surfaces>"@[2] == 's');
    }
    if opens_surface(u2) {
        assert(u2.take(13)[1] == u2[1]);
        assert(u2[1] == '/');
    }
    assert(boring(u2));
    assert(chunks(u2)[0] == u2);
    assert(boring_text(u2));
    lemma_boring_concat(u1, u2);
}

proof fn lemma_next_quote_at(s: Seq<char>, i: int, j: int)
    requires
        0 <= i <= j < s.len(),
        forall|k: int| i <= k < j ==> s[k] != '"',
        s[j] == '"',
    ensures
        next_quote(s, i) == j,
    decreases j - i,
{
    if i < j {
        lemma_next_quote_at(s, i + 1, j);
    }
}

/// Reading the chunks of a text that does not close the surfaces, then
/// more.
proof fn lemma_sit_concat(a: Seq<Seq<char>>, b: Seq<Seq<char>>)
    requires
        forall|i: int| 0 <= i < a.len() ==> !closes_surfaces(#[trigger] a[i]),
    ensures
        surface_id_texts(a + b) == surface_id_texts(a) + surface_id_texts(b),
    decreases a.len(),
{
    if a.len() == 0 {
        assert(a + b =~= b);
        assert(surface_id_texts(a) + surface_id_texts(b) =~= surface_id_texts(b));
    } else {
        assert((a + b)[0] == a[0]);
        assert((a + b).drop_first() =~= a.drop_first() + b);
        assert(!closes_surfaces(a[0]));
        assert forall|i: int| 0 <= i < a.drop_first().len() implies !closes_surfaces(
            #[trigger] a.drop_first()[i],
        ) by {
            assert(a.drop_first()[i] == a[i + 1]);
        }
        lemma_sit_concat(a.drop_first(), b);
        if opens_surface(a[0]) {
            assert(surface_id_texts(a + b) =~= seq![open_id_text(a[0])] + (surface_id_texts(
                a.drop_first(),
            ) + surface_id_texts(b)));
        }
    }
}

/// The chunks of a boring text open no surface.
proof fn lemma_sit_boring(t: Seq<char>)
    requires
        boring_text(t),
    ensures
        surface_id_texts(chunks(t)) == Seq::<Seq<char>>::empty(),
{
    lemma_sit_boring_list(chunks(t));
}

proof fn lemma_sit_boring_list(a: Seq<Seq<char>>)
    requires
        forall|i: int| 0 <= i < a.len() ==> boring(#[trigger] a[i]),
    ensures
        surface_id_texts(a) == Seq::<Seq<char>>::empty(),
    decreases a.len(),
{
    if a.len() > 0 {
        assert(boring(a[0]));
        assert forall|i: int| 0 <= i < a.drop_first().len() implies boring(#[trigger] a.drop_first()[i]) by {
            assert(a.drop_first()[i] == a[i + 1]);
        }
        lemma_sit_boring_list(a.drop_first());
    }
}

/// The canonical form of a host is a boring text.
proof fn lemma_host_boring(h: crate::session::HostModel)
    ensures
        boring_text(crate::session::host_xml(h, false)),
{
    reveal_strlit("<host>");
    reveal_strlit("</host>");
    reveal_strlit("</surfaces>");
    reveal_strlit("address");
    reveal_strlit("os");
    reveal_strlit("machine");
    reveal_strlit("capture");
    let a = "<host>"@;
    let z = "</host>"@;
    assert(tag_unit(a));
    assert(tag_unit(z));
    lemma_short_unit(a);
    lemma_short_unit(z);
    assert(lt_free("address"@));
    assert(lt_free("os"@));
    assert(lt_free("machine"@));
    assert(lt_free("capture"@));
    let t1 = crate::session::text_el(false, 4, "address"@, h.address);
    let t2 = crate::session::text_el(false, 4, "os"@, crate::session::os_text(h.os));
    let t3 = crate::session::text_el(false, 4, "machine"@, h.machine);
    let t4 = crate::session::text_el(false, 4, "capture"@, h.capture);
    lemma_text_el_boring(4, "address"@, h.address);
    lemma_text_el_boring(4, "os"@, crate::session::os_text(h.os));
    lemma_text_el_boring(4, "machine"@, h.machine);
    lemma_text_el_boring(4, "capture"@, h.capture);
    assert(crate::session::host_xml(h, false) =~= a + (t1 + (t2 + (t3 + (t4 + z)))));
    lemma_boring_concat(t4, z);
    lemma_boring_concat(t3, t4 + z);
    lemma_boring_concat(t2, t3 + (t4 + z));
    lemma_boring_concat(t1, t2 + (t3 + (t4 + z)));
    lemma_boring_concat(a, t1 + (t2 + (t3 + (t4 + z))));
}

/// The canonical form of a surface's dimensions is a boring text.
proof fn lemma_dims_boring(s: SurfaceModel)
    ensures
        boring_text(crate::session::dims_xml(s, false)),
{
    reveal_strlit("<dimensions height=\"");
    reveal_strlit("\" width=\"");
    reveal_strlit("\"/>");
    let l1 = "<dimensions height=\""@;
    let l2 = "\" width=\""@;
    let l3 = "\"/>"@;
    let d1 = crate::text::decimal(s.height as nat);
    let d2 = crate::text::decimal(s.width as nat);
    lemma_decimal_free(s.height as nat);
    lemma_decimal_free(s.width as nat);
    assert(lt_free(l2));
    assert(lt_free(l3));
    lemma_lt_free_concat(d2, l3);
    lemma_lt_free_concat(l2, d2 + l3);
    lemma_lt_free_concat(d1, l2 + (d2 + l3));
    assert(tag_unit(l1));
    lemma_unit_concat(l1, d1 + (l2 + (d2 + l3)));
    assert(crate::session::dims_xml(s, false) =~= l1 + (d1 + (l2 + (d2 + l3))));
    assert(crate::session::dims_xml(s, false)[1] == 'd');
    lemma_plain_unit(crate::session::dims_xml(s, false));
}

/// The canonical form of a surface opens one surface, with the surface's id
/// text, and does not close the surfaces.
pub proof fn lemma_surface_chunks(s: SurfaceModel)
    ensures
        crate::session::surface_xml(s, false).len() > 0,
        crate::session::surface_xml(s, false)[0] == '<',
        forall|i: int|
            0 <= i < chunks(crate::session::surface_xml(s, false)).len() ==> !closes_surfaces(
                #[trigger] chunks(crate::session::surface_xml(s, false))[i],
            ),
        surface_id_texts(chunks(crate::session::surface_xml(s, false))) == seq![
            escape_attr(crate::session::surface_id_text(s.id)),
        ],
{
    reveal(crate::session::surface_xml);
    reveal_strlit("<surface id=\"");
    reveal_strlit("\" name=\"");
    reveal_strlit("\" order=\"");
    reveal_strlit("\">");
    reveal_strlit("</surface>");
    reveal_strlit("</surfaces>");
    reveal_strlit("codec");
    let e = escape_attr(crate::session::surface_id_text(s.id));
    let n = escape_attr(s.name);
    let d = crate::text::decimal(s.order as nat);
    let l0 = "<surface id=\""@;
    let l1 = "\" name=\""@;
    let l2 = "\" order=\""@;
    let l3 = "\">"@;
    lemma_escape_attr_free(crate::session::surface_id_text(s.id));
    lemma_escape_attr_free(s.name);
    lemma_decimal_free(s.order as nat);
    assert(lt_free(l1));
    assert(lt_free(l2));
    assert(lt_free(l3));
    lemma_lt_free_concat(d, l3);
    lemma_lt_free_concat(l2, d + l3);
    lemma_lt_free_concat(n, l2 + (d + l3));
    lemma_lt_free_concat(l1, n + (l2 + (d + l3)));
    lemma_lt_free_concat(e, l1 + (n + (l2 + (d + l3))));
    assert(tag_unit(l0));
    let tail = e + (l1 + (n + (l2 + (d + l3))));
    lemma_unit_concat(l0, tail);
    let o = l0 + tail;
    assert(crate::session::surface_open(s, false) =~= o);
    // the rest of the element
    let h = crate::session::host_xml(s.host, false);
    let c = crate::session::text_el(false, 3, "codec"@, crate::session::codec_text(s.codec));
    let dm = crate::session::dims_xml(s, false);
    let z = "</surface>"@;
    lemma_host_boring(s.host);
    assert(lt_free("codec"@));
    lemma_text_el_boring(3, "codec"@, crate::session::codec_text(s.codec));
    lemma_dims_boring(s);
    assert(tag_unit(z));
    lemma_short_unit(z);
    lemma_boring_concat(dm, z);
    lemma_boring_concat(c, dm + z);
    lemma_boring_concat(h, c + (dm + z));
    let r = h + (c + (dm + z));
    assert(crate::session::surface_xml(s, false) =~= o + r);
    lemma_chunks_unit(o);
    lemma_chunks_concat(o, r);
    let cs = chunks(o + r);
    assert(cs =~= seq![o] + chunks(r));
    // the opening tag
    assert(o.take(13) =~= l0);
    assert(opens_surface(o));
    assert(!closes_surfaces(o));
    assert forall|k: int| 13 <= k < 13 + e.len() implies o[k] != '"' by {
        assert(o[k] == e[k - 13]);
    }
    assert(o[13 + e.len() as int] == '"');
    lemma_next_quote_at(o, 13, 13 + e.len() as int);
    assert(open_id_text(o) =~= e);
    lemma_sit_boring(r);
    assert forall|i: int| 0 <= i < chunks(r).len() implies !closes_surfaces(#[trigger] chunks(r)[i]) by {
        assert(boring(chunks(r)[i]));
    }
    lemma_sit_concat(seq![o], chunks(r));
    assert(surface_id_texts(seq![o]) =~= seq![e]) by {
        let so = seq![o];
        assert(so[0] == o);
        assert(so.drop_first() =~= Seq::<Seq<char>>::empty());
        assert(surface_id_texts(so.drop_first()) =~= Seq::<Seq<char>>::empty());
        assert(surface_id_texts(so) == seq![open_id_text(o)] + surface_id_texts(so.drop_first()));
    }
    assert forall|i: int| 0 <= i < cs.len() implies !closes_surfaces(#[trigger] cs[i]) by {
        if i > 0 {
            assert(cs[i] == chunks(r)[i - 1]);
        }
    }
    assert(surface_id_texts(cs) =~= seq![e]);
}

/// The escaped id texts of a list of surfaces, in order.
pub open spec fn id_texts(ss: Seq<SurfaceModel>) -> Seq<Seq<char>> {
    ss.map_values(|s: SurfaceModel| escape_attr(crate::session::surface_id_text(s.id)))
}

/// The canonical form of a list of surfaces opens them in order, each with
/// its id text, and does not close the surfaces.
proof fn lemma_surfaces_chunks(ss: Seq<SurfaceModel>)
    ensures
        crate::session::surfaces_xml(ss, false).len() == 0 || crate::session::surfaces_xml(ss, false)[0]
            == '<',
        forall|i: int|
            0 <= i < chunks(crate::session::surfaces_xml(ss, false)).len() ==> !closes_surfaces(
                #[trigger] chunks(crate::session::surfaces_xml(ss, false))[i],
            ),
        surface_id_texts(chunks(crate::session::surfaces_xml(ss, false))) == id_texts(ss),
    decreases ss.len(),
{
    if ss.len() == 0 {
        assert(id_texts(ss) =~= Seq::<Seq<char>>::empty());
        assert(chunks(Seq::<char>::empty()) =~= Seq::<Seq<char>>::empty());
    } else {
        let p = ss.drop_last();
        lemma_surfaces_chunks(p);
        lemma_surface_chunks(ss.last());
        let a = crate::session::surfaces_xml(p, false);
        let b = crate::session::surface_xml(ss.last(), false);
        assert(crate::session::surfaces_xml(ss, false) == a + b);
        lemma_chunks_concat(a, b);
        if a.len() == 0 {
            assert((a + b)[0] == b[0]);
        } else {
            assert((a + b)[0] == a[0]);
        }
        let ca = chunks(a);
        let cb = chunks(b);
        assert forall|i: int| 0 <= i < (ca + cb).len() implies !closes_surfaces(#[trigger] (ca + cb)[i]) by {
            if i < ca.len() {
                assert((ca + cb)[i] == ca[i]);
            } else {
                assert((ca + cb)[i] == cb[i - ca.len()]);
            }
        }
        lemma_sit_concat(ca, cb);
        assert(id_texts(ss) =~= id_texts(p) + seq![
            escape_attr(crate::session::surface_id_text(ss.last().id)),
        ]);
    }
}

/// The surfaces that the canonical form of an image opens, before it closes
/// the surfaces, are the image's surfaces, in order.
pub proof fn lemma_canonical_id_texts(m: ImageModel)
    ensures
        surface_id_texts(chunks(canonical_doc(m))) == id_texts(m.surfaces),
{
    reveal_strlit("<session xmlns=\"");
    reveal_strlit("https://simulboot.dev/session/v1");
    reveal_strlit("\"");
    reveal_strlit(" created=\"");
    reveal_strlit(" schema-version=\"");
    reveal_strlit(">");
    reveal_strlit("<surfaces>");
    reveal_strlit("</surfaces>");
    reveal_strlit("<layout>");
    reveal_strlit("<surface id=\"");
    let ns = crate::session::session_namespace();
    let cr = escape_attr(m.created);
    let dv = crate::text::decimal(m.schema_version as nat);
    lemma_escape_attr_free(m.created);
    lemma_decimal_free(m.schema_version as nat);
    let l0 = "<session xmlns=\""@;
    let q = "\""@;
    let l1 = " created=\""@;
    let l2 = " schema-version=\""@;
    let gt = ">"@;
    assert(lt_free(ns));
    assert(lt_free(q));
    assert(lt_free(l1));
    assert(lt_free(l2));
    assert(lt_free(gt));
    lemma_lt_free_concat(q, gt);
    lemma_lt_free_concat(dv, q + gt);
    lemma_lt_free_concat(l2, dv + (q + gt));
    lemma_lt_free_concat(q, l2 + (dv + (q + gt)));
    lemma_lt_free_concat(cr, q + (l2 + (dv + (q + gt))));
    lemma_lt_free_concat(l1, cr + (q + (l2 + (dv + (q + gt)))));
    lemma_lt_free_concat(q, l1 + (cr + (q + (l2 + (dv + (q + gt))))));
    lemma_lt_free_concat(ns, q + (l1 + (cr + (q + (l2 + (dv + (q + gt)))))));
    assert(tag_unit(l0));
    let t0 = ns + (q + (l1 + (cr + (q + (l2 + (dv + (q + gt)))))));
    lemma_unit_concat(l0, t0);
    let o = l0 + t0;
    assert(crate::session::session_open_tag(m, None) =~= o);
    let su = "<surfaces>"@;
    let cl = "</surfaces>"@;
    let sx = crate::session::surfaces_xml(m.surfaces, false);
    let lx = crate::session::layout_xml(m.layout, false);
    let r = lx + "</session>"@;
    assert(lx.len() > 0 && lx[0] == '<') by {
        assert(lx =~= "<layout>"@ + lx.skip(8));
    }
    assert(r[0] == '<');
    assert(canonical_doc(m) =~= o + (su + (sx + (cl + r))));
    lemma_surfaces_chunks(m.surfaces);
    assert(tag_unit(su));
    assert(tag_unit(cl));
    lemma_chunks_unit(o);
    lemma_chunks_unit(su);
    lemma_chunks_unit(cl);
    lemma_chunks_concat(cl, r);
    let x = cl + r;
    if sx.len() == 0 {
        assert((sx + x)[0] == x[0]);
    } else {
        assert((sx + x)[0] == sx[0]);
    }
    lemma_chunks_concat(sx, x);
    lemma_chunks_concat(su, sx + x);
    lemma_chunks_concat(o, su + (sx + x));
    let cx = chunks(x);
    assert(cx =~= seq![cl] + chunks(r));
    assert(surface_id_texts(cx) =~= Seq::<Seq<char>>::empty()) by {
        assert(cx[0] == cl);
        assert(closes_surfaces(cx[0]));
    }
    lemma_sit_concat(chunks(sx), cx);
    let after = chunks(sx) + cx;
    assert(!opens_surface(su) && !closes_surfaces(su));
    assert(o[1] == 's' && o[2] == 'e');
    if opens_surface(o) {
        assert(o.take(13)[2] == o[2]);
    }
    assert(!opens_surface(o));
    assert(!closes_surfaces(o)) by {
        if closes_surfaces(o) {
            assert(o[1] == '/');
        }
    }
    let s1 = seq![su] + after;
    assert(s1[0] == su);
    assert(s1.drop_first() =~= after);
    let s0 = seq![o] + s1;
    assert(s0[0] == o);
    assert(s0.drop_first() =~= s1);
    assert(chunks(canonical_doc(m)) =~= s0);
    assert(surface_id_texts(after) == id_texts(m.surfaces));
    assert(surface_id_texts(s1) == surface_id_texts(after));
    assert(surface_id_texts(s0) == surface_id_texts(s1));
}

/// Escaping changes nothing in a text without `&`, `<`, `>` or `"`.
proof fn lemma_escape_attr_plain(t: Seq<char>)
    requires
        forall|k: int| 0 <= k < t.len() ==> t[k] != '&' && t[k] != '<' && t[k] != '>' && t[k] != '"',
    ensures
        escape_attr(t) == t,
    decreases t.len(),
{
    if t.len() > 0 {
        lemma_escape_attr_plain(t.drop_last());
        assert(t.drop_last() + seq![t.last()] =~= t);
    }
}

/// Surface ids are told apart by their escaped id texts.
proof fn lemma_id_text_injective(a: Seq<u8>, b: Seq<u8>)
    requires
        escape_attr(crate::session::surface_id_text(a)) == escape_attr(crate::session::surface_id_text(b)),
    ensures
        a == b,
{
    reveal_strlit("sha256:");
    lemma_id_text_plain(a);
    lemma_id_text_plain(b);
    let ta = crate::session::surface_id_text(a);
    let tb = crate::session::surface_id_text(b);
    assert(ta.skip(7) =~= crate::digest::hex_lower(a));
    assert(tb.skip(7) =~= crate::digest::hex_lower(b));
    crate::digest::lemma_hex_text_decodes(a);
    crate::digest::lemma_hex_text_decodes(b);
}

proof fn lemma_id_text_plain(id: Seq<u8>)
    ensures
        escape_attr(crate::session::surface_id_text(id)) == crate::session::surface_id_text(id),
{
    reveal_strlit("sha256:");
    let h = crate::digest::hex_lower(id);
    crate::digest::lemma_hex_lower_index(id);
    let t = crate::session::surface_id_text(id);
    assert forall|k: int| 0 <= k < t.len() implies t[k] != '&' && t[k] != '<' && t[k] != '>' && t[k]
        != '"' by {
        if k >= 7 {
            let j = k - 7;
            let i = j / 2;
            assert(t[k] == h[j]);
            if j % 2 == 0 {
                assert(j == 2 * i);
                assert(h[2 * i] == crate::digest::hex_digit((id[i] / 16) as nat));
            } else {
                assert(j == 2 * i + 1);
                assert(h[2 * i] == crate::digest::hex_digit((id[i] / 16) as nat));
                assert(h[2 * i + 1] == crate::digest::hex_digit((id[i] % 16) as nat));
            }
        }
    }
    lemma_escape_attr_plain(t);
}

/// Equal canonical forms list the same surface ids in the same order.
pub proof fn lemma_canonical_determines_ids(a: ImageModel, b: ImageModel)
    requires
        canonical_bytes_spec(a) == canonical_bytes_spec(b),
    ensures
        a.surfaces.len() == b.surfaces.len(),
        forall|k: int| 0 <= k < a.surfaces.len() ==> (#[trigger] a.surfaces[k]).id == b.surfaces[k].id,
{
    vstd::utf8::encode_utf8_decode_utf8(canonical_doc(a));
    vstd::utf8::encode_utf8_decode_utf8(canonical_doc(b));
    assert(canonical_doc(a) == canonical_doc(b));
    lemma_canonical_id_texts(a);
    lemma_canonical_id_texts(b);
    assert(id_texts(a.surfaces) == id_texts(b.surfaces));
    assert(a.surfaces.len() == id_texts(a.surfaces).len());
    assert forall|k: int| 0 <= k < a.surfaces.len() implies (#[trigger] a.surfaces[k]).id
        == b.surfaces[k].id by {
        assert(id_texts(a.surfaces)[k] == id_texts(b.surfaces)[k]);
        lemma_id_text_injective(a.surfaces[k].id, b.surfaces[k].id);
    }
}

/// A text without `"`.
pub open spec fn quote_free(s: Seq<char>) -> bool {
    forall|k: int| 0 <= k < s.len() ==> s[k] != '"'
}

/// The canonical form of a layout determines it, for scroll positions
/// without `"`.
proof fn lemma_layout_injective(a: crate::session::LayoutModel, b: crate::session::LayoutModel)
    requires
        quote_free(a.scroll_pos),
        quote_free(b.scroll_pos),
        crate::session::layout_xml(a, false) == crate::session::layout_xml(b, false),
    ensures
        a == b,
{
    reveal_strlit("<layout>");
    reveal_strlit("<strip scroll-pos=\"");
    reveal_strlit("\"/>");
    reveal_strlit("</layout>");
    reveal_strlit("<focus surface-ref=\"");
    let head = "<layout>"@ + "<strip scroll-pos=\""@;
    assert(head.len() == 27);
    let x = crate::session::layout_xml(a, false);
    let fa = crate::session::focus_xml(a.focus, false);
    let fb = crate::session::focus_xml(b.focus, false);
    let ya = a.scroll_pos + ("\"/>"@ + (fa + "</layout>"@));
    let yb = b.scroll_pos + ("\"/>"@ + (fb + "</layout>"@));
    assert(x =~= head + ya);
    assert(crate::session::layout_xml(b, false) =~= head + yb);
    assert(ya =~= x.skip(27));
    assert(yb =~= x.skip(27));
    assert(ya[a.scroll_pos.len() as int] == '"');
    assert(yb[b.scroll_pos.len() as int] == '"');
    assert forall|k: int| 0 <= k < a.scroll_pos.len() implies ya[k] != '"' by {
        assert(ya[k] == a.scroll_pos[k]);
    }
    assert forall|k: int| 0 <= k < b.scroll_pos.len() implies yb[k] != '"' by {
        assert(yb[k] == b.scroll_pos[k]);
    }
    lemma_next_quote_at(ya, 0, a.scroll_pos.len() as int);
    lemma_next_quote_at(yb, 0, b.scroll_pos.len() as int);
    assert(a.scroll_pos.len() == b.scroll_pos.len());
    assert(a.scroll_pos =~= ya.take(a.scroll_pos.len() as int));
    assert(b.scroll_pos =~= yb.take(b.scroll_pos.len() as int));
    let n = a.scroll_pos.len() as int;
    let za = fa + "</layout>"@;
    let zb = fb + "</layout>"@;
    assert(za =~= ya.skip(n + 3));
    assert(zb =~= yb.skip(n + 3));
    match (a.focus, b.focus) {
        (None, None) => {},
        (Some(i), None) => {
            assert(za[1] == 'f');
            assert(zb[1] == '/');
        },
        (None, Some(i)) => {
            assert(za[1] == '/');
            assert(zb[1] == 'f');
        },
        (Some(i), Some(j)) => {
            let ea = escape_attr(crate::session::surface_id_text(i));
            let eb = escape_attr(crate::session::surface_id_text(j));
            lemma_escape_attr_free(crate::session::surface_id_text(i));
            lemma_escape_attr_free(crate::session::surface_id_text(j));
            let wa = ea + ("\"/>"@ + "</layout>"@);
            let wb = eb + ("\"/>"@ + "</layout>"@);
            assert(za =~= "<focus surface-ref=\""@ + wa);
            assert(zb =~= "<focus surface-ref=\""@ + wb);
            assert(wa =~= za.skip(20));
            assert(wb =~= zb.skip(20));
            assert(wa[ea.len() as int] == '"');
            assert(wb[eb.len() as int] == '"');
            assert forall|k: int| 0 <= k < ea.len() implies wa[k] != '"' by {
                assert(wa[k] == ea[k]);
            }
            assert forall|k: int| 0 <= k < eb.len() implies wb[k] != '"' by {
                assert(wb[k] == eb[k]);
            }
            lemma_next_quote_at(wa, 0, ea.len() as int);
            lemma_next_quote_at(wb, 0, eb.len() as int);
            assert(ea =~= wa.take(ea.len() as int));
            assert(eb =~= wb.take(eb.len() as int));
            lemma_id_text_injective(i, j);
        },
    }
}

/// The canonical form records the layout: two images that differ only in
/// their layout (scroll positions without `"`) have different canonical
/// bytes, so their content ids are hashes of different texts.
pub proof fn law_canonical_records_layout(m: ImageModel, l: crate::session::LayoutModel)
    requires
        quote_free(m.layout.scroll_pos),
        quote_free(l.scroll_pos),
        l != m.layout,
    ensures
        canonical_bytes_spec(m) != canonical_bytes_spec(ImageModel { layout: l, ..m }),
{
    let m2 = ImageModel { layout: l, ..m };
    if canonical_bytes_spec(m) == canonical_bytes_spec(m2) {
        vstd::utf8::encode_utf8_decode_utf8(canonical_doc(m));
        vstd::utf8::encode_utf8_decode_utf8(canonical_doc(m2));
        let p = crate::session::session_open_tag(m, None) + "<surfaces>"@ + crate::session::surfaces_xml(
            m.surfaces,
            false,
        ) + "</surfaces>"@;
        let la = crate::session::layout_xml(m.layout, false);
        let lb = crate::session::layout_xml(l, false);
        assert(canonical_doc(m) =~= p + (la + "</session>"@));
        assert(crate::session::session_open_tag(m2, None) == crate::session::session_open_tag(m, None));
        assert(canonical_doc(m2) =~= p + (lb + "</session>"@));
        assert(la + "</session>"@ =~= canonical_doc(m).skip(p.len() as int));
        assert(lb + "</session>"@ =~= canonical_doc(m2).skip(p.len() as int));
        assert(la.len() == lb.len());
        assert(la =~= (la + "</session>"@).take(la.len() as int));
        assert(lb =~= (lb + "</session>"@).take(lb.len() as int));
        lemma_layout_injective(m.layout, l);
    }
}

} // verus!
