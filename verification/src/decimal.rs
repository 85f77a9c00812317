//! Floating-point literals as text: their syntax, whitespace trimming, and
//! their order by the numbers they denote.
//!
//! A finite delay bound is held as the literal it was written as (a sign, a
//! decimal mantissa with an optional point, an optional exponent, or an
//! infinity). This module orders such texts by value.
use vstd::prelude::*;
use crate::text::{all_digits, digits_value, is_digit};

verus! {

/// `10^k`.
pub open spec fn pow10(k: nat) -> nat
    decreases k,
{
    if k == 0 {
        1
    } else {
        10 * pow10((k - 1) as nat)
    }
}

/// The position of the first `.` in `u`, or its length if there is none.
pub open spec fn dot_pos(u: Seq<char>) -> nat
    decreases u.len(),
{
    if u.len() == 0 {
        0
    } else if u[0] == '.' {
        0
    } else {
        1 + dot_pos(u.drop_first())
    }
}

// ---------------------------------------------------------------------------
// Facts about digit strings

pub proof fn lemma_pow10_pos(k: nat)
    ensures
        pow10(k) >= 1,
    decreases k,
{
    if k > 0 {
        lemma_pow10_pos((k - 1) as nat);
    }
}

pub proof fn lemma_digits_value_bound(s: Seq<char>)
    requires
        all_digits(s),
    ensures
        digits_value(s) < pow10(s.len()),
    decreases s.len(),
{
    if s.len() > 0 {
        let p = s.drop_last();
        assert(all_digits(p)) by {
            assert forall|i: int| 0 <= i < p.len() implies is_digit(#[trigger] p[i]) by {
                assert(p[i] == s[i]);
            }
        }
        lemma_digits_value_bound(p);
        assert(is_digit(s[s.len() - 1]));
        let d = ((s.last() as u32) - 48) as nat;
        assert(d < 10);
        assert(digits_value(p) + 1 <= pow10(p.len()));
        assert(digits_value(s) == digits_value(p) * 10 + d);
        assert((digits_value(p) + 1) * 10 <= pow10(p.len()) * 10) by (nonlinear_arith)
            requires
                digits_value(p) + 1 <= pow10(p.len()),
        ;
    }
}

pub proof fn lemma_digits_value_concat(s: Seq<char>, t: Seq<char>)
    ensures
        digits_value(s + t) == digits_value(s) * pow10(t.len()) + digits_value(t),
    decreases t.len(),
{
    if t.len() == 0 {
        assert(s + t =~= s);
        assert(pow10(0) == 1);
        assert(digits_value(t) == 0);
        assert(digits_value(s) * 1 == digits_value(s));
    } else {
        let t2 = t.drop_last();
        lemma_digits_value_concat(s, t2);
        assert((s + t).drop_last() =~= s + t2);
        assert((s + t).last() == t.last());
        let d = ((t.last() as u32) - 48) as nat;
        let a = digits_value(s);
        let p = pow10(t2.len());
        let b = digits_value(t2);
        assert(digits_value(s + t2) == a * p + b);
        assert(digits_value(s + t) == digits_value(s + t2) * 10 + d);
        assert(digits_value(t) == b * 10 + d);
        assert(pow10(t.len()) == 10 * p);
        assert((a * p + b) * 10 + d == a * (10 * p) + (b * 10 + d)) by (nonlinear_arith);
        assert(digits_value(s + t) == a * pow10(t.len()) + digits_value(t));
    }
}

pub proof fn lemma_all_digits_concat(s: Seq<char>, t: Seq<char>)
    requires
        all_digits(s),
        all_digits(t),
    ensures
        all_digits(s + t),
{
    assert forall|i: int| 0 <= i < (s + t).len() implies is_digit(#[trigger] (s + t)[i]) by {
        if i < s.len() {
            assert((s + t)[i] == s[i]);
        } else {
            assert((s + t)[i] == t[i - s.len()]);
        }
    }
}

/// `n` zero digits.
pub open spec fn zeros(n: nat) -> Seq<char> {
    Seq::new(n, |i: int| '0')
}

pub proof fn lemma_zeros_value(n: nat)
    ensures
        digits_value(zeros(n)) == 0,
        all_digits(zeros(n)),
    decreases n,
{
    if n > 0 {
        assert(zeros(n).drop_last() =~= zeros((n - 1) as nat));
        lemma_zeros_value((n - 1) as nat);
    }
}

/// A digit string without leading zeros that is not empty is at least
/// `10^(len-1)`.
pub proof fn lemma_leading_digit_bound(s: Seq<char>)
    requires
        all_digits(s),
        s.len() > 0,
        (s[0] as u32) != 48,
    ensures
        digits_value(s) >= pow10((s.len() - 1) as nat),
{
    let h = s.take(1);
    let r = s.skip(1);
    assert(s =~= h + r);
    lemma_digits_value_concat(h, r);
    assert(h.drop_last() =~= Seq::<char>::empty());
    assert(h.last() == s[0]);
    assert(h.len() == 1);
    assert(digits_value(h.drop_last()) == 0);
    assert(digits_value(h) == digits_value(h.drop_last()) * 10 + ((h.last() as u32) - 48) as nat);
    assert(is_digit(s[0]));
    assert(digits_value(h) >= 1);
    lemma_pow10_pos(r.len());
    assert(digits_value(h) * pow10(r.len()) >= pow10(r.len())) by (nonlinear_arith)
        requires
            digits_value(h) >= 1,
    ;
}

/// Equal-length digit strings that agree before position `i` and differ at
/// `i` compare as their digits at `i` do.
pub proof fn lemma_lex_less(s: Seq<char>, t: Seq<char>, i: int)
    requires
        all_digits(s),
        all_digits(t),
        s.len() == t.len(),
        0 <= i < s.len(),
        s.take(i) == t.take(i),
        (s[i] as u32) < (t[i] as u32),
    ensures
        digits_value(s) < digits_value(t),
{
    let p = s.take(i);
    let rs = s.skip(i + 1);
    let rt = t.skip(i + 1);
    assert(s =~= (p + seq![s[i]]) + rs);
    assert(t =~= (p + seq![t[i]]) + rt);
    lemma_digits_value_concat(p + seq![s[i]], rs);
    lemma_digits_value_concat(p + seq![t[i]], rt);
    assert((p + seq![s[i]]).drop_last() =~= p);
    assert((p + seq![t[i]]).drop_last() =~= p);
    assert(all_digits(rs)) by {
        assert forall|j: int| 0 <= j < rs.len() implies is_digit(#[trigger] rs[j]) by {
            assert(rs[j] == s[i + 1 + j]);
        }
    }
    lemma_digits_value_bound(rs);
    assert(is_digit(s[i]));
    assert(is_digit(t[i]));
    let a = digits_value(p + seq![s[i]]);
    let b = digits_value(p + seq![t[i]]);
    assert(a < b);
    let k = pow10(rs.len());
    assert(rs.len() == rt.len());
    assert(a * k + digits_value(rs) < b * k) by (nonlinear_arith)
        requires
            a < b,
            digits_value(rs) < k,
    ;
}

// ---------------------------------------------------------------------------
// Executable comparison

/// The position of the first digit that is not `0` (or the length).
fn skip_zeros(x: &[char]) -> (i: usize)
    ensures
        i <= x@.len(),
        forall|j: int| 0 <= j < i ==> (x@[j] as u32) == 48,
        i < x@.len() ==> (x@[i as int] as u32) != 48,
{
    let mut i: usize = 0;
    while i < x.len() && (x[i] as u32) == 48
        invariant
            i <= x@.len(),
            forall|j: int| 0 <= j < i ==> (x@[j] as u32) == 48,
        decreases x@.len() - i,
    {
        i = i + 1;
    }
    i
}

proof fn lemma_strip_zeros(x: Seq<char>, i: int)
    requires
        all_digits(x),
        0 <= i <= x.len(),
        forall|j: int| 0 <= j < i ==> (x[j] as u32) == 48,
    ensures
        digits_value(x) == digits_value(x.skip(i)),
        all_digits(x.skip(i)),
{
    assert forall|j: int| 0 <= j < i implies x[j] == '0' by {
        crate::text::lemma_char_code_eq(x[j], '0');
    }
    assert(x =~= zeros(i as nat) + x.skip(i));
    lemma_digits_value_concat(zeros(i as nat), x.skip(i));
    lemma_zeros_value(i as nat);
    assert forall|j: int| 0 <= j < x.skip(i).len() implies is_digit(#[trigger] x.skip(i)[j]) by {
        assert(x.skip(i)[j] == x[i + j]);
    }
}

/// Compares the values of two digit strings: `-1`, `0` or `1`.
pub fn digits_order(x: &[char], y: &[char]) -> (r: i8)
    requires
        all_digits(x@),
        all_digits(y@),
    ensures
        r == -1 <==> digits_value(x@) < digits_value(y@),
        r == 0 <==> digits_value(x@) == digits_value(y@),
        r == 1 <==> digits_value(x@) > digits_value(y@),
{
    let i = skip_zeros(x);
    let j = skip_zeros(y);
    proof {
        lemma_strip_zeros(x@, i as int);
        lemma_strip_zeros(y@, j as int);
    }
    let ghost xs = x@.skip(i as int);
    let ghost ys = y@.skip(j as int);
    let lx = x.len() - i;
    let ly = y.len() - j;
    if lx < ly {
        proof {
            lemma_digits_value_bound(xs);
            assert(ys[0] == y@[j as int]);
            lemma_leading_digit_bound(ys);
            lemma_pow10_mono(xs.len(), (ys.len() - 1) as nat);
        }
        return -1;
    }
    if lx > ly {
        proof {
            lemma_digits_value_bound(ys);
            assert(xs[0] == x@[i as int]);
            lemma_leading_digit_bound(xs);
            lemma_pow10_mono(ys.len(), (xs.len() - 1) as nat);
        }
        return 1;
    }
    let mut k: usize = 0;
    while k < lx
        invariant
            lx == ly,
            i + lx == x@.len(),
            j + ly == y@.len(),
            i + lx == x.len(),
            j + ly == y.len(),
            xs == x@.skip(i as int),
            ys == y@.skip(j as int),
            digits_value(x@) == digits_value(xs),
            digits_value(y@) == digits_value(ys),
            xs.len() == lx,
            ys.len() == ly,
            all_digits(xs),
            all_digits(ys),
            k <= lx,
            xs.take(k as int) == ys.take(k as int),
        decreases lx - k,
    {
        assert(i + k < x@.len());
        assert(j + k < y@.len());
        let a = x[i + k];
        let b = y[j + k];
        proof {
            assert(xs[k as int] == a);
            assert(ys[k as int] == b);
        }
        if (a as u32) < (b as u32) {
            proof {
                lemma_lex_less(xs, ys, k as int);
            }
            return -1;
        }
        if (a as u32) > (b as u32) {
            proof {
                lemma_lex_less(ys, xs, k as int);
            }
            return 1;
        }
        k = k + 1;
        proof {
            crate::text::lemma_char_code_eq(a, b);
            assert(xs.take(k as int) =~= xs.take(k - 1).push(a));
            assert(ys.take(k as int) =~= ys.take(k - 1).push(b));
        }
    }
    proof {
        assert(xs =~= xs.take(lx as int));
        assert(ys =~= ys.take(lx as int));
    }
    0
}

pub proof fn lemma_pow10_mono(a: nat, b: nat)
    requires
        a <= b,
    ensures
        pow10(a) <= pow10(b),
    decreases b,
{
    if a < b {
        lemma_pow10_mono(a, (b - 1) as nat);
        lemma_pow10_pos((b - 1) as nat);
    }
}

proof fn lemma_dot_pos(u: Seq<char>)
    ensures
        dot_pos(u) <= u.len(),
        forall|j: int| 0 <= j < dot_pos(u) ==> u[j] != '.',
        dot_pos(u) < u.len() ==> u[dot_pos(u) as int] == '.',
    decreases u.len(),
{
    if u.len() > 0 && u[0] != '.' {
        lemma_dot_pos(u.drop_first());
        assert forall|j: int| 0 <= j < dot_pos(u) implies u[j] != '.' by {
            if j > 0 {
                assert(u[j] == u.drop_first()[j - 1]);
            }
        }
    }
}

/// `digits ++ 0^pad`.
fn padded(a: &[char], b: &[char], pad: usize) -> (out: Vec<char>)
    ensures
        out@ == a@ + b@ + zeros(pad as nat),
{
    let mut out: Vec<char> = Vec::new();
    let mut i: usize = 0;
    while i < a.len()
        invariant
            i <= a@.len(),
            out@ == a@.take(i as int),
        decreases a@.len() - i,
    {
        out.push(a[i]);
        i = i + 1;
        proof {
            assert(a@.take(i as int) =~= a@.take(i - 1).push(a@[i - 1]));
        }
    }
    let mut i: usize = 0;
    while i < b.len()
        invariant
            i <= b@.len(),
            out@ == a@ + b@.take(i as int),
        decreases b@.len() - i,
    {
        out.push(b[i]);
        i = i + 1;
        proof {
            assert(b@.take(i as int) =~= b@.take(i - 1).push(b@[i - 1]));
        }
    }
    let mut i: usize = 0;
    while i < pad
        invariant
            i <= pad,
            out@ == a@ + b@ + zeros(i as nat),
        decreases pad - i,
    {
        out.push('0');
        i = i + 1;
        proof {
            assert(zeros(i as nat) =~= zeros((i - 1) as nat).push('0'));
        }
    }
    proof {
        assert(a@.take(a@.len() as int) =~= a@);
        assert(b@.take(b@.len() as int) =~= b@);
    }
    out
}

} // verus!

verus! {

// ---------------------------------------------------------------------------
// The syntax of floating-point literals and whitespace trimming

/// Whether `c` has the Unicode `White_Space` property (`char::is_whitespace`).
pub open spec fn is_whitespace(c: char) -> bool {
    let v = c as u32;
    (9 <= v <= 13) || v == 32 || v == 133 || v == 160 || v == 5760 || (8192 <= v <= 8202) || v
        == 8232 || v == 8233 || v == 8239 || v == 8287 || v == 12288
}

/// `s` without its leading whitespace.
pub open spec fn trim_front(s: Seq<char>) -> Seq<char>
    decreases s.len(),
{
    if s.len() > 0 && is_whitespace(s[0]) {
        trim_front(s.drop_first())
    } else {
        s
    }
}

/// `s` without its trailing whitespace.
pub open spec fn trim_back(s: Seq<char>) -> Seq<char>
    decreases s.len(),
{
    if s.len() > 0 && is_whitespace(s.last()) {
        trim_back(s.drop_last())
    } else {
        s
    }
}

/// `str::trim`: `s` without leading and trailing whitespace.
pub open spec fn trimmed(s: Seq<char>) -> Seq<char> {
    trim_back(trim_front(s))
}

proof fn lemma_trim_front_start(s: Seq<char>)
    ensures
        trim_front(s).len() > 0 ==> !is_whitespace(trim_front(s)[0]),
    decreases s.len(),
{
    if s.len() > 0 && is_whitespace(s[0]) {
        lemma_trim_front_start(s.drop_first());
    }
}

proof fn lemma_trim_back_shape(s: Seq<char>)
    ensures
        trim_back(s) == s.take(trim_back(s).len() as int),
        trim_back(s).len() <= s.len(),
        trim_back(s).len() > 0 ==> !is_whitespace(trim_back(s).last()),
    decreases s.len(),
{
    if s.len() > 0 && is_whitespace(s.last()) {
        lemma_trim_back_shape(s.drop_last());
        assert(s.drop_last().take(trim_back(s).len() as int) =~= s.take(trim_back(s).len() as int));
    } else {
        assert(s.take(s.len() as int) =~= s);
    }
}

/// Trimming what is trimmed changes nothing.
pub proof fn lemma_trimmed_idempotent(s: Seq<char>)
    ensures
        trimmed(trimmed(s)) == trimmed(s),
{
    let u = trim_front(s);
    let v = trim_back(u);
    lemma_trim_front_start(s);
    lemma_trim_back_shape(u);
    if v.len() > 0 {
        assert(v[0] == u[0]);
        assert(trim_front(v) == v);
        assert(trim_back(v) == v);
    } else {
        assert(trim_front(v) == v);
        assert(trim_back(v) == v);
    }
}

pub(crate) fn is_whitespace_char(c: char) -> (r: bool)
    ensures
        r == is_whitespace(c),
{
    let v = c as u32;
    (9 <= v && v <= 13) || v == 32 || v == 133 || v == 160 || v == 5760 || (8192 <= v && v <= 8202)
        || v == 8232 || v == 8233 || v == 8239 || v == 8287 || v == 12288
}

proof fn lemma_trim_front_skip(s: Seq<char>, i: int)
    requires
        0 <= i <= s.len(),
        forall|j: int| 0 <= j < i ==> is_whitespace(#[trigger] s[j]),
    ensures
        trim_front(s) == trim_front(s.skip(i)),
    decreases i,
{
    if i > 0 {
        assert(s.drop_first().skip(i - 1) =~= s.skip(i));
        assert forall|j: int| 0 <= j < i - 1 implies is_whitespace(#[trigger] s.drop_first()[j]) by {
            assert(s.drop_first()[j] == s[j + 1]);
        }
        lemma_trim_front_skip(s.drop_first(), i - 1);
    } else {
        assert(s.skip(0) =~= s);
    }
}

proof fn lemma_trim_back_take(s: Seq<char>, i: int)
    requires
        0 <= i <= s.len(),
        forall|j: int| i <= j < s.len() ==> is_whitespace(#[trigger] s[j]),
    ensures
        trim_back(s) == trim_back(s.take(i)),
    decreases s.len() - i,
{
    if i < s.len() {
        assert(s.drop_last().take(i) =~= s.take(i));
        assert forall|j: int| i <= j < s.drop_last().len() implies is_whitespace(#[trigger] s.drop_last()[j]) by {
            assert(s.drop_last()[j] == s[j]);
        }
        lemma_trim_back_take(s.drop_last(), i);
    } else {
        assert(s.take(i) =~= s);
    }
}

/// The characters of `s` without leading and trailing whitespace.
pub fn trim_chars(s: &[char]) -> (out: Vec<char>)
    ensures
        out@ == trimmed(s@),
{
    let n = s.len();
    let mut a: usize = 0;
    while a < n && is_whitespace_char(s[a])
        invariant
            a <= n,
            n == s@.len(),
            forall|j: int| 0 <= j < a ==> is_whitespace(#[trigger] s@[j]),
        decreases n - a,
    {
        a = a + 1;
    }
    proof {
        lemma_trim_front_skip(s@, a as int);
        if a < n {
            assert(!is_whitespace(s@.skip(a as int)[0]));
        }
    }
    let mut b: usize = n;
    while b > a && is_whitespace_char(s[b - 1])
        invariant
            a <= b <= n,
            n == s@.len(),
            forall|j: int| b <= j < n ==> is_whitespace(#[trigger] s@[j]),
        decreases b,
    {
        b = b - 1;
    }
    let out = crate::text::chars_range(s, a, b);
    proof {
        let f = s@.skip(a as int);
        assert(trim_front(s@) == f);
        assert forall|j: int| b - a <= j < f.len() implies is_whitespace(#[trigger] f[j]) by {
            assert(f[j] == s@[a + j]);
        }
        lemma_trim_back_take(f, b - a);
        assert(f.take(b - a) =~= out@);
        if b > a {
            assert(!is_whitespace(f.take(b - a).last()));
        } else {
            assert(f.take(b - a).len() == 0);
        }
    }
    out
}

/// `t` without one leading `+` or `-`.
pub open spec fn strip_sign(t: Seq<char>) -> Seq<char> {
    if t.len() > 0 && (t[0] == '+' || t[0] == '-') {
        t.drop_first()
    } else {
        t
    }
}

/// The position of the first `e` or `E` in `u`, or its length.
pub open spec fn exp_pos(u: Seq<char>) -> nat
    decreases u.len(),
{
    if u.len() == 0 {
        0
    } else if u[0] == 'e' || u[0] == 'E' {
        0
    } else {
        1 + exp_pos(u.drop_first())
    }
}

/// `Number ::= ( Digit+ | Digit+ '.' Digit* | Digit* '.' Digit+ ) Exp?`,
/// `Exp ::= ('e' | 'E') Sign? Digit+`.
pub open spec fn is_float_number(u: Seq<char>) -> bool {
    let e = exp_pos(u) as int;
    let m = u.take(e);
    let d = dot_pos(m) as int;
    let ip = m.take(d);
    let fp = if d < m.len() {
        m.skip(d + 1)
    } else {
        Seq::empty()
    };
    &&& all_digits(ip)
    &&& all_digits(fp)
    &&& ip.len() + fp.len() > 0
    &&& (e < u.len() ==> {
        let x = strip_sign(u.skip(e + 1));
        x.len() > 0 && all_digits(x)
    })
}

/// Whether `t` is a floating-point literal that `str::parse::<f32>` and
/// `str::parse::<f64>` accept: a sign, then `inf`, `infinity`, `nan` (in any
/// case) or a decimal number with an optional exponent.
pub open spec fn is_float_syntax(t: Seq<char>) -> bool {
    let u = strip_sign(t);
    let l = crate::text::ascii_lowercase(u);
    l == "inf"@ || l == "infinity"@ || l == "nan"@ || is_float_number(u)
}

/// Whether `t` is a literal for a NaN.
pub open spec fn is_nan_syntax(t: Seq<char>) -> bool {
    crate::text::ascii_lowercase(strip_sign(t)) == "nan"@
}

proof fn lemma_exp_pos(u: Seq<char>)
    ensures
        exp_pos(u) <= u.len(),
        forall|j: int| 0 <= j < exp_pos(u) ==> u[j] != 'e' && u[j] != 'E',
        exp_pos(u) < u.len() ==> (u[exp_pos(u) as int] == 'e' || u[exp_pos(u) as int] == 'E'),
    decreases u.len(),
{
    if u.len() > 0 && !(u[0] == 'e' || u[0] == 'E') {
        lemma_exp_pos(u.drop_first());
        assert forall|j: int| 0 <= j < exp_pos(u) implies u[j] != 'e' && u[j] != 'E' by {
            if j > 0 {
                assert(u[j] == u.drop_first()[j - 1]);
            }
        }
    }
}

fn first_index_of2(u: &[char], a: char, b: char) -> (r: usize)
    ensures
        r <= u@.len(),
        forall|j: int| 0 <= j < r ==> u@[j] != a && u@[j] != b,
        r < u@.len() ==> (u@[r as int] == a || u@[r as int] == b),
{
    let mut i: usize = 0;
    while i < u.len() && u[i] != a && u[i] != b
        invariant
            i <= u@.len(),
            forall|j: int| 0 <= j < i ==> u@[j] != a && u@[j] != b,
        decreases u@.len() - i,
    {
        i = i + 1;
    }
    i
}

fn all_digits_exec(x: &[char]) -> (r: bool)
    ensures
        r == all_digits(x@),
{
    let mut i: usize = 0;
    while i < x.len()
        invariant
            i <= x@.len(),
            forall|j: int| 0 <= j < i ==> is_digit(#[trigger] x@[j]),
        decreases x@.len() - i,
    {
        let c = x[i] as u32;
        if !(48 <= c && c <= 57) {
            return false;
        }
        i = i + 1;
    }
    true
}

fn strip_sign_chars(t: &[char]) -> (out: Vec<char>)
    ensures
        out@ == strip_sign(t@),
{
    if t.len() > 0 && (t[0] == '+' || t[0] == '-') {
        let out = crate::text::chars_range(t, 1, t.len());
        proof {
            assert(out@ =~= t@.drop_first());
        }
        out
    } else {
        crate::text::chars_range(t, 0, t.len())
    }
}

fn is_float_number_chars(u: &[char]) -> (r: bool)
    ensures
        r == is_float_number(u@),
{
    let e = first_index_of2(u, 'e', 'E');
    proof {
        lemma_exp_pos(u@);
        let q = exp_pos(u@) as int;
        if q < e {
            assert(u@[q] != 'e' && u@[q] != 'E');
        }
        if q > e {
            assert(u@[e as int] != 'e' && u@[e as int] != 'E');
        }
    }
    let m = crate::text::chars_range(u, 0, e);
    let d = first_index_of2(m.as_slice(), '.', '.');
    proof {
        assert(m@ =~= u@.take(e as int));
        lemma_dot_pos(m@);
        let q = dot_pos(m@) as int;
        if q < d {
            assert(m@[q] != '.');
        }
        if q > d {
            assert(m@[d as int] != '.');
        }
    }
    let ip = crate::text::chars_range(m.as_slice(), 0, d);
    let fp = if d < m.len() {
        crate::text::chars_range(m.as_slice(), d + 1, m.len())
    } else {
        Vec::new()
    };
    proof {
        assert(ip@ =~= m@.take(d as int));
        if d < m.len() {
            assert(fp@ =~= m@.skip(d + 1));
        } else {
            assert(fp@ =~= Seq::<char>::empty());
        }
    }
    if !(all_digits_exec(ip.as_slice()) && all_digits_exec(fp.as_slice()) && ip.len() + fp.len() > 0) {
        return false;
    }
    if e < u.len() {
        let rest = crate::text::chars_range(u, e + 1, u.len());
        let x = strip_sign_chars(rest.as_slice());
        proof {
            assert(rest@ =~= u@.skip(e + 1));
        }
        x.len() > 0 && all_digits_exec(x.as_slice())
    } else {
        true
    }
}

fn lower_is(l: &[char], word: &str) -> (r: bool)
    ensures
        r == (l@ == word@),
{
    let w = crate::text::chars_of(word);
    crate::text::chars_eq(l, w.as_slice())
}

/// Whether `t` is a floating-point literal (see [`is_float_syntax`]).
pub fn float_syntax_chars(t: &[char]) -> (r: bool)
    ensures
        r == is_float_syntax(t@),
{
    let u = strip_sign_chars(t);
    let s = crate::text::string_from_chars(u.as_slice());
    let l = crate::text::to_ascii_lowercase(s.as_str());
    lower_is(l.as_slice(), "inf") || lower_is(l.as_slice(), "infinity") || lower_is(
        l.as_slice(),
        "nan",
    ) || is_float_number_chars(u.as_slice())
}

/// Whether `t` is a literal for a NaN (see [`is_nan_syntax`]).
pub fn nan_syntax_chars(t: &[char]) -> (r: bool)
    ensures
        r == is_nan_syntax(t@),
{
    let u = strip_sign_chars(t);
    let s = crate::text::string_from_chars(u.as_slice());
    let l = crate::text::to_ascii_lowercase(s.as_str());
    lower_is(l.as_slice(), "nan")
}


// ---------------------------------------------------------------------------
// The numeric order of floating-point literals

/// The largest exponent magnitude that is read as written; a larger one is
/// read as this bound (far past the range of any 64-bit float).
pub const EXP_LIMIT: u128 = 1000000000000000000000000000000u128;

/// An exponent's magnitude, saturated at [`EXP_LIMIT`].
pub open spec fn sat_exp(v: nat) -> nat {
    if v > EXP_LIMIT {
        EXP_LIMIT as nat
    } else {
        v
    }
}

/// The value of an exponent's text (what follows the `e`): an optional sign
/// and digits, the magnitude saturated.
pub open spec fn exp_of(s: Seq<char>) -> int {
    let v = sat_exp(digits_value(strip_sign(s))) as int;
    if s.len() > 0 && s[0] == '-' {
        -v
    } else {
        v
    }
}

/// How a floating-point literal is read.
pub enum FloatClass {
    /// `-inf` or `-infinity`, in any case.
    NegInfinity,
    /// The number `±digits × 10^exp`.
    Number { negative: bool, digits: Seq<char>, exp: int },
    /// `inf` or `infinity`, in any case, with an optional `+`.
    PosInfinity,
    /// Not a literal, or a NaN.
    Unrecognised,
}

/// Reads a floating-point literal (see [`is_float_syntax`]): an infinity,
/// or a sign, the digits of its mantissa with the point dropped, and the
/// power of ten that scales them.
pub open spec fn float_class(t: Seq<char>) -> FloatClass {
    let negative = t.len() > 0 && t[0] == '-';
    let u = strip_sign(t);
    let l = crate::text::ascii_lowercase(u);
    if l == "inf"@ || l == "infinity"@ {
        if negative {
            FloatClass::NegInfinity
        } else {
            FloatClass::PosInfinity
        }
    } else if is_float_number(u) {
        let e = exp_pos(u) as int;
        let m = u.take(e);
        let d = dot_pos(m) as int;
        let ip = m.take(d);
        let fp = if d < m.len() {
            m.skip(d + 1)
        } else {
            Seq::empty()
        };
        let x = if e < u.len() {
            exp_of(u.skip(e + 1))
        } else {
            0
        };
        FloatClass::Number { negative, digits: ip + fp, exp: x - fp.len() }
    } else {
        FloatClass::Unrecognised
    }
}

/// `v` with a sign.
pub open spec fn signed_value(negative: bool, v: nat) -> int {
    if negative {
        -(v as int)
    } else {
        v as int
    }
}

/// `a ≤ b` for floating-point literals: numbers by their values, the
/// infinities below and above every number; a text that is no literal (or a
/// NaN) is related only to itself.
pub open spec fn float_le(a: Seq<char>, b: Seq<char>) -> bool {
    match (float_class(a), float_class(b)) {
        (FloatClass::Unrecognised, _) => a == b,
        (_, FloatClass::Unrecognised) => a == b,
        (FloatClass::NegInfinity, _) => true,
        (_, FloatClass::PosInfinity) => true,
        (FloatClass::PosInfinity, _) => false,
        (_, FloatClass::NegInfinity) => false,
        (
            FloatClass::Number { negative: na, digits: da, exp: ea },
            FloatClass::Number { negative: nb, digits: db, exp: eb },
        ) => {
            let m = if ea <= eb {
                ea
            } else {
                eb
            };
            signed_value(na, digits_value(da) * pow10((ea - m) as nat)) <= signed_value(
                nb,
                digits_value(db) * pow10((eb - m) as nat),
            )
        },
    }
}

/// Digits carry no sign.
proof fn lemma_digits_unsigned(d: Seq<char>)
    requires
        d.len() > 0,
        all_digits(d),
    ensures
        strip_sign(d) == d,
        d[0] != '-',
        d[0] != '+',
{
    assert(is_digit(d[0]));
    assert(('+' as u32) == 43 && ('-' as u32) == 45);
}

/// A sign before an exponent's digits: `-` negates the exponent and `+`
/// keeps it; unsigned digits give their value (saturated).
pub proof fn law_exponent_sign(d: Seq<char>)
    requires
        d.len() > 0,
        all_digits(d),
    ensures
        exp_of(d) == sat_exp(digits_value(d)) as int,
        exp_of(seq!['-'] + d) == -exp_of(d),
        exp_of(seq!['+'] + d) == exp_of(d),
{
    lemma_digits_unsigned(d);
    assert((seq!['-'] + d).drop_first() =~= d);
    assert((seq!['+'] + d).drop_first() =~= d);
}

/// A text of digits, read as a literal, is the number they denote, with
/// no power of ten.
proof fn lemma_digits_literal(u: Seq<char>, m: Seq<char>)
    requires
        m.len() > 0,
        all_digits(m),
        u.len() >= m.len(),
        u.take(m.len() as int) == m,
        u.len() > m.len() ==> u[m.len() as int] == 'e',
    ensures
        strip_sign(u) == u,
        !(u.len() > 0 && u[0] == '-'),
        crate::text::ascii_lowercase(u) != "inf"@,
        crate::text::ascii_lowercase(u) != "infinity"@,
        exp_pos(u) == m.len(),
        dot_pos(u.take(m.len() as int)) == m.len(),
{
    reveal_strlit("inf");
    reveal_strlit("infinity");
    assert(u[0] == m[0]);
    lemma_digits_unsigned(m);
    assert(is_digit(m[0]));
    let l = crate::text::ascii_lowercase(u);
    assert(l[0] == crate::text::ascii_lower(u[0]));
    assert(crate::text::ascii_lower(u[0]) == u[0]);
    assert(('i' as u32) == 105);
    assert(l[0] != 'i');
    lemma_exp_pos(u);
    let e = exp_pos(u) as int;
    assert forall|j: int| 0 <= j < m.len() implies u[j] != 'e' && u[j] != 'E' && u[j] != '.' by {
        assert(u[j] == m[j]);
        assert(is_digit(m[j]));
        assert(('e' as u32) == 101 && ('E' as u32) == 69 && ('.' as u32) == 46);
    }
    if e < m.len() {
        assert(u[e] != 'e' && u[e] != 'E');
    }
    if e > m.len() {
        assert(u[m.len() as int] == 'e');
    }
    lemma_dot_pos(m);
    if dot_pos(m) < m.len() {
        assert(m[dot_pos(m) as int] == u[dot_pos(m) as int]);
    }
}

/// An exponent scales the mantissa by a power of ten: for digits `m`
/// denoting a positive number and digits `k` denoting a positive exponent,
/// `m e-k` lies strictly below `m`, and `m e k` strictly above.
pub proof fn law_exponent_scales(m: Seq<char>, k: Seq<char>)
    requires
        m.len() > 0,
        all_digits(m),
        digits_value(m) > 0,
        k.len() > 0,
        all_digits(k),
        digits_value(k) > 0,
    ensures
        float_le(m + seq!['e', '-'] + k, m),
        !float_le(m, m + seq!['e', '-'] + k),
        float_le(m, m + seq!['e'] + k),
        !float_le(m + seq!['e'] + k, m),
{
    let down = m + seq!['e', '-'] + k;
    let up = m + seq!['e'] + k;
    assert(m.take(m.len() as int) =~= m);
    lemma_digits_literal(m, m);
    assert(down.take(m.len() as int) =~= m);
    assert(up.take(m.len() as int) =~= m);
    lemma_digits_literal(down, m);
    lemma_digits_literal(up, m);
    law_exponent_sign(k);
    lemma_digits_unsigned(k);
    assert(down.skip(m.len() as int + 1) =~= seq!['-'] + k);
    assert(up.skip(m.len() as int + 1) =~= k);
    assert(strip_sign(seq!['-'] + k) =~= k);
    assert(all_digits(m.take(m.len() as int)));
    assert(m.take(m.len() as int).take(m.len() as int) =~= m);
    assert(m + Seq::<char>::empty() =~= m);
    assert(is_float_number(m));
    assert(is_float_number(down));
    assert(is_float_number(up));
    let kk = sat_exp(digits_value(k)) as int;
    assert(kk >= 1);
    assert(float_class(m) == FloatClass::Number { negative: false, digits: m, exp: 0 });
    assert(float_class(down) == FloatClass::Number { negative: false, digits: m, exp: -kk });
    assert(float_class(up) == FloatClass::Number { negative: false, digits: m, exp: kk });
    let d = digits_value(m);
    let p = pow10(kk as nat);
    lemma_pow10_mono(1, kk as nat);
    assert(pow10(0) == 1);
    assert(pow10(1) == 10 * pow10(0));
    assert(d * p > d) by (nonlinear_arith)
        requires
            d > 0,
            p >= 10,
    ;
    assert(d * 1 == d);
}

/// A floating-point literal, read.
pub enum FloatClassified {
    NegInfinity,
    Number { negative: bool, digits: Vec<char>, exp: i128 },
    PosInfinity,
    Unrecognised,
}

/// Whether the executable reading `c` is the reading `d`.
pub open spec fn float_classified_matches(c: FloatClassified, d: FloatClass) -> bool {
    match (c, d) {
        (FloatClassified::NegInfinity, FloatClass::NegInfinity) => true,
        (FloatClassified::PosInfinity, FloatClass::PosInfinity) => true,
        (FloatClassified::Unrecognised, FloatClass::Unrecognised) => true,
        (
            FloatClassified::Number { negative: n1, digits: d1, exp: e1 },
            FloatClass::Number { negative: n2, digits: d2, exp: e2 },
        ) => n1 == n2 && d1@ == d2 && e1 == e2,
        _ => false,
    }
}

/// The value of an exponent's text whose sign-stripped part is all digits.
fn exp_of_chars(s: &[char]) -> (v: i128)
    requires
        all_digits(strip_sign(s@)),
    ensures
        v == exp_of(s@),
        -(EXP_LIMIT as int) <= v <= EXP_LIMIT,
{
    let x = strip_sign_chars(s);
    let mut v: u128 = 0;
    let mut i: usize = 0;
    proof {
        assert(x@.take(0) =~= Seq::<char>::empty());
    }
    while i < x.len()
        invariant
            i <= x@.len(),
            x@ == strip_sign(s@),
            all_digits(x@),
            v == sat_exp(digits_value(x@.take(i as int))),
        decreases x@.len() - i,
    {
        let c = x[i] as u32;
        proof {
            assert(is_digit(x@[i as int]));
            assert(x@.take(i + 1).drop_last() =~= x@.take(i as int));
            assert(x@.take(i + 1).last() == x@[i as int]);
        }
        let d = (c - 48) as u128;
        if v >= EXP_LIMIT {
            v = EXP_LIMIT;
        } else {
            let w = v * 10 + d;
            v = if w > EXP_LIMIT {
                EXP_LIMIT
            } else {
                w
            };
        }
        i = i + 1;
    }
    proof {
        assert(x@.take(x@.len() as int) =~= x@);
    }
    if s.len() > 0 && s[0] == '-' {
        -(v as i128)
    } else {
        v as i128
    }
}

/// Reads a floating-point literal (see [`float_class`]).
pub fn float_class_chars(t: &[char]) -> (c: FloatClassified)
    ensures
        float_classified_matches(c, float_class(t@)),
        c matches FloatClassified::Number { digits, exp, .. } ==> all_digits(digits@) && -(EXP_LIMIT
            as int) - t@.len() <= exp <= EXP_LIMIT,
{
    let negative = t.len() > 0 && t[0] == '-';
    let u = strip_sign_chars(t);
    let s = crate::text::string_from_chars(u.as_slice());
    let l = crate::text::to_ascii_lowercase(s.as_str());
    if lower_is(l.as_slice(), "inf") || lower_is(l.as_slice(), "infinity") {
        return if negative {
            FloatClassified::NegInfinity
        } else {
            FloatClassified::PosInfinity
        };
    }
    if !is_float_number_chars(u.as_slice()) {
        return FloatClassified::Unrecognised;
    }
    let e = first_index_of2(u.as_slice(), 'e', 'E');
    proof {
        lemma_exp_pos(u@);
        let q = exp_pos(u@) as int;
        if q < e {
            assert(u@[q] != 'e' && u@[q] != 'E');
        }
        if q > e {
            assert(u@[e as int] != 'e' && u@[e as int] != 'E');
        }
    }
    let m = crate::text::chars_range(u.as_slice(), 0, e);
    let d = first_index_of2(m.as_slice(), '.', '.');
    proof {
        assert(m@ =~= u@.take(e as int));
        lemma_dot_pos(m@);
        let q = dot_pos(m@) as int;
        if q < d {
            assert(m@[q] != '.');
        }
        if q > d {
            assert(m@[d as int] != '.');
        }
    }
    let ip = crate::text::chars_range(m.as_slice(), 0, d);
    let fp = if d < m.len() {
        crate::text::chars_range(m.as_slice(), d + 1, m.len())
    } else {
        Vec::new()
    };
    proof {
        assert(ip@ =~= m@.take(d as int));
        if d < m.len() {
            assert(fp@ =~= m@.skip(d + 1));
        } else {
            assert(fp@ =~= Seq::<char>::empty());
        }
    }
    let x: i128 = if e < u.len() {
        let rest = crate::text::chars_range(u.as_slice(), e + 1, u.len());
        proof {
            assert(rest@ =~= u@.skip(e + 1));
        }
        exp_of_chars(rest.as_slice())
    } else {
        0
    };
    let digits = padded(ip.as_slice(), fp.as_slice(), 0);
    proof {
        assert(zeros(0) =~= Seq::<char>::empty());
        assert(digits@ =~= ip@ + fp@);
        lemma_all_digits_concat(ip@, fp@);
        assert(fp@.len() <= t@.len());
    }
    FloatClassified::Number { negative, digits, exp: x - fp.len() as i128 }
}

/// Compares `digits_value(a) · 10^ea` with `digits_value(b) · 10^eb`,
/// scaled to the smaller exponent: `-1`, `0` or `1`.
fn magnitude_order(a: &[char], ea: i128, b: &[char], eb: i128) -> (r: i8)
    requires
        all_digits(a@),
        all_digits(b@),
        -0x1000_0000_0000_0000_0000_0000_0000_0000i128 <= ea <= 0x1000_0000_0000_0000_0000_0000_0000_0000i128,
        -0x1000_0000_0000_0000_0000_0000_0000_0000i128 <= eb <= 0x1000_0000_0000_0000_0000_0000_0000_0000i128,
    ensures
        ({
            let m = if ea <= eb {
                ea as int
            } else {
                eb as int
            };
            let va = digits_value(a@) * pow10((ea - m) as nat);
            let vb = digits_value(b@) * pow10((eb - m) as nat);
            &&& r == -1 <==> va < vb
            &&& r == 0 <==> va == vb
            &&& r == 1 <==> va > vb
        }),
{
    if ea <= eb {
        let pb = eb - ea;
        if pb > a.len() as i128 {
            let zb = digits_order(b, &[]);
            proof {
                assert(digits_value(Seq::<char>::empty()) == 0);
                let k = pb as nat;
                lemma_digits_value_bound(a@);
                lemma_pow10_mono(a@.len(), k);
                lemma_pow10_pos(0);
                assert(pow10((ea - ea) as nat) == 1);
                if digits_value(b@) > 0 {
                    assert(digits_value(b@) * pow10(k) >= pow10(k)) by (nonlinear_arith)
                        requires
                            digits_value(b@) > 0,
                    ;
                }
            }
            let ghost va = digits_value(a@) * pow10(0);
            let ghost vb = digits_value(b@) * pow10(pb as nat);
            proof {
                assert(va == digits_value(a@));
                if zb == 0 {
                    assert(vb == 0);
                } else {
                    assert(vb >= pow10(pb as nat));
                    assert(va < vb);
                }
            }
            if zb == 0 {
                digits_order(a, &[])
            } else {
                -1
            }
        } else {
            let xb = padded(b, &[], pb as usize);
            proof {
                assert(b@ + Seq::<char>::empty() =~= b@);
                lemma_zeros_value(pb as nat);
                lemma_all_digits_concat(b@, zeros(pb as nat));
                lemma_digits_value_concat(b@, zeros(pb as nat));
                assert(pow10((ea - ea) as nat) == 1);
                assert(digits_value(xb@) == digits_value(b@) * pow10(pb as nat));
                assert(digits_value(a@) * pow10(0) == digits_value(a@));
            }
            digits_order(a, xb.as_slice())
        }
    } else {
        let pa = ea - eb;
        if pa > b.len() as i128 {
            let za = digits_order(a, &[]);
            proof {
                assert(digits_value(Seq::<char>::empty()) == 0);
                let k = pa as nat;
                lemma_digits_value_bound(b@);
                lemma_pow10_mono(b@.len(), k);
                assert(pow10((eb - eb) as nat) == 1);
                if digits_value(a@) > 0 {
                    assert(digits_value(a@) * pow10(k) >= pow10(k)) by (nonlinear_arith)
                        requires
                            digits_value(a@) > 0,
                    ;
                }
            }
            let ghost va = digits_value(a@) * pow10(pa as nat);
            let ghost vb = digits_value(b@) * pow10(0);
            proof {
                assert(vb == digits_value(b@));
                if za == 0 {
                    assert(va == 0);
                } else {
                    assert(va >= pow10(pa as nat));
                    assert(va > vb);
                }
            }
            if za == 0 {
                digits_order(&[], b)
            } else {
                1
            }
        } else {
            let xa = padded(a, &[], pa as usize);
            proof {
                assert(a@ + Seq::<char>::empty() =~= a@);
                lemma_zeros_value(pa as nat);
                lemma_all_digits_concat(a@, zeros(pa as nat));
                lemma_digits_value_concat(a@, zeros(pa as nat));
                assert(pow10((eb - eb) as nat) == 1);
                assert(digits_value(xa@) == digits_value(a@) * pow10(pa as nat));
                assert(digits_value(b@) * pow10(0) == digits_value(b@));
            }
            digits_order(xa.as_slice(), b)
        }
    }
}

/// `a ≤ b` for floating-point literals (see [`float_le`]).
pub fn float_le_chars(a: &[char], b: &[char]) -> (r: bool)
    ensures
        r == float_le(a@, b@),
{
    let ca = float_class_chars(a);
    let cb = float_class_chars(b);
    proof {
        assert(a@.len() == a.len() && b@.len() == b.len());
    }
    match (ca, cb) {
        (FloatClassified::Unrecognised, _) => crate::text::chars_eq(a, b),
        (_, FloatClassified::Unrecognised) => crate::text::chars_eq(a, b),
        (FloatClassified::NegInfinity, _) => true,
        (_, FloatClassified::PosInfinity) => true,
        (FloatClassified::PosInfinity, _) => false,
        (_, FloatClassified::NegInfinity) => false,
        (
            FloatClassified::Number { negative: na, digits: da, exp: ea },
            FloatClassified::Number { negative: nb, digits: db, exp: eb },
        ) => {
            let c = magnitude_order(da.as_slice(), ea, db.as_slice(), eb);
            let za = digits_order(da.as_slice(), &[]);
            let zb = digits_order(db.as_slice(), &[]);
            proof {
                assert(digits_value(Seq::<char>::empty()) == 0);
                let m = if ea <= eb {
                    ea as int
                } else {
                    eb as int
                };
                lemma_pow10_pos((ea - m) as nat);
                lemma_pow10_pos((eb - m) as nat);
                let x = digits_value(da@);
                let y = digits_value(db@);
                let pa = pow10((ea - m) as nat);
                let pb = pow10((eb - m) as nat);
                assert(x * pa == 0 <==> x == 0) by (nonlinear_arith)
                    requires
                        pa > 0,
                ;
                assert(y * pb == 0 <==> y == 0) by (nonlinear_arith)
                    requires
                        pb > 0,
                ;
            }
            if na && nb {
                c >= 0
            } else if na {
                true
            } else if nb {
                za == 0 && zb == 0
            } else {
                c <= 0
            }
        },
    }
}

} // verus!
