//! The v1 coefficient semiring `R` and its ordering.
//!
//! v1 grades every surface with a coefficient drawn from
//! `R = Interval^n × (Confidentiality × Integrity) × ℕ` (timing multi-interval ×
//! IFC label × linearity count). v0 behaves as if every surface sits at the
//! **top** of `R`: no timing guarantee, no security restriction, unbounded
//! copying.
//!
//! `R` is ordered so that smaller = more constrained and `⊤` is the greatest
//! element: a narrower interval is smaller (`[-∞, +∞]` is the timing top);
//! `secret ⊑ restricted ⊑ public`; `trusted ⊑ endorsed ⊑ untrusted`;
//! `Finite(n) ⊑ Finite(m)` iff `n ≤ m`, and every finite count `⊑ omega`.
//!
//! A finite delay bound is a 64-bit floating-point number of nanoseconds; it
//! is held as its decimal text (see [`crate::decimal`]) and compared by value.
use vstd::prelude::*;
use crate::decimal::{float_le, float_le_chars, float_syntax_chars, is_float_syntax, is_nan_syntax,
    nan_syntax_chars, trim_chars, trimmed};
use crate::text::{chars_of, decimal, decimal_string, parse_unsigned, parse_unsigned_chars, str_eq};

verus! {

/// One endpoint of a timing interval.
#[derive(Debug, Clone, PartialEq, Eq)]
pub enum Bound {
    /// `-∞`, written `-INF`.
    NegInf,
    /// A finite delay in nanoseconds, as decimal text.
    Finite(String),
    /// `+∞`, written `+INF`.
    PosInf,
}

/// The model of a [`Bound`].
pub enum BoundModel {
    NegInf,
    Finite(Seq<char>),
    PosInf,
}

impl View for Bound {
    type V = BoundModel;

    open spec fn view(&self) -> BoundModel {
        match self {
            Bound::NegInf => BoundModel::NegInf,
            Bound::Finite(t) => BoundModel::Finite(t@),
            Bound::PosInf => BoundModel::PosInf,
        }
    }
}

/// `a ≤ b` in the extended reals: `-∞` below everything, `+∞` above
/// everything, finite values by value.
pub open spec fn bound_le(a: BoundModel, b: BoundModel) -> bool {
    match (a, b) {
        (BoundModel::NegInf, _) => true,
        (_, BoundModel::PosInf) => true,
        (BoundModel::Finite(x), BoundModel::Finite(y)) => float_le(x, y),
        _ => false,
    }
}

/// The text a bound is written as.
pub open spec fn bound_text(b: BoundModel) -> Seq<char> {
    match b {
        BoundModel::NegInf => "-INF"@,
        BoundModel::Finite(t) => t,
        BoundModel::PosInf => "+INF"@,
    }
}

/// The bound that a text names: after trimming whitespace, `-INF`, `+INF`
/// or `INF`, else a floating-point literal that is not a NaN, kept as
/// written.
pub open spec fn bound_of(s: Seq<char>) -> Option<BoundModel> {
    let t = trimmed(s);
    if t == "-INF"@ {
        Some(BoundModel::NegInf)
    } else if t == "+INF"@ || t == "INF"@ {
        Some(BoundModel::PosInf)
    } else if is_float_syntax(t) && !is_nan_syntax(t) {
        Some(BoundModel::Finite(t))
    } else {
        None
    }
}

/// A bound read from a text reads back from the text it is written as.
pub proof fn law_bound_text_reads_back(s: Seq<char>)
    requires
        bound_of(s) is Some,
    ensures
        bound_of(bound_text(bound_of(s).unwrap())) == bound_of(s),
{
    reveal_strlit("-INF");
    reveal_strlit("+INF");
    reveal_strlit("INF");
    crate::decimal::lemma_trimmed_idempotent(s);
    let n = "-INF"@;
    let p = "+INF"@;
    assert(crate::decimal::trim_front(n) == n);
    assert(crate::decimal::trim_back(n) == n);
    assert(crate::decimal::trim_front(p) == p);
    assert(crate::decimal::trim_back(p) == p);
}

/// The model of an optional bound.
pub open spec fn opt_bound_view(o: Option<Bound>) -> Option<BoundModel> {
    match o {
        Some(b) => Some(b@),
        None => None,
    }
}

impl Bound {
    /// Parse a bound from its text form: `-INF`, `+INF` (or `INF`), or a
    /// floating-point literal other than NaN; surrounding whitespace is
    /// ignored.
    pub fn parse(s: &str) -> (r: Option<Bound>)
        ensures
            opt_bound_view(r) == bound_of(s@),
    {
        let cs = chars_of(s);
        let t = trim_chars(cs.as_slice());
        let neg = chars_of("-INF");
        let pos = chars_of("+INF");
        let inf = chars_of("INF");
        if crate::text::chars_eq(t.as_slice(), neg.as_slice()) {
            Some(Bound::NegInf)
        } else if crate::text::chars_eq(t.as_slice(), pos.as_slice()) || crate::text::chars_eq(
            t.as_slice(),
            inf.as_slice(),
        ) {
            Some(Bound::PosInf)
        } else if float_syntax_chars(t.as_slice()) && !nan_syntax_chars(t.as_slice()) {
            Some(Bound::Finite(crate::text::string_from_chars(t.as_slice())))
        } else {
            None
        }
    }

    /// A copy of this bound.
    pub fn duplicate(&self) -> (out: Bound)
        ensures
            out@ == self@,
    {
        match self {
            Bound::NegInf => Bound::NegInf,
            Bound::Finite(t) => Bound::Finite(t.clone()),
            Bound::PosInf => Bound::PosInf,
        }
    }

    /// `self ≤ other` in the extended-reals order.
    pub fn le(&self, other: &Bound) -> (r: bool)
        ensures
            r == bound_le(self@, other@),
    {
        match (self, other) {
            (Bound::NegInf, _) => true,
            (_, Bound::PosInf) => true,
            (Bound::Finite(x), Bound::Finite(y)) => {
                let a = chars_of(x.as_str());
                let b = chars_of(y.as_str());
                float_le_chars(a.as_slice(), b.as_slice())
            },
            _ => false,
        }
    }

    /// The text form: `-INF`, `+INF`, or the decimal text.
    pub fn to_str(&self) -> (out: String)
        ensures
            out@ == bound_text(self@),
    {
        match self {
            Bound::NegInf => String::from_str("-INF"),
            Bound::Finite(t) => t.clone(),
            Bound::PosInf => String::from_str("+INF"),
        }
    }
}

/// One stability interval (one delay path through the compositor).
#[derive(Debug, Clone, PartialEq, Eq)]
pub struct Interval {
    pub lo: Bound,
    pub hi: Bound,
}

/// The model of an [`Interval`].
pub struct IntervalModel {
    pub lo: BoundModel,
    pub hi: BoundModel,
}

impl View for Interval {
    type V = IntervalModel;

    open spec fn view(&self) -> IntervalModel {
        IntervalModel { lo: self.lo@, hi: self.hi@ }
    }
}

/// `[-∞, +∞]`, the timing top.
pub open spec fn unbounded_spec() -> IntervalModel {
    IntervalModel { lo: BoundModel::NegInf, hi: BoundModel::PosInf }
}

/// `a ⊑ b`: `a` is contained in `b`.
pub open spec fn contained_in(a: IntervalModel, b: IntervalModel) -> bool {
    bound_le(b.lo, a.lo) && bound_le(a.hi, b.hi)
}

impl Interval {
    /// The unbounded interval `[-∞, +∞]` — the timing top (no guarantee).
    pub fn unbounded() -> (out: Interval)
        ensures
            out@ == unbounded_spec(),
    {
        Interval { lo: Bound::NegInf, hi: Bound::PosInf }
    }

    /// A copy of this interval.
    pub fn duplicate(&self) -> (out: Interval)
        ensures
            out@ == self@,
    {
        Interval { lo: self.lo.duplicate(), hi: self.hi.duplicate() }
    }

    /// `self ⊑ other`: `self` is contained in `other` (narrower = smaller).
    pub fn contained_in(&self, other: &Interval) -> (r: bool)
        ensures
            r == contained_in(self@, other@),
    {
        other.lo.le(&self.lo) && self.hi.le(&other.hi)
    }
}

/// IFC confidentiality label. Top (most permissive) is `Public`.
#[derive(Debug, Clone, Copy, PartialEq, Eq, Structural)]
pub enum Confidentiality {
    /// Most restrictive (bottom).
    Secret,
    Restricted,
    /// Least restrictive (top).
    Public,
}

/// The position of a confidentiality label in its order.
pub open spec fn confidentiality_rank(c: Confidentiality) -> u8 {
    match c {
        Confidentiality::Secret => 0,
        Confidentiality::Restricted => 1,
        Confidentiality::Public => 2,
    }
}

/// The text of a confidentiality label.
pub open spec fn confidentiality_text(c: Confidentiality) -> Seq<char> {
    match c {
        Confidentiality::Secret => "secret"@,
        Confidentiality::Restricted => "restricted"@,
        Confidentiality::Public => "public"@,
    }
}

/// The label that a text names, if any.
pub open spec fn confidentiality_of(s: Seq<char>) -> Option<Confidentiality> {
    if s == "secret"@ {
        Some(Confidentiality::Secret)
    } else if s == "restricted"@ {
        Some(Confidentiality::Restricted)
    } else if s == "public"@ {
        Some(Confidentiality::Public)
    } else {
        None
    }
}

impl Confidentiality {
    /// The position of this label in its order (secret < restricted < public).
    pub fn rank(self) -> (r: u8)
        ensures
            r == confidentiality_rank(self),
    {
        match self {
            Confidentiality::Secret => 0,
            Confidentiality::Restricted => 1,
            Confidentiality::Public => 2,
        }
    }

    /// The text form: `secret`, `restricted` or `public`.
    pub fn to_str(self) -> (r: &'static str)
        ensures
            r@ == confidentiality_text(self),
    {
        match self {
            Confidentiality::Secret => "secret",
            Confidentiality::Restricted => "restricted",
            Confidentiality::Public => "public",
        }
    }

    /// The label named by `s` (exact match), if any.
    pub fn parse(s: &str) -> (r: Option<Confidentiality>)
        ensures
            r == confidentiality_of(s@),
    {
        if str_eq(s, "secret") {
            Some(Confidentiality::Secret)
        } else if str_eq(s, "restricted") {
            Some(Confidentiality::Restricted)
        } else if str_eq(s, "public") {
            Some(Confidentiality::Public)
        } else {
            None
        }
    }
}

/// IFC integrity label. Top (most permissive) is `Untrusted`.
#[derive(Debug, Clone, Copy, PartialEq, Eq, Structural)]
pub enum Integrity {
    /// Most restrictive (bottom).
    Trusted,
    Endorsed,
    /// Least restrictive (top).
    Untrusted,
}

/// The position of an integrity label in its order.
pub open spec fn integrity_rank(c: Integrity) -> u8 {
    match c {
        Integrity::Trusted => 0,
        Integrity::Endorsed => 1,
        Integrity::Untrusted => 2,
    }
}

/// The text of an integrity label.
pub open spec fn integrity_text(c: Integrity) -> Seq<char> {
    match c {
        Integrity::Trusted => "trusted"@,
        Integrity::Endorsed => "endorsed"@,
        Integrity::Untrusted => "untrusted"@,
    }
}

/// The label that a text names, if any.
pub open spec fn integrity_of(s: Seq<char>) -> Option<Integrity> {
    if s == "trusted"@ {
        Some(Integrity::Trusted)
    } else if s == "endorsed"@ {
        Some(Integrity::Endorsed)
    } else if s == "untrusted"@ {
        Some(Integrity::Untrusted)
    } else {
        None
    }
}

impl Integrity {
    /// The position of this label in its order (trusted < endorsed < untrusted).
    pub fn rank(self) -> (r: u8)
        ensures
            r == integrity_rank(self),
    {
        match self {
            Integrity::Trusted => 0,
            Integrity::Endorsed => 1,
            Integrity::Untrusted => 2,
        }
    }

    /// The text form: `trusted`, `endorsed` or `untrusted`.
    pub fn to_str(self) -> (r: &'static str)
        ensures
            r@ == integrity_text(self),
    {
        match self {
            Integrity::Trusted => "trusted",
            Integrity::Endorsed => "endorsed",
            Integrity::Untrusted => "untrusted",
        }
    }

    /// The label named by `s` (exact match), if any.
    pub fn parse(s: &str) -> (r: Option<Integrity>)
        ensures
            r == integrity_of(s@),
    {
        if str_eq(s, "trusted") {
            Some(Integrity::Trusted)
        } else if str_eq(s, "endorsed") {
            Some(Integrity::Endorsed)
        } else if str_eq(s, "untrusted") {
            Some(Integrity::Untrusted)
        } else {
            None
        }
    }
}

/// Linearity (usage count). Top (unbounded use) is `Omega`.
#[derive(Debug, Clone, Copy, PartialEq, Eq, Structural)]
pub enum Linearity {
    Finite(u64),
    /// Unbounded use — the top.
    Omega,
}

/// `a ⊑ b` for linearity counts.
pub open spec fn linearity_le(a: Linearity, b: Linearity) -> bool {
    match (a, b) {
        (_, Linearity::Omega) => true,
        (Linearity::Omega, Linearity::Finite(_)) => false,
        (Linearity::Finite(x), Linearity::Finite(y)) => x <= y,
    }
}

/// The text of a linearity count: `omega` or the decimal count.
pub open spec fn linearity_text(l: Linearity) -> Seq<char> {
    match l {
        Linearity::Omega => "omega"@,
        Linearity::Finite(n) => decimal(n as nat),
    }
}

/// The count a text names: `omega`, or a `u64` as `str::parse` reads it.
pub open spec fn linearity_of(s: Seq<char>) -> Option<Linearity> {
    if s == "omega"@ {
        Some(Linearity::Omega)
    } else {
        match parse_unsigned(s, u64::MAX as nat) {
            Some(n) => Some(Linearity::Finite(n as u64)),
            None => None,
        }
    }
}

impl Linearity {
    /// `self ⊑ other`: a finite bound is smaller than a larger finite bound
    /// and smaller than `omega`.
    pub fn le(self, other: Linearity) -> (r: bool)
        ensures
            r == linearity_le(self, other),
    {
        match (self, other) {
            (_, Linearity::Omega) => true,
            (Linearity::Omega, Linearity::Finite(_)) => false,
            (Linearity::Finite(a), Linearity::Finite(b)) => a <= b,
        }
    }

    /// The text form: `omega` or the decimal count.
    pub fn to_str(self) -> (r: String)
        ensures
            r@ == linearity_text(self),
    {
        match self {
            Linearity::Omega => String::from_str("omega"),
            Linearity::Finite(n) => decimal_string(n),
        }
    }

    /// The count named by `s`, if any.
    pub fn parse(s: &str) -> (r: Option<Linearity>)
        ensures
            r == linearity_of(s@),
    {
        if str_eq(s, "omega") {
            Some(Linearity::Omega)
        } else {
            let cs = chars_of(s);
            match parse_unsigned_chars(cs.as_slice(), u64::MAX) {
                Some(n) => Some(Linearity::Finite(n)),
                None => None,
            }
        }
    }
}

/// A point in the coefficient semiring `R`: one per surface in a v1 image.
#[derive(Debug, Clone, PartialEq, Eq)]
pub struct Coefficient {
    /// The timing multi-interval (`Interval^n`): one entry per delay path.
    pub timing: Vec<Interval>,
    pub confidentiality: Confidentiality,
    pub integrity: Integrity,
    pub linearity: Linearity,
}

/// The model of a [`Coefficient`].
pub struct CoefficientModel {
    pub timing: Seq<IntervalModel>,
    pub confidentiality: Confidentiality,
    pub integrity: Integrity,
    pub linearity: Linearity,
}

/// The models of a sequence of intervals.
pub open spec fn intervals_view(v: Seq<Interval>) -> Seq<IntervalModel> {
    v.map_values(|i: Interval| i@)
}

impl View for Coefficient {
    type V = CoefficientModel;

    open spec fn view(&self) -> CoefficientModel {
        CoefficientModel {
            timing: intervals_view(self.timing@),
            confidentiality: self.confidentiality,
            integrity: self.integrity,
            linearity: self.linearity,
        }
    }
}

/// The semiring top: one unbounded delay path, `public`, `untrusted`, `omega`.
pub open spec fn top_spec() -> CoefficientModel {
    CoefficientModel {
        timing: seq![unbounded_spec()],
        confidentiality: Confidentiality::Public,
        integrity: Integrity::Untrusted,
        linearity: Linearity::Omega,
    }
}

/// Whether a coefficient is the semiring top.
pub open spec fn is_top_spec(c: CoefficientModel) -> bool {
    &&& c.timing.len() == 1
    &&& c.timing[0].lo == BoundModel::NegInf
    &&& c.timing[0].hi == BoundModel::PosInf
    &&& c.confidentiality == Confidentiality::Public
    &&& c.integrity == Integrity::Untrusted
    &&& c.linearity == Linearity::Omega
}

/// `a ⊑ b` in `R`: the pointwise product order; timing compares only at
/// equal arity (delay-path count), interval by interval.
pub open spec fn coefficient_leq(a: CoefficientModel, b: CoefficientModel) -> bool {
    &&& a.timing.len() == b.timing.len()
    &&& forall|i: int| 0 <= i < a.timing.len() ==> contained_in(#[trigger] a.timing[i], b.timing[i])
    &&& confidentiality_rank(a.confidentiality) <= confidentiality_rank(b.confidentiality)
    &&& integrity_rank(a.integrity) <= integrity_rank(b.integrity)
    &&& linearity_le(a.linearity, b.linearity)
}

impl Coefficient {
    /// The semiring **top** `⊤`: the maximally permissive coefficient, which
    /// is exactly what v0 has implicitly.
    pub fn top() -> (out: Coefficient)
        ensures
            out@ == top_spec(),
    {
        let mut timing: Vec<Interval> = Vec::new();
        timing.push(Interval::unbounded());
        let out = Coefficient {
            timing,
            confidentiality: Confidentiality::Public,
            integrity: Integrity::Untrusted,
            linearity: Linearity::Omega,
        };
        proof {
            assert(out@.timing =~= top_spec().timing);
        }
        out
    }

    /// A copy of this coefficient.
    pub fn duplicate(&self) -> (out: Coefficient)
        ensures
            out@ == self@,
    {
        let mut timing: Vec<Interval> = Vec::new();
        let n = self.timing.len();
        let mut i: usize = 0;
        while i < n
            invariant
                n == self.timing@.len(),
                i <= n,
                timing@.len() == i,
                forall|k: int| 0 <= k < i ==> (#[trigger] timing@[k])@ == self.timing@[k]@,
            decreases n - i,
        {
            timing.push(self.timing[i].duplicate());
            i = i + 1;
        }
        let out = Coefficient {
            timing,
            confidentiality: self.confidentiality,
            integrity: self.integrity,
            linearity: self.linearity,
        };
        proof {
            assert(out@.timing =~= self@.timing);
        }
        out
    }

    /// Whether this coefficient is the semiring top.
    pub fn is_top(&self) -> (r: bool)
        ensures
            r == is_top_spec(self@),
    {
        if self.timing.len() != 1 {
            return false;
        }
        let unbounded_timing = match (&self.timing[0].lo, &self.timing[0].hi) {
            (Bound::NegInf, Bound::PosInf) => true,
            _ => false,
        };
        unbounded_timing && self.confidentiality == Confidentiality::Public && self.integrity
            == Integrity::Untrusted && self.linearity == Linearity::Omega
    }

    /// `self ⊑ other` in `R`: the pointwise product order across all four
    /// dimensions; differing timing arities are incomparable.
    pub fn leq(&self, other: &Coefficient) -> (r: bool)
        ensures
            r == coefficient_leq(self@, other@),
    {
        if self.timing.len() != other.timing.len() {
            return false;
        }
        let n = self.timing.len();
        let mut i: usize = 0;
        while i < n
            invariant
                n == self.timing@.len(),
                n == other.timing@.len(),
                i <= n,
                forall|k: int|
                    0 <= k < i ==> contained_in(
                        #[trigger] intervals_view(self.timing@)[k],
                        intervals_view(other.timing@)[k],
                    ),
            decreases n - i,
        {
            if !self.timing[i].contained_in(&other.timing[i]) {
                proof {
                    assert(intervals_view(self.timing@)[i as int] == self.timing@[i as int]@);
                    assert(intervals_view(other.timing@)[i as int] == other.timing@[i as int]@);
                    assert(!contained_in(
                        intervals_view(self.timing@)[i as int],
                        intervals_view(other.timing@)[i as int],
                    ));
                }
                return false;
            }
            i = i + 1;
        }
        self.confidentiality.rank() <= other.confidentiality.rank() && self.integrity.rank()
            <= other.integrity.rank() && self.linearity.le(other.linearity)
    }
}

// ---------------------------------------------------------------------------
// Laws of the order

/// Every coefficient whose timing has one delay path lies below the top.
pub proof fn law_below_top(c: CoefficientModel)
    requires
        c.timing.len() == 1,
    ensures
        coefficient_leq(c, top_spec()),
{
    assert(contained_in(c.timing[0], top_spec().timing[0]));
}

/// The coefficient order is reflexive on the texts a bound is written with
/// (every finite bound is a number, `inf` or `-inf`, or compares equal to
/// itself).
pub proof fn law_leq_reflexive(c: CoefficientModel)
    ensures
        coefficient_leq(c, c),
{
    assert forall|i: int| 0 <= i < c.timing.len() implies contained_in(#[trigger] c.timing[i], c.timing[i]) by {
        lemma_bound_le_refl(c.timing[i].lo);
        lemma_bound_le_refl(c.timing[i].hi);
    }
}

/// Every bound is below itself.
pub proof fn lemma_bound_le_refl(b: BoundModel)
    ensures
        bound_le(b, b),
{
}

/// The confidentiality labels are strictly ordered `secret ⊑ restricted ⊑
/// public`: of two coefficients that differ only in confidentiality, the
/// one with the lower label lies below the other, and never the reverse.
pub proof fn law_confidentiality_chain(c: CoefficientModel)
    ensures
        ({
            let s = CoefficientModel { confidentiality: Confidentiality::Secret, ..c };
            let r = CoefficientModel { confidentiality: Confidentiality::Restricted, ..c };
            let p = CoefficientModel { confidentiality: Confidentiality::Public, ..c };
            &&& coefficient_leq(s, r) && coefficient_leq(r, p) && coefficient_leq(s, p)
            &&& !coefficient_leq(r, s) && !coefficient_leq(p, r) && !coefficient_leq(p, s)
        }),
{
    law_leq_reflexive(c);
}

/// The integrity labels are strictly ordered `trusted ⊑ endorsed ⊑
/// untrusted`: of two coefficients that differ only in integrity, the one
/// with the lower label lies below the other, and never the reverse.
pub proof fn law_integrity_chain(c: CoefficientModel)
    ensures
        ({
            let t = CoefficientModel { integrity: Integrity::Trusted, ..c };
            let e = CoefficientModel { integrity: Integrity::Endorsed, ..c };
            let u = CoefficientModel { integrity: Integrity::Untrusted, ..c };
            &&& coefficient_leq(t, e) && coefficient_leq(e, u) && coefficient_leq(t, u)
            &&& !coefficient_leq(e, t) && !coefficient_leq(u, e) && !coefficient_leq(u, t)
        }),
{
    law_leq_reflexive(c);
}

/// Linearity counts are ordered by number, with `omega` above every count:
/// of two coefficients that differ only in linearity, `Finite(a) ⊑
/// Finite(b)` exactly when `a ≤ b`, every count lies below `omega`, and
/// `omega` below no count.
pub proof fn law_linearity_order(c: CoefficientModel, a: u64, b: u64)
    ensures
        coefficient_leq(
            CoefficientModel { linearity: Linearity::Finite(a), ..c },
            CoefficientModel { linearity: Linearity::Finite(b), ..c },
        ) <==> a <= b,
        coefficient_leq(
            CoefficientModel { linearity: Linearity::Finite(a), ..c },
            CoefficientModel { linearity: Linearity::Omega, ..c },
        ),
        !coefficient_leq(
            CoefficientModel { linearity: Linearity::Omega, ..c },
            CoefficientModel { linearity: Linearity::Finite(a), ..c },
        ),
{
    law_leq_reflexive(c);
}

/// The labels read from their texts and written back: each label's text
/// is its name in lower case, and reading a label's text gives that label.
pub proof fn law_label_texts()
    ensures
        confidentiality_text(Confidentiality::Secret) == "secret"@,
        confidentiality_text(Confidentiality::Restricted) == "restricted"@,
        confidentiality_text(Confidentiality::Public) == "public"@,
        integrity_text(Integrity::Trusted) == "trusted"@,
        integrity_text(Integrity::Endorsed) == "endorsed"@,
        integrity_text(Integrity::Untrusted) == "untrusted"@,
        confidentiality_of("secret"@) == Some(Confidentiality::Secret),
        confidentiality_of("restricted"@) == Some(Confidentiality::Restricted),
        confidentiality_of("public"@) == Some(Confidentiality::Public),
        integrity_of("trusted"@) == Some(Integrity::Trusted),
        integrity_of("endorsed"@) == Some(Integrity::Endorsed),
        integrity_of("untrusted"@) == Some(Integrity::Untrusted),
{
    reveal_strlit("secret");
    reveal_strlit("restricted");
    reveal_strlit("public");
    reveal_strlit("trusted");
    reveal_strlit("endorsed");
    reveal_strlit("untrusted");
    assert("restricted"@.len() != "secret"@.len());
    assert("public"@[0] != "secret"@[0]);
    assert("public"@.len() != "restricted"@.len());
    assert("endorsed"@[0] != "trusted"@[0]);
    assert("untrusted"@.len() != "trusted"@.len());
    assert("untrusted"@.len() != "endorsed"@.len());
}

} // verus!
