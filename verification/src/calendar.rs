//! Civil (proleptic Gregorian, UTC) dates of Unix times, and the RFC 3339
//! text of an instant.
use vstd::prelude::*;
use crate::text::{push_char, push_zero_padded, zero_padded};

verus! {

/// Whether `y` is a leap year of the Gregorian calendar.
pub open spec fn is_leap(y: int) -> bool {
    y % 4 == 0 && (y % 100 != 0 || y % 400 == 0)
}

/// The number of days of year `y`.
pub open spec fn year_len(y: int) -> int {
    if is_leap(y) {
        366
    } else {
        365
    }
}

/// The days from 0000-01-01 to the first of January of year `y`.
pub open spec fn days_before_year(y: nat) -> int
    decreases y,
{
    if y == 0 {
        0
    } else {
        days_before_year((y - 1) as nat) + year_len(y - 1)
    }
}

/// The number of days of month `m` (1 to 12) of year `y`.
pub open spec fn month_len(y: int, m: int) -> int {
    if m == 2 {
        if is_leap(y) {
            29
        } else {
            28
        }
    } else if m == 4 || m == 6 || m == 9 || m == 11 {
        30
    } else {
        31
    }
}

/// The days from the first of January of year `y` to the first of month `m`.
pub open spec fn days_before_month(y: int, m: int) -> int
    decreases m,
{
    if m <= 1 {
        0
    } else {
        days_before_month(y, m - 1) + month_len(y, m - 1)
    }
}

/// Whether `(y, m, d)` is a date: a month from 1 to 12 and a day of it.
pub open spec fn is_date(y: nat, m: nat, d: nat) -> bool {
    1 <= m <= 12 && 1 <= d <= month_len(y as int, m as int)
}

/// The days from 0000-01-01 to the date `(y, m, d)`.
pub open spec fn day_number(y: nat, m: nat, d: nat) -> int {
    days_before_year(y) + days_before_month(y as int, m as int) + d - 1
}

/// The leap years before year `y`, counted by the rule.
pub open spec fn leap_years_before(y: int) -> int {
    (y + 3) / 4 - (y + 99) / 100 + (y + 399) / 400
}

proof fn lemma_leap_count_step(y: int)
    requires
        y >= 0,
    ensures
        leap_years_before(y + 1) == leap_years_before(y) + if is_leap(y) {
            1int
        } else {
            0int
        },
{
    assert((y + 4) / 4 == (y + 3) / 4 + if y % 4 == 0 {
        1int
    } else {
        0int
    }) by (nonlinear_arith)
        requires
            y >= 0,
    ;
    assert((y + 100) / 100 == (y + 99) / 100 + if y % 100 == 0 {
        1int
    } else {
        0int
    }) by (nonlinear_arith)
        requires
            y >= 0,
    ;
    assert((y + 400) / 400 == (y + 399) / 400 + if y % 400 == 0 {
        1int
    } else {
        0int
    }) by (nonlinear_arith)
        requires
            y >= 0,
    ;
    assert(y % 100 == 0 ==> y % 4 == 0) by (nonlinear_arith);
    assert(y % 400 == 0 ==> y % 100 == 0) by (nonlinear_arith);
}

/// The days before a year: 365 a year and one more per leap year.
pub proof fn lemma_days_before_year(y: nat)
    ensures
        days_before_year(y) == 365 * y + leap_years_before(y as int),
    decreases y,
{
    if y > 0 {
        lemma_days_before_year((y - 1) as nat);
        lemma_leap_count_step(y - 1);
    }
}


/// The first day of each month, counted from the first of March.
pub open spec fn march_offset(mp: int) -> int {
    (153 * mp + 2) / 5
}

proof fn lemma_month_table(y: int)
    ensures
        days_before_month(y, 1) == 0,
        days_before_month(y, 2) == 31,
        days_before_month(y, 3) == 59 + if is_leap(y) { 1int } else { 0int },
        days_before_month(y, 4) == 90 + if is_leap(y) { 1int } else { 0int },
        days_before_month(y, 5) == 120 + if is_leap(y) { 1int } else { 0int },
        days_before_month(y, 6) == 151 + if is_leap(y) { 1int } else { 0int },
        days_before_month(y, 7) == 181 + if is_leap(y) { 1int } else { 0int },
        days_before_month(y, 8) == 212 + if is_leap(y) { 1int } else { 0int },
        days_before_month(y, 9) == 243 + if is_leap(y) { 1int } else { 0int },
        days_before_month(y, 10) == 273 + if is_leap(y) { 1int } else { 0int },
        days_before_month(y, 11) == 304 + if is_leap(y) { 1int } else { 0int },
        days_before_month(y, 12) == 334 + if is_leap(y) { 1int } else { 0int },
{
    reveal_with_fuel(days_before_month, 13);
}

/// A day of a March-based year (`doy` from 0, the year holding the leap day
/// at its end when the next calendar year is a leap year) lands on a date.
proof fn lemma_march_day(doy: int, leap_next: bool)
    requires
        0 <= doy <= 365,
        doy == 365 ==> leap_next,
    ensures
        ({
            let mp = (5 * doy + 2) / 153;
            let d = doy - march_offset(mp) + 1;
            &&& 0 <= mp <= 11
            &&& 1 <= d
            &&& mp < 10 ==> d <= month_len(0, mp + 3)
            &&& mp == 10 ==> d <= 31
            &&& mp == 11 ==> d <= if leap_next { 29int } else { 28int }
        }),
{
    let mp = (5 * doy + 2) / 153;
    assert(0 <= mp <= 11) by (nonlinear_arith)
        requires
            0 <= doy <= 365,
            mp == (5 * doy + 2) / 153,
    ;
    assert(153 * mp <= 5 * doy + 2 < 153 * mp + 153) by (nonlinear_arith)
        requires
            0 <= doy,
            mp == (5 * doy + 2) / 153,
    ;
    if mp == 0 {
    } else if mp == 1 {
    } else if mp == 2 {
    } else if mp == 3 {
    } else if mp == 4 {
    } else if mp == 5 {
    } else if mp == 6 {
    } else if mp == 7 {
    } else if mp == 8 {
    } else if mp == 9 {
    } else if mp == 10 {
    } else {
    }
}


/// The date of the day `doy` (from 0) of the March-based year that begins
/// on the first of March of year `yp`.
pub open spec fn march_date(yp: nat, doy: int) -> (nat, nat, nat) {
    let mp = (5 * doy + 2) / 153;
    let d = doy - march_offset(mp) + 1;
    let m = if mp < 10 { mp + 3 } else { mp - 9 };
    let year: int = if m <= 2 { yp as int + 1 } else { yp as int };
    (year as nat, m as nat, d as nat)
}

/// Within a 400-year era, the March-based year `100c + 4q + yq` starts
/// `36524c + 1461q + 365yq` days after the era; day `doy` of it is the date
/// [`march_date`], counted from 0000-03-01 (day 60 of the calendar).
proof fn lemma_era_day(era: nat, c: int, q: int, yq: int, doy: int)
    requires
        0 <= c <= 3,
        0 <= q <= 24,
        0 <= yq <= 3,
        0 <= doy <= 365,
        doy == 365 ==> is_leap(400 * era + 100 * c + 4 * q + yq + 1),
    ensures
        ({
            let yp = (400 * era + 100 * c + 4 * q + yq) as nat;
            let r = march_date(yp, doy);
            &&& is_date(r.0, r.1, r.2)
            &&& day_number(r.0, r.1, r.2) == 146097 * era + 36524 * c + 1461 * q + 365 * yq + doy + 60
        }),
{
    let yp = (400 * era + 100 * c + 4 * q + yq) as nat;
    let k = 146097 * era + 36524 * c + 1461 * q + 365 * yq;
    assert(yp / 4 == 100 * era + 25 * c + q && yp / 100 == 4 * era + c && yp / 400 == era) by (
    nonlinear_arith)
        requires
            yp == 400 * era + 100 * c + 4 * q + yq,
            0 <= c <= 3,
            0 <= q <= 24,
            0 <= yq <= 3,
    ;
    assert((yp + 4) / 4 == yp / 4 + 1 && (yp + 100) / 100 == yp / 100 + 1 && (yp + 400) / 400 == yp
        / 400 + 1) by (nonlinear_arith)
        requires
            yp >= 0,
    ;
    // The days before the calendar year after `yp`.
    lemma_days_before_year((yp + 1) as nat);
    assert(days_before_year((yp + 1) as nat) == 365 * yp + 365 + yp / 4 - yp / 100 + yp / 400 + 1);
    assert(365 * yp + yp / 4 - yp / 100 + yp / 400 == k);
    // The days before the calendar year `yp`.
    lemma_days_before_year(yp);
    lemma_leap_count_step(yp as int);
    assert(days_before_year(yp) + year_len(yp as int) == days_before_year((yp + 1) as nat));
    let leap_next = is_leap(yp as int + 1);
    lemma_march_day(doy, leap_next);
    lemma_month_table(yp as int);
    lemma_month_table(yp as int + 1);
    let mp = (5 * doy + 2) / 153;
    assert(153 * mp <= 5 * doy + 2 < 153 * mp + 153) by (nonlinear_arith)
        requires
            0 <= doy,
            mp == (5 * doy + 2) / 153,
    ;
    let r = march_date(yp, doy);
    if mp < 10 {
        assert(r.0 == yp);
        assert(days_before_month(yp as int, r.1 as int) == 59 + (year_len(yp as int) - 365)
            + march_offset(mp)) by {
            if mp == 0 {
            } else if mp == 1 {
            } else if mp == 2 {
            } else if mp == 3 {
            } else if mp == 4 {
            } else if mp == 5 {
            } else if mp == 6 {
            } else if mp == 7 {
            } else if mp == 8 {
            } else {
            }
        }
    } else {
        assert(r.0 == yp + 1);
        assert(days_before_month(yp as int + 1, r.1 as int) == march_offset(mp) - 306) by {
            if mp == 10 {
            } else {
            }
        }
    }
}


/// The first day of the Unix epoch is day 719528 of the calendar.
pub proof fn lemma_epoch_day()
    ensures
        day_number(1970, 1, 1) == 719528,
{
    lemma_days_before_year(1970);
}

proof fn lemma_leap_after(era: nat, c: int, q: int)
    requires
        0 <= c <= 3,
        0 <= q <= 24,
        q < 24 || c == 3,
    ensures
        is_leap(400 * era + 100 * c + 4 * q + 3 + 1),
{
    let y = 400 * era + 100 * c + 4 * q + 4;
    assert(y % 4 == 0) by (nonlinear_arith)
        requires
            y == 400 * era + 100 * c + 4 * q + 4,
    ;
    if q < 24 {
        assert(y % 100 == 4 * q + 4) by (nonlinear_arith)
            requires
                y == 400 * era + 100 * c + 4 * q + 4,
                0 <= q < 24,
        ;
    } else {
        assert(y % 400 == 0) by (nonlinear_arith)
            requires
                y == 400 * era + 400,
        ;
    }
}

/// The latest day count that a `u64` number of seconds reaches.
pub open spec fn max_days() -> nat {
    (u64::MAX / 86400) as nat
}

/// The civil date of the day `days` after 1970-01-01.
pub fn civil_from_days(days: u64) -> (r: (u64, u64, u64))
    requires
        days <= max_days(),
    ensures
        is_date(r.0 as nat, r.1 as nat, r.2 as nat),
        day_number(r.0 as nat, r.1 as nat, r.2 as nat) == day_number(1970, 1, 1) + days,
{
    // Count from 0000-03-01, so that the leap day ends each year.
    let z: u64 = days + 719468;
    let era: u64 = z / 146097;
    let doe: u64 = z % 146097;
    let c: u64 = if doe / 36524 < 3 { doe / 36524 } else { 3 };
    let r1: u64 = doe - 36524 * c;
    let q: u64 = r1 / 1461;
    let r2: u64 = r1 % 1461;
    let yq: u64 = if r2 / 365 < 3 { r2 / 365 } else { 3 };
    let doy: u64 = r2 - 365 * yq;
    proof {
        assert(z == 146097 * era + doe) by (nonlinear_arith)
            requires
                era == z / 146097,
                doe == z % 146097,
        ;
        assert(r1 <= 36524 && (c < 3 ==> r1 < 36524)) by (nonlinear_arith)
            requires
                doe < 146097,
                c == (if doe / 36524 < 3 { doe / 36524 } else { 3 }),
                r1 == doe - 36524 * c,
        ;
        assert(r1 == 1461 * q + r2 && q <= 24 && r2 < 1461) by (nonlinear_arith)
            requires
                r1 <= 36524,
                q == r1 / 1461,
                r2 == r1 % 1461,
        ;
        assert(q == 24 ==> r2 <= r1 - 35064);
        assert(doy <= 365 && (yq < 3 ==> doy < 365) && r2 == 365 * yq + doy) by (nonlinear_arith)
            requires
                r2 < 1461,
                yq == (if r2 / 365 < 3 { r2 / 365 } else { 3 }),
                doy == r2 - 365 * yq,
        ;
        if doy == 365 {
            assert(yq == 3 && r2 == 1460);
            lemma_leap_after(era as nat, c as int, q as int);
        }
        lemma_era_day(era as nat, c as int, q as int, yq as int, doy as int);
        lemma_epoch_day();
    }
    let yp: u64 = 400 * era + 100 * c + 4 * q + yq;
    let mp: u64 = (5 * doy + 2) / 153;
    let d: u64 = doy + 1 - (153 * mp + 2) / 5;
    let m: u64 = if mp < 10 { mp + 3 } else { mp - 9 };
    let year: u64 = if m <= 2 { yp + 1 } else { yp };
    proof {
        let r = march_date(yp as nat, doy as int);
        assert(r.0 == year && r.1 == m && r.2 == d);
    }
    (year, m, d)
}

/// The RFC 3339 text of a UTC instant: `YYYY-MM-DDTHH:MM:SSZ`, each field
/// zero-padded to its width (the year to at least four digits).
pub open spec fn timestamp_text(y: nat, mo: nat, d: nat, h: nat, mi: nat, s: nat) -> Seq<char> {
    zero_padded(y, 4) + seq!['-'] + zero_padded(mo, 2) + seq!['-'] + zero_padded(d, 2) + seq!['T']
        + zero_padded(h, 2) + seq![':'] + zero_padded(mi, 2) + seq![':'] + zero_padded(s, 2)
        + seq!['Z']
}

/// Whether `t` is the RFC 3339 text of the Unix time `secs`: the date of
/// its day and the time within the day.
pub open spec fn is_utc_text(secs: nat, t: Seq<char>) -> bool {
    exists|y: nat, m: nat, d: nat|
        #![trigger day_number(y, m, d)]
        {
            &&& is_date(y, m, d)
            &&& day_number(y, m, d) == day_number(1970, 1, 1) + secs / 86400
            &&& t == timestamp_text(y, m, d, (secs % 86400) / 3600, (secs % 3600) / 60, secs % 60)
        }
}

/// Unix seconds as an RFC 3339 UTC string, e.g. `2026-06-28T19:44:09Z`.
pub fn format_epoch_utc(secs: u64) -> (out: String)
    ensures
        is_utc_text(secs as nat, out@),
{
    let days: u64 = secs / 86400;
    let rem: u64 = secs % 86400;
    let hour: u64 = rem / 3600;
    let min: u64 = (rem % 3600) / 60;
    let sec: u64 = rem % 60;
    let (year, m, d) = civil_from_days(days);
    let mut out = String::new();
    push_zero_padded(&mut out, year, 4);
    push_char(&mut out, '-');
    push_zero_padded(&mut out, m, 2);
    push_char(&mut out, '-');
    push_zero_padded(&mut out, d, 2);
    push_char(&mut out, 'T');
    push_zero_padded(&mut out, hour, 2);
    push_char(&mut out, ':');
    push_zero_padded(&mut out, min, 2);
    push_char(&mut out, ':');
    push_zero_padded(&mut out, sec, 2);
    push_char(&mut out, 'Z');
    proof {
        assert((secs % 86400) % 3600 == secs % 3600 && (secs % 86400) % 60 == secs % 60) by (
        nonlinear_arith);
        assert(out@ =~= timestamp_text(
            year as nat,
            m as nat,
            d as nat,
            hour as nat,
            min as nat,
            sec as nat,
        ));
        assert(is_date(year as nat, m as nat, d as nat));
    }
    out
}


proof fn lemma_day_in_year(y: nat, m: nat, d: nat)
    requires
        is_date(y, m, d),
    ensures
        0 <= days_before_month(y as int, m as int) + d - 1 < year_len(y as int),
        forall|m2: nat, d2: nat|
            is_date(y, m2, d2) && m < m2 ==> days_before_month(y as int, m as int) + d
                <= days_before_month(y as int, m2 as int),
{
    lemma_month_table(y as int);
}

proof fn lemma_years_apart(y1: nat, y2: nat)
    requires
        y1 < y2,
    ensures
        days_before_year(y1) + year_len(y1 as int) <= days_before_year(y2),
    decreases y2,
{
    if y1 + 1 < y2 {
        lemma_years_apart(y1, (y2 - 1) as nat);
    }
}

/// Distinct dates have distinct day numbers.
pub proof fn lemma_day_number_injective(y1: nat, m1: nat, d1: nat, y2: nat, m2: nat, d2: nat)
    requires
        is_date(y1, m1, d1),
        is_date(y2, m2, d2),
        day_number(y1, m1, d1) == day_number(y2, m2, d2),
    ensures
        y1 == y2 && m1 == m2 && d1 == d2,
{
    lemma_day_in_year(y1, m1, d1);
    lemma_day_in_year(y2, m2, d2);
    if y1 < y2 {
        lemma_years_apart(y1, y2);
    } else if y2 < y1 {
        lemma_years_apart(y2, y1);
    }
}

/// The text of an instant is determined by the instant.
pub proof fn lemma_utc_text_unique(secs: nat, t1: Seq<char>, t2: Seq<char>)
    requires
        is_utc_text(secs, t1),
        is_utc_text(secs, t2),
    ensures
        t1 == t2,
{
    let (y1, m1, d1) = choose|y: nat, m: nat, d: nat|
        #![trigger day_number(y, m, d)]
        {
            &&& is_date(y, m, d)
            &&& day_number(y, m, d) == day_number(1970, 1, 1) + secs / 86400
            &&& t1 == timestamp_text(y, m, d, (secs % 86400) / 3600, (secs % 3600) / 60, secs % 60)
        };
    let (y2, m2, d2) = choose|y: nat, m: nat, d: nat|
        #![trigger day_number(y, m, d)]
        {
            &&& is_date(y, m, d)
            &&& day_number(y, m, d) == day_number(1970, 1, 1) + secs / 86400
            &&& t2 == timestamp_text(y, m, d, (secs % 86400) / 3600, (secs % 3600) / 60, secs % 60)
        };
    lemma_day_number_injective(y1, m1, d1, y2, m2, d2);
}

} // verus!
