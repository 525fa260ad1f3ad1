//! The proleptic Gregorian calendar counted in days from 1970-01-01.

use vstd::prelude::*;

use crate::text::{int_padded, push_char, push_int_padded};

verus! {

/// Gregorian leap-year rule.
pub open spec fn leap(y: int) -> bool {
    (y % 4 == 0 && y % 100 != 0) || y % 400 == 0
}

/// Days in year `y`.
pub open spec fn year_len(y: int) -> int {
    if leap(y) { 366 } else { 365 }
}

/// Days in month `m` (1-based) of year `y`.
pub open spec fn month_len(y: int, m: int) -> int {
    if m == 2 {
        if leap(y) { 29 } else { 28 }
    } else if m == 4 || m == 6 || m == 9 || m == 11 {
        30
    } else {
        31
    }
}

/// Days from 1970-01-01 to January 1st of year `y` (negative before 1970).
pub open spec fn days_before_year(y: int) -> int
    decreases (if y >= 1970 { y - 1970 } else { 1970 - y }),
{
    if y == 1970 {
        0
    } else if y > 1970 {
        days_before_year(y - 1) + year_len(y - 1)
    } else {
        days_before_year(y + 1) - year_len(y)
    }
}

/// Days from January 1st of year `y` to the first day of month `m`.
pub open spec fn days_before_month(y: int, m: int) -> int
    decreases m,
{
    if m <= 1 {
        0
    } else {
        days_before_month(y, m - 1) + month_len(y, m - 1)
    }
}

/// `(y, m, d)` names an existing calendar day.
pub open spec fn valid_date(y: int, m: int, d: int) -> bool {
    1 <= m <= 12 && 1 <= d <= month_len(y, m)
}

/// Day number (days since 1970-01-01) of the calendar day `(y, m, d)`.
pub open spec fn day_number(y: int, m: int, d: int) -> int {
    days_before_year(y) + days_before_month(y, m) + d - 1
}

/// Rust's `/` on integers: the quotient rounded toward zero (`b > 0`).
pub open spec fn tdiv(a: int, b: int) -> int {
    if a >= 0 { a / b } else { -((-a) / b) }
}

/// Rust's `%` on integers: the remainder that takes the sign of `a` (`b > 0`).
pub open spec fn trem(a: int, b: int) -> int {
    a - b * tdiv(a, b)
}

/// Month lengths accumulate: a later month starts after an earlier one ends.
pub proof fn lemma_days_before_month_mono(y: int, m1: int, m2: int)
    requires
        1 <= m1 < m2,
    ensures
        days_before_month(y, m1) + month_len(y, m1) <= days_before_month(y, m2),
    decreases m2,
{
    if m2 > m1 + 1 {
        lemma_days_before_month_mono(y, m1, m2 - 1);
    }
}

/// A valid day lies inside its own year.
pub proof fn lemma_day_in_year(y: int, m: int, d: int)
    requires
        valid_date(y, m, d),
    ensures
        0 <= days_before_month(y, m) + d - 1 < year_len(y),
{
    lemma_months_fill_year(y);
    if m < 12 {
        lemma_days_before_month_mono(y, m, 13);
    }
    lemma_days_before_month_nonneg(y, m);
}

/// Days before a month are never negative.
pub proof fn lemma_days_before_month_nonneg(y: int, m: int)
    ensures
        days_before_month(y, m) >= 0,
    decreases m,
{
    if m > 1 {
        lemma_days_before_month_nonneg(y, m - 1);
    }
}

/// From 1970 on, a later year starts after an earlier one ends.
pub proof fn lemma_days_before_year_mono(y1: int, y2: int)
    requires
        1970 <= y1 < y2,
    ensures
        days_before_year(y1) + year_len(y1) <= days_before_year(y2),
    decreases y2,
{
    lemma_days_before_year_lower(y1);
    if y2 > y1 + 1 {
        lemma_days_before_year_mono(y1, y2 - 1);
        lemma_days_before_year_lower(y2 - 1);
    }
}

/// Distinct calendar days from 1970 on have distinct day numbers.
pub proof fn lemma_day_number_injective(y1: int, m1: int, d1: int, y2: int, m2: int, d2: int)
    requires
        y1 >= 1970,
        y2 >= 1970,
        valid_date(y1, m1, d1),
        valid_date(y2, m2, d2),
        day_number(y1, m1, d1) == day_number(y2, m2, d2),
    ensures
        y1 == y2 && m1 == m2 && d1 == d2,
{
    lemma_day_in_year(y1, m1, d1);
    lemma_day_in_year(y2, m2, d2);
    if y1 < y2 {
        lemma_days_before_year_mono(y1, y2);
    } else if y2 < y1 {
        lemma_days_before_year_mono(y2, y1);
    }
    assert(y1 == y2);
    if m1 < m2 {
        lemma_days_before_month_mono(y1, m1, m2);
    } else if m2 < m1 {
        lemma_days_before_month_mono(y1, m2, m1);
    }
}

/// The calendar day, from 1970-01-01 on, whose day number is `n`.
pub open spec fn civil_from_days(n: nat) -> (int, int, int) {
    choose|t: (int, int, int)| t.0 >= 1970 && valid_date(t.0, t.1, t.2) && day_number(t.0, t.1, t.2) == n
}

/// Numbering a calendar day and converting the number back gives the day:
/// from 1970 on, `civil_from_days` inverts `day_number`.
pub proof fn law_civil_from_days_inverts_day_number(y: int, m: int, d: int)
    requires
        y >= 1970,
        valid_date(y, m, d),
        day_number(y, m, d) >= 0,
    ensures
        civil_from_days(day_number(y, m, d) as nat) == (y, m, d),
{
    let n = day_number(y, m, d) as nat;
    let w = (y, m, d);
    assert(w.0 >= 1970 && valid_date(w.0, w.1, w.2) && day_number(w.0, w.1, w.2) == n);
    let t = civil_from_days(n);
    lemma_day_number_injective(t.0, t.1, t.2, y, m, d);
}

/// `YYYY-MM-DD HH:MM:SS` with each field zero-padded as `{:04}` / `{:02}`
/// pad it (a negative field keeps its sign in front).
pub open spec fn datetime_text(y: int, mo: int, d: int, h: int, mi: int, s: int) -> Seq<char> {
    int_padded(y, 4) + seq!['-'] + int_padded(mo, 2) + seq!['-'] + int_padded(d, 2) + seq![' ']
        + int_padded(h, 2) + seq![':'] + int_padded(mi, 2) + seq![':'] + int_padded(s, 2)
}

/// Renders `datetime_text` of the six fields.
pub fn datetime_string(y: i64, mo: i64, d: i64, h: i64, mi: i64, s: i64) -> (r: String)
    ensures
        r@ == datetime_text(y as int, mo as int, d as int, h as int, mi as int, s as int),
{
    let mut out = String::new();
    push_int_padded(&mut out, y, 4);
    push_char(&mut out, '-');
    push_int_padded(&mut out, mo, 2);
    push_char(&mut out, '-');
    push_int_padded(&mut out, d, 2);
    push_char(&mut out, ' ');
    push_int_padded(&mut out, h, 2);
    push_char(&mut out, ':');
    push_int_padded(&mut out, mi, 2);
    push_char(&mut out, ':');
    push_int_padded(&mut out, s, 2);
    assert(out@ =~= datetime_text(y as int, mo as int, d as int, h as int, mi as int, s as int));
    out
}

/// Twelve months make a year.
pub proof fn lemma_months_fill_year(y: int)
    ensures
        days_before_month(y, 13) == year_len(y),
{
    reveal_with_fuel(days_before_month, 13);
}

/// From 1970 on, each year adds its own length and at least 365 days.
pub proof fn lemma_days_before_year_lower(y: int)
    requires
        y >= 1970,
    ensures
        days_before_year(y) >= 365 * (y - 1970),
        days_before_year(y + 1) == days_before_year(y) + year_len(y),
    decreases y - 1970,
{
    if y > 1970 {
        lemma_days_before_year_lower(y - 1);
    }
}

/// Days in month `month` (1-based) of `year`, for a `leap` flag that
/// tells whether `year` is a leap year.
pub fn month_days(is_leap_year: bool, month: u64) -> (r: u64)
    requires
        1 <= month <= 12,
    ensures
        forall|y: int| leap(y) == is_leap_year ==> r == month_len(y, month as int),
{
    if month == 2 {
        if is_leap_year { 29 } else { 28 }
    } else if month == 4 || month == 6 || month == 9 || month == 11 {
        30
    } else {
        31
    }
}

/// Gregorian leap-year test.
pub fn is_leap(y: u64) -> (r: bool)
    ensures
        r == leap(y as int),
{
    (y % 4 == 0 && y % 100 != 0) || y % 400 == 0
}

/// The calendar day `days` days after 1970-01-01, as `(year, month, day)`
/// with 1-based month and day.
pub fn days_to_ymd(days: u64) -> (r: (u64, u64, u64))
    ensures
        r.0 >= 1970,
        valid_date(r.0 as int, r.1 as int, r.2 as int),
        day_number(r.0 as int, r.1 as int, r.2 as int) == days as int,
        (r.0 as int, r.1 as int, r.2 as int) == civil_from_days(days as nat),
{
    let mut rem: u64 = days;
    let mut year: u64 = 1970;
    loop
        invariant_except_break
            year >= 1970,
            days_before_year(year as int) + rem == days as int,
        ensures
            year >= 1970,
            days_before_year(year as int) + rem == days as int,
            rem < year_len(year as int),
        decreases rem,
    {
        proof {
            lemma_days_before_year_lower(year as int);
        }
        let leap_year = is_leap(year);
        let days_in_year: u64 = if leap_year { 366 } else { 365 };
        if rem < days_in_year {
            break;
        }
        rem = rem - days_in_year;
        assert(365 * (year - 1970) <= days as int);
        year = year + 1;
    }
    let leap_year = is_leap(year);
    let ghost rem0 = rem;
    proof {
        lemma_months_fill_year(year as int);
    }
    let mut month: u64 = 1;
    loop
        invariant_except_break
            1 <= month <= 12,
            leap_year == leap(year as int),
            days_before_month(year as int, month as int) + rem == rem0,
            rem0 < days_before_month(year as int, 13),
        ensures
            1 <= month <= 12,
            days_before_month(year as int, month as int) + rem == rem0,
            rem < month_len(year as int, month as int),
        decreases 13 - month,
    {
        let md = month_days(leap_year, month);
        if rem < md {
            break;
        }
        rem = rem - md;
        month = month + 1;
        if month == 13 {
            assert(false);
        }
    }
    proof {
        law_civil_from_days_inverts_day_number(year as int, month as int, rem + 1);
    }
    (year, month, rem + 1)
}


/// What `days_to_ymd_signed` yields: the calendar day for a day number from
/// 1970 on, and `(1970, 1, days + 1)` for a negative one (the year and
/// month searches stop at once and leave the day count as it is).
pub open spec fn signed_civil(days: int) -> (int, int, int) {
    if days < 0 {
        (1970, 1, days + 1)
    } else {
        civil_from_days(days as nat)
    }
}

/// The calendar day `days` days after 1970-01-01 with signed arithmetic;
/// a negative count is not moved before 1970 (see `signed_civil`).
pub fn days_to_ymd_signed(days: i64) -> (r: (i64, i64, i64))
    ensures
        (r.0 as int, r.1 as int, r.2 as int) == signed_civil(days as int),
{
    if days < 0 {
        (1970, 1, days + 1)
    } else {
        let (y, m, d) = days_to_ymd(days as u64);
        proof {
            lemma_year_bound(days as nat, y as int, m as int, d as int);
        }
        (y as i64, m as i64, d as i64)
    }
}

/// A day number that fits in `i64` names a year that fits too.
pub proof fn lemma_year_bound(n: nat, y: int, m: int, d: int)
    requires
        y >= 1970,
        valid_date(y, m, d),
        day_number(y, m, d) == n,
        n <= i64::MAX,
    ensures
        y <= i64::MAX,
{
    lemma_days_before_year_lower(y);
    lemma_day_in_year(y, m, d);
}

/// Seconds since the epoch of `ms` milliseconds after it, as the
/// `std::time` round trip computes them: `ms` read as a `u64`, then divided.
pub open spec fn unsigned_secs(ms: i64) -> nat {
    (ms as u64) as nat / 1000
}

/// `YYYY-MM-DD HH:MM:SS` (UTC) of the epoch seconds `secs`.
pub open spec fn utc_text(secs: nat) -> Seq<char> {
    let c = civil_from_days(secs / 86400);
    datetime_text(c.0, c.1, c.2, (secs / 3600) as int % 24, (secs / 60) as int % 60, (secs % 60) as int)
}

/// Renders a millisecond timestamp as `YYYY-MM-DD HH:MM:SS` in UTC, the
/// milliseconds taken as unsigned (a negative value wraps around).
pub fn format_ms(ms: i64) -> (r: String)
    ensures
        r@ == utc_text(unsigned_secs(ms)),
{
    let secs: u64 = (ms as u64) / 1000;
    let h = (secs / 3600) % 24;
    let min = (secs / 60) % 60;
    let s = secs % 60;
    let (y, mo, d) = days_to_ymd(secs / 86400);
    proof {
        lemma_year_bound((secs / 86400) as nat, y as int, mo as int, d as int);
    }
    datetime_string(y as i64, mo as i64, d as i64, h as i64, min as i64, s as i64)
}

/// `YYYY-MM-DD HH:MM:SS` of a millisecond timestamp with truncating signed
/// arithmetic throughout (the fields of a pre-1970 time come out negative).
pub open spec fn signed_datetime_text(ms: int) -> Seq<char> {
    let secs = tdiv(ms, 1000);
    let c = signed_civil(tdiv(secs, 86400));
    datetime_text(c.0, c.1, c.2, trem(tdiv(secs, 3600), 24), trem(tdiv(secs, 60), 60), trem(secs, 60))
}

/// Renders a millisecond timestamp as `YYYY-MM-DD HH:MM:SS` (UTC) with
/// signed arithmetic.
pub fn format_datetime(ms: i64) -> (r: String)
    ensures
        r@ == signed_datetime_text(ms as int),
{
    let secs = ms / 1000;
    let hours = (secs / 3600) % 24;
    let mins = (secs / 60) % 60;
    let s = secs % 60;
    let days_since_epoch = secs / 86400;
    let (y, m, d) = days_to_ymd_signed(days_since_epoch);
    datetime_string(y, m, d, hours, mins, s)
}

/// `YYYY-MM-DD HH:MM` with each field zero-padded as `{:04}` / `{:02}`
/// pad it.
pub open spec fn date_minute_text(y: int, mo: int, d: int, h: int, mi: int) -> Seq<char> {
    int_padded(y, 4) + seq!['-'] + int_padded(mo, 2) + seq!['-'] + int_padded(d, 2) + seq![' ']
        + int_padded(h, 2) + seq![':'] + int_padded(mi, 2)
}

/// Renders `date_minute_text` of the five fields.
pub fn date_minute_string(y: i64, mo: i64, d: i64, h: i64, mi: i64) -> (r: String)
    ensures
        r@ == date_minute_text(y as int, mo as int, d as int, h as int, mi as int),
{
    let mut out = String::new();
    push_int_padded(&mut out, y, 4);
    push_char(&mut out, '-');
    push_int_padded(&mut out, mo, 2);
    push_char(&mut out, '-');
    push_int_padded(&mut out, d, 2);
    push_char(&mut out, ' ');
    push_int_padded(&mut out, h, 2);
    push_char(&mut out, ':');
    push_int_padded(&mut out, mi, 2);
    assert(out@ =~= date_minute_text(y as int, mo as int, d as int, h as int, mi as int));
    out
}

} // verus!
