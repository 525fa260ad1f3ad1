//! Day numbers to calendar days for any day, before 1970 too, by
//! counting 400-year eras from 0000-03-01.

use vstd::prelude::*;

use crate::calendar::{civil_from_days, days_before_month, days_before_year, day_number, leap, month_len, tdiv, trem, valid_date, year_len};

verus! {

/// Days from the start of an era (a March 1st) to March 1st of its
/// year `k` (`0 <= k <= 400`).
pub open spec fn era_year_start(k: int) -> int {
    365 * k + k / 4 - k / 100 + k / 400
}

/// The year of an era that holds its day `q`, as computed from `q` alone.
pub open spec fn year_of_era(q: u64) -> u64 {
    ((q - q / 1460 + q / 36524 - q / 146096) / 365) as u64
}

/// `era_year_start` in machine integers, for the bit-vector prover.
pub open spec fn era_year_start_u64(k: u64) -> u64 {
    (365 * k + k / 4 - k / 100 + k / 400) as u64
}

/// Each day of an era falls in the year that `year_of_era` names.
pub proof fn lemma_year_of_era(q: u64)
    by (bit_vector)
    requires
        q < 146097,
    ensures
        year_of_era(q) < 400,
        era_year_start_u64(year_of_era(q)) <= q,
        q < era_year_start_u64((year_of_era(q) + 1) as u64),
{
}

/// The month of a March-based year that holds its day `doy`
/// (0 is March, 11 is February).
pub open spec fn month_of_year(doy: u64) -> u64 {
    ((5 * doy + 2) / 153) as u64
}

/// Days from March 1st to the first day of March-based month `mp`.
pub open spec fn march_month_start(mp: int) -> int {
    (153 * mp + 2) / 5
}

/// `march_month_start` in machine integers, for the bit-vector prover.
pub open spec fn march_month_start_u64(mp: u64) -> u64 {
    ((153 * mp + 2) / 5) as u64
}

/// Each day of a March-based year falls in the month that
/// `month_of_year` names.
pub proof fn lemma_month_of_year(doy: u64)
    by (bit_vector)
    requires
        doy < 366,
    ensures
        month_of_year(doy) < 12,
        march_month_start_u64(month_of_year(doy)) <= doy,
        doy < march_month_start_u64((month_of_year(doy) + 1) as u64),
{
}

/// 1 in a leap year, 0 otherwise.
pub open spec fn leap_int(y: int) -> int {
    if leap(y) { 1 } else { 0 }
}

/// Days from 0000-03-01 to March 1st of year `y` (negative before).
pub open spec fn march_year_start(y: int) -> int {
    365 * y + y / 4 - y / 100 + y / 400
}

/// Adding whole multiples of the divisor moves the quotient and keeps
/// the remainder.
pub proof fn lemma_div_shift(x: int, m: int, d: int)
    requires
        d > 0,
    ensures
        (x + m * d) / d == x / d + m,
        (x + m * d) % d == x % d,
{
    vstd::arithmetic::div_mod::lemma_fundamental_div_mod(x, d);
    vstd::arithmetic::div_mod::lemma_mod_bound(x, d);
    assert(x + m * d == (x / d + m) * d + x % d) by (nonlinear_arith)
        requires
            x == d * (x / d) + x % d,
    ;
    vstd::arithmetic::div_mod::lemma_fundamental_div_mod_converse(x + m * d, d, x / d + m, x % d);
}

/// The quotient grows by one exactly at the multiples of the divisor.
pub proof fn lemma_div_step(n: int, d: int)
    requires
        d > 0,
    ensures
        n / d - (n - 1) / d == (if n % d == 0 { 1int } else { 0 }),
{
    vstd::arithmetic::div_mod::lemma_fundamental_div_mod(n, d);
    vstd::arithmetic::div_mod::lemma_mod_bound(n, d);
    let q = n / d;
    let r = n % d;
    if r > 0 {
        assert(n - 1 == q * d + (r - 1)) by (nonlinear_arith)
            requires
                n == d * q + r,
        ;
        vstd::arithmetic::div_mod::lemma_fundamental_div_mod_converse(n - 1, d, q, r - 1);
    } else {
        assert(n - 1 == (q - 1) * d + (d - 1)) by (nonlinear_arith)
            requires
                n == d * q + r,
                r == 0,
        ;
        vstd::arithmetic::div_mod::lemma_fundamental_div_mod_converse(n - 1, d, q - 1, d - 1);
    }
}

/// A multiple of 400 is a multiple of 100, and one of 100 a multiple of 4.
pub proof fn lemma_divisor_chain(y: int)
    ensures
        y % 400 == 0 ==> y % 100 == 0,
        y % 100 == 0 ==> y % 4 == 0,
{
    if y % 400 == 0 {
        vstd::arithmetic::div_mod::lemma_fundamental_div_mod(y, 400);
        assert(y == (4 * (y / 400)) * 100 + 0) by (nonlinear_arith)
            requires
                y == 400 * (y / 400) + y % 400,
                y % 400 == 0,
        ;
        vstd::arithmetic::div_mod::lemma_fundamental_div_mod_converse(y, 100, 4 * (y / 400), 0);
    }
    if y % 100 == 0 {
        vstd::arithmetic::div_mod::lemma_fundamental_div_mod(y, 100);
        assert(y == (25 * (y / 100)) * 4 + 0) by (nonlinear_arith)
            requires
                y == 100 * (y / 100) + y % 100,
                y % 100 == 0,
        ;
        vstd::arithmetic::div_mod::lemma_fundamental_div_mod_converse(y, 4, 25 * (y / 100), 0);
    }
}

/// The March-based year `y - 1` runs into February of `y`, so it has the
/// length of year `y`.
pub proof fn lemma_march_year_len(y: int)
    ensures
        march_year_start(y) - march_year_start(y - 1) == 365 + leap_int(y),
{
    lemma_div_step(y, 4);
    lemma_div_step(y, 100);
    lemma_div_step(y, 400);
    lemma_divisor_chain(y);
}

/// January 1st of year `y` lies 306 days after March 1st of year `y - 1`,
/// and 1970-01-01 lies 719468 days after 0000-03-01.
pub proof fn lemma_days_before_year_closed(y: int)
    ensures
        days_before_year(y) == march_year_start(y - 1) + 306 - 719468,
    decreases (if y >= 1970 { y - 1970 } else { 1970 - y }),
{
    if y > 1970 {
        lemma_days_before_year_closed(y - 1);
        lemma_march_year_len(y - 1);
    } else if y < 1970 {
        lemma_days_before_year_closed(y + 1);
        lemma_march_year_len(y);
    } else {
        assert(march_year_start(1969) == 719162);
    }
}

/// Whole eras of 146097 days: March 1st of year `400 * e + k`.
pub proof fn lemma_era_split(e: int, k: int)
    ensures
        march_year_start(400 * e + k) == 146097 * e + march_year_start(k),
{
    lemma_div_shift(k, 100 * e, 4);
    lemma_div_shift(k, 4 * e, 100);
    lemma_div_shift(k, e, 400);
    assert(400 * e + k == k + (100 * e) * 4);
    assert(400 * e + k == k + (4 * e) * 100);
    assert(400 * e + k == k + e * 400);
}

/// Months counted from March: month start, length and where the
/// January-based month count puts them.
pub proof fn lemma_march_month(y: int, mp: int)
    requires
        0 <= mp < 12,
    ensures
        mp < 10 ==> days_before_month(y, mp + 3) == 59 + leap_int(y) + march_month_start(mp),
        mp >= 10 ==> days_before_month(y, mp - 9) == march_month_start(mp) - 306,
        mp < 11 ==> march_month_start(mp + 1) - march_month_start(mp) == month_len(
            y,
            if mp < 10 { mp + 3 } else { mp - 9 },
        ),
        march_month_start(10) == 306,
        march_month_start(11) == 337,
{
    reveal_with_fuel(days_before_month, 13);
    assert(march_month_start(0) == 0);
    assert(march_month_start(1) == 31);
    assert(march_month_start(2) == 61);
    assert(march_month_start(3) == 92);
    assert(march_month_start(4) == 122);
    assert(march_month_start(5) == 153);
    assert(march_month_start(6) == 184);
    assert(march_month_start(7) == 214);
    assert(march_month_start(8) == 245);
    assert(march_month_start(9) == 275);
    assert(march_month_start(10) == 306);
    assert(march_month_start(11) == 337);
    assert(days_before_month(y, 3) == 59 + leap_int(y));
}

/// March 1st of a later year comes later.
pub proof fn lemma_march_year_start_mono(a: int, b: int)
    requires
        a <= b,
    ensures
        march_year_start(a) <= march_year_start(b),
    decreases b - a,
{
    if a < b {
        lemma_march_year_start_mono(a, b - 1);
        lemma_march_year_len(b);
    }
}

/// Each year adds its own length, before 1970 as after.
pub proof fn lemma_days_before_year_step(y: int)
    ensures
        days_before_year(y + 1) == days_before_year(y) + year_len(y),
{
    lemma_days_before_year_closed(y);
    lemma_days_before_year_closed(y + 1);
    lemma_march_year_len(y);
}

/// Distinct calendar days have distinct day numbers.
pub proof fn lemma_day_number_injective_all(y1: int, m1: int, d1: int, y2: int, m2: int, d2: int)
    requires
        valid_date(y1, m1, d1),
        valid_date(y2, m2, d2),
        day_number(y1, m1, d1) == day_number(y2, m2, d2),
    ensures
        y1 == y2 && m1 == m2 && d1 == d2,
{
    crate::calendar::lemma_day_in_year(y1, m1, d1);
    crate::calendar::lemma_day_in_year(y2, m2, d2);
    lemma_days_before_year_closed(y1);
    lemma_days_before_year_closed(y2);
    lemma_days_before_year_step(y1);
    lemma_days_before_year_step(y2);
    lemma_days_before_year_closed(y1 + 1);
    lemma_days_before_year_closed(y2 + 1);
    if y1 < y2 {
        lemma_march_year_start_mono(y1, y2 - 1);
    } else if y2 < y1 {
        lemma_march_year_start_mono(y2, y1 - 1);
    }
    assert(y1 == y2);
    if m1 < m2 {
        crate::calendar::lemma_days_before_month_mono(y1, m1, m2);
    } else if m2 < m1 {
        crate::calendar::lemma_days_before_month_mono(y1, m2, m1);
    }
}

/// The day of an era found by its year and month gives back the day
/// number: the steps of the era count name a valid calendar day.
pub proof fn lemma_era_count(n: int, e: int, k: int, doy: int, mp: int)
    requires
        0 <= k < 400,
        n + 719468 == 146097 * e + march_year_start(k) + doy,
        0 <= doy < march_year_start(k + 1) - march_year_start(k),
        0 <= mp < 12,
        march_month_start(mp) <= doy < march_month_start(mp + 1),
    ensures
        ({
            let m = if mp < 10 { mp + 3 } else { mp - 9 };
            let y = 400 * e + k + (if m <= 2 { 1int } else { 0 });
            let d = doy - march_month_start(mp) + 1;
            valid_date(y, m, d) && day_number(y, m, d) == n
        }),
{
    let yy = 400 * e + k;
    lemma_era_split(e, k);
    lemma_era_split(e, k + 1);
    assert(400 * e + (k + 1) == yy + 1);
    lemma_march_year_len(yy + 1);
    lemma_march_year_len(yy);
    let m = if mp < 10 { mp + 3 } else { mp - 9 };
    let d = doy - march_month_start(mp) + 1;
    if mp < 10 {
        lemma_march_month(yy, mp);
        lemma_days_before_year_closed(yy);
        assert(valid_date(yy, m, d));
        assert(day_number(yy, m, d) == n);
    } else {
        lemma_march_month(yy + 1, mp);
        lemma_days_before_year_closed(yy + 1);
        assert(valid_date(yy + 1, m, d));
        assert(day_number(yy + 1, m, d) == n);
    }
}

/// The calendar day whose day number (days since 1970-01-01, negative
/// before) is `n`.
pub open spec fn civil_day(n: int) -> (int, int, int) {
    choose|t: (int, int, int)| valid_date(t.0, t.1, t.2) && day_number(t.0, t.1, t.2) == n
}

/// Every day number names a calendar day.
pub proof fn lemma_civil_day_exists(n: int)
    ensures
        exists|t: (int, int, int)| valid_date(t.0, t.1, t.2) && day_number(t.0, t.1, t.2) == n,
{
    let z = n + 719468;
    let e = z / 146097;
    let q = z % 146097;
    vstd::arithmetic::div_mod::lemma_fundamental_div_mod(z, 146097);
    vstd::arithmetic::div_mod::lemma_mod_bound(z, 146097);
    let qq = q as u64;
    lemma_year_of_era_int(qq);
    let k = year_of_era(qq);
    let doy = q - march_year_start(k as int);
    lemma_month_of_year_int(doy as u64);
    let mp = month_of_year(doy as u64);
    lemma_era_count(n, e, k as int, doy, mp as int);
    let m = if mp < 10 { mp + 3 } else { mp - 9 };
    let y = 400 * e + k + (if m <= 2 { 1int } else { 0 });
    let d = doy - march_month_start(mp as int) + 1;
    let t = (y, m as int, d);
    assert(valid_date(t.0, t.1, t.2) && day_number(t.0, t.1, t.2) == n);
}

/// Numbering a calendar day and converting the number back gives the
/// day; and every day number is the number of the day it converts to.
pub proof fn law_civil_day_inverts_day_number(y: int, m: int, d: int, n: int)
    requires
        valid_date(y, m, d),
    ensures
        civil_day(day_number(y, m, d)) == (y, m, d),
        valid_date(civil_day(n).0, civil_day(n).1, civil_day(n).2),
        day_number(civil_day(n).0, civil_day(n).1, civil_day(n).2) == n,
{
    let w = (y, m, d);
    assert(valid_date(w.0, w.1, w.2) && day_number(w.0, w.1, w.2) == day_number(y, m, d));
    let t = civil_day(day_number(y, m, d));
    lemma_day_number_injective_all(t.0, t.1, t.2, y, m, d);
    lemma_civil_day_exists(n);
}

/// The year of an era found by `year_of_era`, in mathematical integers.
pub proof fn lemma_year_of_era_int(q: u64)
    requires
        q < 146097,
    ensures
        year_of_era(q) < 400,
        march_year_start(year_of_era(q) as int) <= q < march_year_start(year_of_era(q) + 1),
{
    lemma_year_of_era(q);
    let k = year_of_era(q);
    assert(era_year_start_u64(k) as int == march_year_start(k as int));
    assert(era_year_start_u64((k + 1) as u64) as int == march_year_start(k + 1));
}

/// The month found by `month_of_year`, in mathematical integers.
pub proof fn lemma_month_of_year_int(doy: u64)
    requires
        doy < 366,
    ensures
        month_of_year(doy) < 12,
        march_month_start(month_of_year(doy) as int) <= doy < march_month_start(month_of_year(doy) + 1),
{
    lemma_month_of_year(doy);
    let mp = month_of_year(doy);
    assert(march_month_start_u64(mp) as int == march_month_start(mp as int));
    assert(march_month_start_u64((mp + 1) as u64) as int == march_month_start(mp + 1));
}

/// Dividing `z`, moved down by `146096` when negative, toward zero by
/// `146097` gives the floor quotient of `z`.
pub proof fn lemma_era_floor(z: int)
    ensures
        tdiv(if z >= 0 { z } else { z - 146096 }, 146097) == z / 146097,
        0 <= z - 146097 * (z / 146097) < 146097,
{
    vstd::arithmetic::div_mod::lemma_fundamental_div_mod(z, 146097);
    vstd::arithmetic::div_mod::lemma_mod_bound(z, 146097);
    if z < 0 {
        let q = z / 146097;
        let r = z % 146097;
        assert(146096 - z == (-q) * 146097 + (146096 - r));
        vstd::arithmetic::div_mod::lemma_fundamental_div_mod_converse(146096 - z, 146097, -q, 146096 - r);
    }
}

/// The calendar day `days` days after 1970-01-01 (before it for a
/// negative count), as `(year, month, day)`: whole 400-year eras from
/// 0000-03-01, then the year of the era, then the month from March.
#[verifier::spinoff_prover]
#[verifier::rlimit(40)]
pub fn civil_from_day_number(days: i64) -> (r: (i64, i64, i64))
    requires
        i64::MIN + 146096 <= days <= i64::MAX - 719468,
    ensures
        valid_date(r.0 as int, r.1 as int, r.2 as int),
        day_number(r.0 as int, r.1 as int, r.2 as int) == days as int,
        (r.0 as int, r.1 as int, r.2 as int) == civil_day(days as int),
{
    let z = days + 719468;
    let shifted = if z >= 0 { z } else { z - 146096 };
    let era = shifted / 146097;
    proof {
        lemma_era_floor(z as int);
        assert(era as int == tdiv(shifted as int, 146097));
    }
    let doe: u64 = (z - era * 146097) as u64;
    proof {
        lemma_year_of_era_int(doe);
    }
    let yoe: u64 = (doe - doe / 1460 + doe / 36524 - doe / 146096) / 365;
    let y: i64 = yoe as i64 + era * 400;
    let doy: u64 = doe - (365 * yoe + yoe / 4 - yoe / 100);
    proof {
        lemma_month_of_year_int(doy);
    }
    let mp: u64 = (5 * doy + 2) / 153;
    let d: u64 = doy - (153 * mp + 2) / 5 + 1;
    let m: u64 = if mp < 10 { mp + 3 } else { mp - 9 };
    let y: i64 = if m <= 2 { y + 1 } else { y };
    proof {
        lemma_era_count(days as int, era as int, yoe as int, doy as int, mp as int);
        law_civil_day_inverts_day_number(y as int, m as int, d as int, days as int);
    }
    (y, m as i64, d as i64)
}

/// Rust's truncating `/` and `%` against the floor quotient and the
/// non-negative remainder: they agree unless `x` is negative and not a
/// multiple of `d`, where the quotient is one higher and the remainder
/// `d` lower.
pub proof fn lemma_trunc_floor(x: int, d: int)
    requires
        d > 0,
    ensures
        (x >= 0 || x % d == 0) ==> tdiv(x, d) == x / d && trem(x, d) == x % d,
        (x < 0 && x % d != 0) ==> tdiv(x, d) == x / d + 1 && trem(x, d) == x % d - d,
        0 <= x % d < d,
{
    vstd::arithmetic::div_mod::lemma_fundamental_div_mod(x, d);
    vstd::arithmetic::div_mod::lemma_mod_bound(x, d);
    let q = x / d;
    let r = x % d;
    if x < 0 {
        if r == 0 {
            assert(-x == (-q) * d + 0) by (nonlinear_arith)
                requires
                    x == d * q + r,
                    r == 0,
            ;
            vstd::arithmetic::div_mod::lemma_fundamental_div_mod_converse(-x, d, -q, 0);
        } else {
            assert(-x == (-q - 1) * d + (d - r)) by (nonlinear_arith)
                requires
                    x == d * q + r,
            ;
            vstd::arithmetic::div_mod::lemma_fundamental_div_mod_converse(-x, d, -q - 1, d - r);
        }
        assert(trem(x, d) == x - d * tdiv(x, d));
        assert(x - d * (q + 1) == r - d) by (nonlinear_arith)
            requires
                x == d * q + r,
        ;
    }
}

/// Day numbers from 0 on name days from 1970 on, so the count from 1970
/// (`civil_from_days`, as `days_to_ymd` computes it) and the count by
/// eras (`civil_day`) name the same day.
pub proof fn law_day_conversions_agree(n: nat)
    ensures
        civil_from_days(n) == civil_day(n as int),
{
    law_civil_day_inverts_day_number(1970, 1, 1, n as int);
    let t = civil_day(n as int);
    if t.0 < 1970 {
        crate::calendar::lemma_day_in_year(t.0, t.1, t.2);
        lemma_days_before_year_closed(t.0 + 1);
        lemma_days_before_year_closed(1970);
        lemma_march_year_start_mono(t.0, 1969);
        lemma_days_before_year_step(t.0);
    }
    assert(t.0 >= 1970 && valid_date(t.0, t.1, t.2) && day_number(t.0, t.1, t.2) == n);
    let c = civil_from_days(n);
    lemma_day_number_injective_all(c.0, c.1, c.2, t.0, t.1, t.2);
}

} // verus!
