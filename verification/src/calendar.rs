use vstd::prelude::*;

verus! {

/// Whether `y` is a leap year of the proleptic Gregorian calendar.
pub open spec fn is_leap_year(y: int) -> bool {
    y % 4 == 0 && (y % 100 != 0 || y % 400 == 0)
}

/// Number of days of month `m` (1 = January) of year `y`.
pub open spec fn days_in_month(y: int, m: int) -> int {
    if m == 2 {
        if is_leap_year(y) { 29 } else { 28 }
    } else if m == 4 || m == 6 || m == 9 || m == 11 {
        30
    } else {
        31
    }
}

/// Days in the months of year `y` that come before month `m` (1 = January).
pub open spec fn days_before_month(y: int, m: int) -> int {
    let plain: int = if m <= 1 { 0 }
        else if m == 2 { 31 }
        else if m == 3 { 59 }
        else if m == 4 { 90 }
        else if m == 5 { 120 }
        else if m == 6 { 151 }
        else if m == 7 { 181 }
        else if m == 8 { 212 }
        else if m == 9 { 243 }
        else if m == 10 { 273 }
        else if m == 11 { 304 }
        else { 334 };
    if m > 2 && is_leap_year(y) { plain + 1 } else { plain }
}

/// Days from 0000-01-01 to `y`-01-01: 365 per year plus one per leap year
/// among the years `0 .. y` (negative for a year before 0).
pub open spec fn days_before_year(y: int) -> int {
    365 * y + (y + 3) / 4 - (y + 99) / 100 + (y + 399) / 400
}

/// Days from 1970-01-01 to the date `y`-`m`-`d`.
pub open spec fn days_from_civil(y: int, m: int, d: int) -> int {
    days_before_year(y) + days_before_month(y, m) + d - 1 - days_before_year(1970)
}

/// `y`-`m`-`d` names a day of the calendar.
pub open spec fn is_valid_date(y: int, m: int, d: int) -> bool {
    1 <= m <= 12 && 1 <= d <= days_in_month(y, m)
}

/// Days before the March-based year `yoe` of a 400-year era.
pub open spec fn days_before_year_of_era(yoe: int) -> int {
    365 * yoe + yoe / 4 - yoe / 100
}

/// The March-based year of the era that day `doe` of the era falls in.
pub open spec fn year_of_era(doe: int) -> int {
    (doe - doe / 1460 + doe / 36524 - doe / 146096) / 365
}

/// The calendar date `(year, month, day)` of the day `days` after 1970-01-01,
/// computed era by era over March-based years.
pub open spec fn civil_date(days: int) -> (int, int, int) {
    let z = days + 719468;
    let era = z / 146097;
    let doe = z - era * 146097;
    let yoe = year_of_era(doe);
    let y = yoe + era * 400;
    let doy = doe - days_before_year_of_era(yoe);
    let mp = (5 * doy + 2) / 153;
    let d = doy - (153 * mp + 2) / 5 + 1;
    let m = if mp < 10 { mp + 3 } else { mp - 9 };
    (if m <= 2 { y + 1 } else { y }, m, d)
}

/// Bounds of the year-of-era step: the year found starts no later than the day,
/// and the day lies inside that March-based year.
proof fn lemma_year_of_era_bv(doe: u64)
    by (bit_vector)
    requires
        doe < 146097,
    ensures
        ((doe - doe / 1460 + doe / 36524 - doe / 146096) / 365) <= 399,
        365 * ((doe - doe / 1460 + doe / 36524 - doe / 146096) / 365)
            + ((doe - doe / 1460 + doe / 36524 - doe / 146096) / 365) / 4
            - ((doe - doe / 1460 + doe / 36524 - doe / 146096) / 365) / 100 <= doe,
        doe - (365 * ((doe - doe / 1460 + doe / 36524 - doe / 146096) / 365)
            + ((doe - doe / 1460 + doe / 36524 - doe / 146096) / 365) / 4
            - ((doe - doe / 1460 + doe / 36524 - doe / 146096) / 365) / 100) <= 365,
{
}

/// The 366th day of a March-based year only exists when the February that
/// closes it has a 29th.
proof fn lemma_year_of_era_leap_bv(doe: u64, yoe: u64)
    by (bit_vector)
    requires
        doe < 146097,
        365 * yoe <= doe - doe / 1460 + doe / 36524 - doe / 146096,
        doe - doe / 1460 + doe / 36524 - doe / 146096 < 365 * yoe + 365,
        365 * yoe + yoe / 4 - yoe / 100 + 365 <= doe,
    ensures
        yoe % 4 == 3,
        yoe % 100 != 99 || yoe == 399,
{
}

/// Month and day inside a March-based year: the month index `mp` (0 = March)
/// and the offset of its first day.
proof fn lemma_month_of_year_bv(doy: u64, mp: u64, start: u64)
    by (bit_vector)
    requires
        doy <= 365,
        153 * mp <= 5 * doy + 2,
        5 * doy + 2 < 153 * mp + 153,
        5 * start <= 153 * mp + 2,
        153 * mp + 2 < 5 * start + 5,
    ensures
        mp <= 11,
        start <= doy,
        mp < 11 ==> doy - start < 31,
        (mp == 1 || mp == 3 || mp == 6 || mp == 8) ==> doy - start < 30,
        mp == 11 ==> start == 337,
{
}

/// Shifting a year by whole 400-year eras shifts its first day by whole eras.
proof fn lemma_days_before_year_era(e: int, k: int)
    ensures
        days_before_year(400 * e + k) == 146097 * e + days_before_year(k),
{
    assert((400 * e + k + 3) / 4 == 100 * e + (k + 3) / 4) by {
        vstd::arithmetic::div_mod::lemma_hoist_over_denominator(k + 3, 100 * e, 4);
    }
    assert((400 * e + k + 99) / 100 == 4 * e + (k + 99) / 100) by {
        vstd::arithmetic::div_mod::lemma_hoist_over_denominator(k + 99, 4 * e, 100);
    }
    assert((400 * e + k + 399) / 400 == e + (k + 399) / 400) by {
        vstd::arithmetic::div_mod::lemma_hoist_over_denominator(k + 399, e, 400);
    }
}

/// Year-start counts inside an era, against the March-based count.
proof fn lemma_year_start_in_era(yoe: int)
    requires
        0 <= yoe <= 399,
    ensures
        days_before_year(yoe) + 59 + (if is_leap_year(yoe) { 1int } else { 0int })
            == days_before_year_of_era(yoe) + 60,
        days_before_year(yoe + 1) == days_before_year_of_era(yoe) + 366,
{
}

/// What one era's day `doe` decomposes into: a March-based year, a day of
/// that year, a month index (0 = March) and a day of the month.
pub(crate) proof fn lemma_day_of_era(doe: int)
    requires
        0 <= doe < 146097,
    ensures
        0 <= year_of_era(doe) <= 399,
        0 <= doe - days_before_year_of_era(year_of_era(doe)) <= 365,
        doe - days_before_year_of_era(year_of_era(doe)) == 365 ==> is_leap_year(
            year_of_era(doe) + 1,
        ),
{
    let yoe = year_of_era(doe);
    lemma_year_of_era_bv(doe as u64);
    let doy = doe - days_before_year_of_era(yoe);
    if doy == 365 {
        lemma_year_of_era_leap_bv(doe as u64, yoe as u64);
    }
}

/// The month index and day of the month of day `doy` of a March-based year.
pub(crate) proof fn lemma_day_of_year(doy: int)
    requires
        0 <= doy <= 365,
    ensures
        0 <= (5 * doy + 2) / 153 <= 11,
        ((153 * ((5 * doy + 2) / 153) + 2) / 5) <= doy,
        (5 * doy + 2) / 153 < 11 ==> doy - ((153 * ((5 * doy + 2) / 153) + 2) / 5) < 31,
        ((5 * doy + 2) / 153 == 1 || (5 * doy + 2) / 153 == 3 || (5 * doy + 2) / 153 == 6
            || (5 * doy + 2) / 153 == 8) ==> doy - ((153 * ((5 * doy + 2) / 153) + 2) / 5) < 30,
        (5 * doy + 2) / 153 == 11 ==> (153 * ((5 * doy + 2) / 153) + 2) / 5 == 337,
        (5 * doy + 2) / 153 < 10 ==> ((153 * ((5 * doy + 2) / 153) + 2) / 5) + 59
            == days_before_month(2001, (5 * doy + 2) / 153 + 3),
        (5 * doy + 2) / 153 == 10 ==> (153 * ((5 * doy + 2) / 153) + 2) / 5 == 306,
{
    let mp = (5 * doy + 2) / 153;
    let start = (153 * mp + 2) / 5;
    lemma_month_of_year_bv(doy as u64, mp as u64, start as u64);
}

/// Whole 400-year eras do not change whether a year is a leap year.
proof fn lemma_leap_year_era(e: int, k: int)
    ensures
        is_leap_year(400 * e + k) == is_leap_year(k),
{
    vstd::arithmetic::div_mod::lemma_mod_multiples_vanish(100 * e, k, 4);
    vstd::arithmetic::div_mod::lemma_mod_multiples_vanish(4 * e, k, 100);
    vstd::arithmetic::div_mod::lemma_mod_multiples_vanish(e, k, 400);
}

/// The date `civil_date(days)` is a real calendar date, and it lies exactly
/// `days` days after 1970-01-01.
#[verifier::spinoff_prover]
pub proof fn lemma_civil_date_correct(days: int)
    ensures
        is_valid_date(civil_date(days).0, civil_date(days).1, civil_date(days).2),
        days_from_civil(civil_date(days).0, civil_date(days).1, civil_date(days).2) == days,
{
    let z = days + 719468;
    let era = z / 146097;
    let doe = z - era * 146097;
    assert(0 <= doe < 146097);
    let yoe = year_of_era(doe);
    lemma_day_of_era(doe);
    let doy = doe - days_before_year_of_era(yoe);
    lemma_day_of_year(doy);
    let mp = (5 * doy + 2) / 153;
    let start = (153 * mp + 2) / 5;
    let d = doy - start + 1;
    let y = yoe + era * 400;
    let m = if mp < 10 { mp + 3 } else { mp - 9 };
    let year = if m <= 2 { y + 1 } else { y };
    assert(civil_date(days) == (year, m, d));
    lemma_year_start_in_era(yoe);
    assert(days_before_year(1970) == 719528);
    assert(days == era * 146097 + days_before_year_of_era(yoe) + doy - 719468);
    if mp < 10 {
        lemma_days_before_year_era(era, yoe);
        lemma_leap_year_era(era, yoe);
        assert(days_before_month(y, m) == days_before_month(2001, m) + (if is_leap_year(yoe) {
            1int
        } else {
            0int
        }));
        assert(days_from_civil(year, m, d) == days);
        assert(is_valid_date(year, m, d));
    } else {
        lemma_days_before_year_era(era, yoe + 1);
        lemma_leap_year_era(era, yoe + 1);
        assert(days_from_civil(year, m, d) == days);
        assert(is_valid_date(year, m, d));
    }
}

/// `(y + d - 1) / d` counts the multiples of `d` in `0 .. y`; moving to
/// `y + 1` adds one exactly when `y` is such a multiple.
proof fn lemma_count_multiples_step(y: int, d: int)
    requires
        d > 0,
    ensures
        (y + d) / d - (y + d - 1) / d == (if y % d == 0 { 1int } else { 0int }),
{
    let q = y / d;
    let r = y % d;
    vstd::arithmetic::div_mod::lemma_fundamental_div_mod(y, d);
    vstd::arithmetic::div_mod::lemma_mod_bound(y, d);
    vstd::arithmetic::mul::lemma_mul_is_distributive_add(d, q, 1);
    assert(y + d == d * (q + 1) + r);
    vstd::arithmetic::div_mod::lemma_div_multiples_vanish_fancy(q + 1, r, d);
    if r == 0 {
        assert(y + d - 1 == d * q + (d - 1));
        vstd::arithmetic::div_mod::lemma_div_multiples_vanish_fancy(q, d - 1, d);
    } else {
        assert(y + d - 1 == d * (q + 1) + (r - 1));
        vstd::arithmetic::div_mod::lemma_div_multiples_vanish_fancy(q + 1, r - 1, d);
    }
}

/// Each year adds 365 days to the count, and one more when it is a leap
/// year; the count starts at year 0.
pub proof fn lemma_days_before_year_step(y: int)
    ensures
        days_before_year(0) == 0,
        days_before_year(y + 1) == days_before_year(y) + 365 + (if is_leap_year(y) {
            1int
        } else {
            0int
        }),
{
    lemma_count_multiples_step(y, 4);
    lemma_count_multiples_step(y, 100);
    lemma_count_multiples_step(y, 400);
}

} // verus!
