//! Conversions between day numbers (days since 1970-01-01) and dates of
//! the proleptic Gregorian calendar, for `Date`.
use vstd::prelude::*;

verus! {

/// Division that rounds toward zero, as Rust's `/` does on integers.
pub open spec fn tdiv(a: int, b: int) -> int {
    if a >= 0 { a / b } else { -((-a) / b) }
}

pub open spec fn fits_i64(x: int) -> bool {
    i64::MIN <= x <= i64::MAX
}

/// The year counted from March: January and February belong to the year
/// before.
pub open spec fn march_year(y: int, m: int) -> int {
    if m <= 2 { y - 1 } else { y }
}

/// The 400-year era of a March-based year.
pub open spec fn era_of(yy: int) -> int {
    tdiv(if yy >= 0 { yy } else { yy - 399 }, 400)
}

/// The month counted from March (March is 0).
pub open spec fn march_month(m: int) -> int {
    m + if m > 2 { -3int } else { 9int }
}

/// The day of the March-based year.
pub open spec fn day_of_year(m: int, d: int) -> int {
    tdiv(153 * march_month(m) + 2, 5) + d - 1
}

/// The day of the era, from the year of the era and the day of the year.
pub open spec fn day_of_era(yoe: int, doy: int) -> int {
    yoe * 365 + tdiv(yoe, 4) - tdiv(yoe, 100) + doy
}

/// The day number of the date `y`-`m`-`d`.
pub open spec fn civil_to_days(y: int, m: int, d: int) -> int {
    let yy = march_year(y, m);
    let era = era_of(yy);
    let yoe = yy - era * 400;
    era * 146_097 + day_of_era(yoe, day_of_year(m, d)) - 719_468
}

/// Every step of computing the day number of `y`-`m`-`d` fits in an `i64`.
pub open spec fn civil_to_days_fits(y: int, m: int, d: int) -> bool {
    let yy = march_year(y, m);
    let era = era_of(yy);
    let yoe = yy - era * 400;
    let mi = march_month(m);
    let doy = day_of_year(m, d);
    let doe = day_of_era(yoe, doy);
    &&& fits_i64(yy)
    &&& fits_i64(yy - 399)
    &&& fits_i64(mi)
    &&& fits_i64(153 * mi)
    &&& fits_i64(153 * mi + 2)
    &&& fits_i64(tdiv(153 * mi + 2, 5) + d)
    &&& fits_i64(doy)
    &&& fits_i64(doe)
    &&& fits_i64(era * 146_097)
    &&& fits_i64(era * 146_097 + doe)
    &&& fits_i64(era * 146_097 + doe - 719_468)
}

/// The day number of the date `year`-`month`-`day`: days since 1970-01-01.
pub fn days_from_civil(year: i64, month: i64, day: i64) -> (r: i64)
    requires civil_to_days_fits(year as int, month as int, day as int),
    ensures r == civil_to_days(year as int, month as int, day as int),
{
    let year = year - if month <= 2 { 1i64 } else { 0i64 };
    let era = (if year >= 0 { year } else { year - 399 }) / 400;
    assert(-23058430092136940 <= era <= 23058430092136940);
    let year_of_era = year - era * 400;
    assert(0 <= year_of_era < 400) by {
        assert(era == era_of(year as int));
    }
    let month_index = month + if month > 2 { -3i64 } else { 9i64 };
    let day_of_year = (153 * month_index + 2) / 5 + day - 1;
    let day_of_era = year_of_era * 365 + year_of_era / 4 - year_of_era / 100 + day_of_year;
    era * 146_097 + day_of_era - 719_468
}


/// The year of the era that the day of the era `doe` falls in.
pub open spec fn year_of_era(doe: int) -> int {
    tdiv(doe - tdiv(doe, 1_460) + tdiv(doe, 36_524) - tdiv(doe, 146_096), 365)
}

/// The date `(year, month, day)` of the day number `z`.
pub open spec fn days_to_civil(z: int) -> (int, int, int) {
    let days = z + 719_468;
    let era = tdiv(if days >= 0 { days } else { days - 146_096 }, 146_097);
    let doe = days - era * 146_097;
    let yoe = year_of_era(doe);
    let doy = doe - (365 * yoe + tdiv(yoe, 4) - tdiv(yoe, 100));
    let mp = tdiv(5 * doy + 2, 153);
    let d = doy - tdiv(153 * mp + 2, 5) + 1;
    let m = mp + if mp < 10 { 3int } else { -9int };
    let y = yoe + era * 400 + if m <= 2 { 1int } else { 0int };
    (y, m, d)
}

/// Every step of computing the date of the day number `z` fits in an `i64`.
pub open spec fn days_to_civil_fits(z: int) -> bool {
    &&& fits_i64(z + 719_468)
    &&& fits_i64(z + 719_468 - 146_096)
}

/// The date `(year, month, day)` of the day number `days`.
pub fn civil_from_days(days: i64) -> (r: (i64, i64, i64))
    requires days_to_civil_fits(days as int),
    ensures (r.0 as int, r.1 as int, r.2 as int) == days_to_civil(days as int),
{
    let days = days + 719_468;
    let era = (if days >= 0 { days } else { days - 146_096 }) / 146_097;
    let day_of_era = days - era * 146_097;
    assert(0 <= day_of_era < 146_097);
    let year_of_era =
        (day_of_era - day_of_era / 1_460 + day_of_era / 36_524 - day_of_era / 146_096) / 365;
    assert(0 <= year_of_era <= 401);
    let mut year = year_of_era + era * 400;
    let day_of_year = day_of_era - (365 * year_of_era + year_of_era / 4 - year_of_era / 100);
    let month_index = (5 * day_of_year + 2) / 153;
    let day = day_of_year - (153 * month_index + 2) / 5 + 1;
    let month = month_index + if month_index < 10 { 3i64 } else { -9i64 };
    year = year + if month <= 2 { 1i64 } else { 0i64 };
    (year, month, day)
}


/// Days from the start of a March-based era to the start of its year `yoe`.
pub open spec fn era_year_start(yoe: int) -> int {
    365 * yoe + yoe / 4 - yoe / 100
}

/// The length of the March-based year `yoe` of an era: 366 when the
/// February it ends with has a 29th.
pub open spec fn era_year_len(yoe: int) -> int {
    if yoe % 4 == 3 && (yoe % 100 != 99 || yoe == 399) { 366 } else { 365 }
}

/// The year of the era is found back from any of its days.
proof fn lemma_year_of_era(yoe: int, k: int)
    requires
        0 <= yoe <= 399,
        0 <= k < era_year_len(yoe),
    ensures
        year_of_era(era_year_start(yoe) + k) == yoe,
{
    let c = yoe / 100;
    let q = (yoe % 100) / 4;
    let b = yoe % 4;
    assert(yoe == 100 * c + 4 * q + b);
    assert(0 <= c <= 3 && 0 <= q <= 24 && 0 <= b <= 3);
    assert(yoe / 4 == 25 * c + q);
    assert(era_year_start(yoe) == 36_524 * c + 1_461 * q + 365 * b);
    let doe = era_year_start(yoe) + k;
    let t = 24 * c + q + 365 * b + k;
    assert(doe == 1_460 * (25 * c + q) + t);
    assert(0 <= t < 2 * 1_460);
    assert(doe / 1_460 == 25 * c + q + t / 1_460);
    assert(doe / 36_524 - doe / 146_096 == c);
    assert(t / 1_460 == 0 ==> k <= 364);
    assert(t / 1_460 == 1 ==> k >= 1);
}


/// Every day of an era falls in one of its years.
proof fn lemma_era_day_split(doe: int) -> (r: (int, int))
    requires 0 <= doe < 146_097,
    ensures
        0 <= r.0 <= 399,
        0 <= r.1 < era_year_len(r.0),
        doe == era_year_start(r.0) + r.1,
{
    let c: int = if doe / 36_524 > 3 { 3 } else { doe / 36_524 };
    let r1 = doe - 36_524 * c;
    assert(0 <= r1 <= 36_524);
    let q: int = if r1 / 1_461 > 24 { 24 } else { r1 / 1_461 };
    let r2 = r1 - 1_461 * q;
    assert(0 <= r2 <= 1_460);
    let b: int = if r2 / 365 > 3 { 3 } else { r2 / 365 };
    let k = r2 - 365 * b;
    let yoe = 100 * c + 4 * q + b;
    assert(yoe / 4 == 25 * c + q);
    assert(yoe / 100 == c);
    assert(yoe % 4 == b);
    assert(yoe % 100 == 4 * q + b);
    assert(era_year_start(yoe) == 36_524 * c + 1_461 * q + 365 * b);
    (yoe, k)
}

/// Rounding toward zero after moving a negative numerator down by
/// `n - 1` is rounding down.
proof fn lemma_floor_by_400(x: int)
    ensures tdiv(if x >= 0 { x } else { x - 399 }, 400) == x / 400,
{
}

proof fn lemma_floor_by_146097(x: int)
    ensures tdiv(if x >= 0 { x } else { x - 146_096 }, 146_097) == x / 146_097,
{
}

/// Days before the start of the March-based month `mi` (March is 0).
pub open spec fn month_start(mi: int) -> int {
    (153 * mi + 2) / 5
}

/// The March-based month of a day of the year is found back.
proof fn lemma_month_of_day(doy: int)
    requires 0 <= doy <= 365,
    ensures ({
        let mp = (5 * doy + 2) / 153;
        &&& 0 <= mp <= 11
        &&& month_start(mp) <= doy
        &&& mp < 11 ==> doy < month_start(mp + 1)
    }),
{
}

/// Going from a day number to its date and back gives the day number.
pub proof fn law_days_to_civil_to_days(z: int)
    ensures ({
        let (y, m, d) = days_to_civil(z);
        civil_to_days(y, m, d) == z
    }),
{
    let days = z + 719_468;
    lemma_floor_by_146097(days);
    let era = days / 146_097;
    let doe = days - era * 146_097;
    assert(0 <= doe < 146_097);
    let (yoe0, k) = lemma_era_day_split(doe);
    lemma_year_of_era(yoe0, k);
    let yoe = year_of_era(doe);
    assert(yoe == yoe0);
    assert(tdiv(yoe, 4) == yoe / 4 && tdiv(yoe, 100) == yoe / 100);
    let doy = doe - (365 * yoe + tdiv(yoe, 4) - tdiv(yoe, 100));
    assert(doy == k);
    lemma_month_of_day(doy);
    let mp = tdiv(5 * doy + 2, 153);
    let (y, m, d) = days_to_civil(z);
    assert(d == doy - month_start(mp) + 1);
    assert(march_month(m) == mp);
    assert(march_year(y, m) == yoe + era * 400);
    lemma_floor_by_400(yoe + era * 400);
    assert((yoe + era * 400) / 400 == era);
    assert(era_of(march_year(y, m)) == era);
    assert(day_of_year(m, d) == doy);
}


/// The date of every day number is a date of the calendar.
pub proof fn law_days_to_civil_valid(z: int)
    ensures ({
        let (y, m, d) = days_to_civil(z);
        is_valid_date(y, m, d)
    }),
{
    let days = z + 719_468;
    lemma_floor_by_146097(days);
    let era = days / 146_097;
    let doe = days - era * 146_097;
    let (yoe0, k) = lemma_era_day_split(doe);
    lemma_year_of_era(yoe0, k);
    let yoe = year_of_era(doe);
    assert(tdiv(yoe, 4) == yoe / 4 && tdiv(yoe, 100) == yoe / 100);
    let doy = doe - (365 * yoe + tdiv(yoe, 4) - tdiv(yoe, 100));
    assert(doy == k);
    lemma_month_of_day(doy);
    let mp = tdiv(5 * doy + 2, 153);
    let (y, m, d) = days_to_civil(z);
    assert(d == doy - month_start(mp) + 1);
    assert(month_start(0) == 0 && month_start(1) == 31 && month_start(2) == 61
        && month_start(3) == 92 && month_start(4) == 122 && month_start(5) == 153
        && month_start(6) == 184 && month_start(7) == 214 && month_start(8) == 245
        && month_start(9) == 275 && month_start(10) == 306 && month_start(11) == 337);
    if mp == 11 {
        assert(m == 2);
        lemma_february_leap(y);
        assert(y - 1 == yoe + era * 400);
        lemma_floor_by_400(y - 1);
        assert((y - 1) / 400 == era);
        assert(doy < era_year_len(yoe));
    }
}

/// Whether `y` is a leap year of the proleptic Gregorian calendar.
pub open spec fn is_leap_year(y: int) -> bool {
    y % 4 == 0 && (y % 100 != 0 || y % 400 == 0)
}

/// The number of days of month `m` (1 to 12) of year `y`.
pub open spec fn days_in_month(y: int, m: int) -> int {
    if m == 2 {
        if is_leap_year(y) { 29 } else { 28 }
    } else if m == 4 || m == 6 || m == 9 || m == 11 {
        30
    } else {
        31
    }
}

/// Whether `y`-`m`-`d` is a date of the calendar.
pub open spec fn is_valid_date(y: int, m: int, d: int) -> bool {
    1 <= m <= 12 && 1 <= d <= days_in_month(y, m)
}

/// The days of a month of the March-based year: the day of the year of day
/// `d` of month `m` lies in the month.
proof fn lemma_month_bounds(m: int, d: int, leap: bool)
    requires
        1 <= m <= 12,
        1 <= d,
        m == 2 ==> d <= (if leap { 29int } else { 28int }),
        (m == 4 || m == 6 || m == 9 || m == 11) ==> d <= 30,
        d <= 31,
    ensures ({
        let mi = march_month(m);
        let doy = day_of_year(m, d);
        &&& 0 <= mi <= 11
        &&& doy == month_start(mi) + d - 1
        &&& 0 <= doy
        &&& doy < 365 + (if m == 2 && leap { 1int } else { 0int })
        &&& month_start(mi) <= doy
        &&& mi < 11 ==> doy < month_start(mi + 1)
    }),
{
    let mi = march_month(m);
    assert(0 <= 153 * mi + 2);
}

/// February of year `y` ends the March-based year that began a year
/// before, and has a 29th just when that year is 366 days long.
proof fn lemma_february_leap(y: int)
    ensures ({
        let yy = y - 1;
        let yoe = yy - (yy / 400) * 400;
        &&& 0 <= yoe <= 399
        &&& is_leap_year(y) <==> era_year_len(yoe) == 366
    }),
{
    let yy = y - 1;
    let era = yy / 400;
    let yoe = yy - era * 400;
    assert(y == yoe + 1 + 400 * era);
    assert(y % 4 == (yoe + 1) % 4) by (nonlinear_arith)
        requires y == yoe + 1 + 400 * era;
    assert(y % 100 == (yoe + 1) % 100) by (nonlinear_arith)
        requires y == yoe + 1 + 400 * era;
    assert(y % 400 == (yoe + 1) % 400) by (nonlinear_arith)
        requires y == yoe + 1 + 400 * era;
}

/// A valid date's day of the March-based year lies in its year, and in its
/// month.
proof fn lemma_valid_day_of_year(y: int, m: int, d: int)
    requires is_valid_date(y, m, d),
    ensures ({
        let yy = march_year(y, m);
        let yoe = yy - (yy / 400) * 400;
        let mi = march_month(m);
        let doy = day_of_year(m, d);
        &&& 0 <= yoe <= 399
        &&& 0 <= mi <= 11
        &&& doy == month_start(mi) + d - 1
        &&& 0 <= doy < era_year_len(yoe)
        &&& month_start(mi) <= doy
        &&& mi < 11 ==> doy < month_start(mi + 1)
    }),
{
    lemma_month_bounds(m, d, is_leap_year(y));
    lemma_february_leap(y);
}

/// The March-based month of a day is the only month that holds it.
proof fn lemma_month_unique(doy: int, mi: int)
    requires
        0 <= doy <= 365,
        0 <= mi <= 11,
        month_start(mi) <= doy,
        mi < 11 ==> doy < month_start(mi + 1),
    ensures (5 * doy + 2) / 153 == mi,
{
    lemma_month_of_day(doy);
    let mp = (5 * doy + 2) / 153;
    if mp < mi {
        assert(month_start(mp + 1) <= month_start(mi));
    } else if mp > mi {
        assert(month_start(mi + 1) <= month_start(mp));
    }
}

/// Going from a date to its day number and back gives the date.
pub proof fn law_civil_to_days_to_civil(y: int, m: int, d: int)
    requires is_valid_date(y, m, d),
    ensures days_to_civil(civil_to_days(y, m, d)) == (y, m, d),
{
    let yy = march_year(y, m);
    lemma_floor_by_400(yy);
    let era = yy / 400;
    let yoe = yy - era * 400;
    let mi = march_month(m);
    let doy = day_of_year(m, d);
    lemma_valid_day_of_year(y, m, d);
    lemma_year_of_era(yoe, doy);
    let doe = era_year_start(yoe) + doy;
    assert(day_of_era(yoe, doy) == doe);
    assert(0 <= doe < 146_097);
    let z = civil_to_days(y, m, d);
    assert(z == era * 146_097 + doe - 719_468);
    let days = z + 719_468;
    lemma_floor_by_146097(days);
    assert(days / 146_097 == era);
    assert(days - era * 146_097 == doe);
    assert(year_of_era(doe) == yoe);
    assert(doe - (365 * yoe + tdiv(yoe, 4) - tdiv(yoe, 100)) == doy);
    lemma_month_unique(doy, mi);
    assert(tdiv(5 * doy + 2, 153) == mi);
    assert(doy - tdiv(153 * mi + 2, 5) + 1 == d);
}

} // verus!
