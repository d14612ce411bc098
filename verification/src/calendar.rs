//! Dates in the proleptic Gregorian calendar, counted in days.
//!
//! A day count becomes a date by Howard Hinnant's `civil_from_days`, which
//! works in 400-year eras of 146097 days, each era counted from the first of
//! March so that the leap day falls at the end of its year.
use vstd::prelude::*;

verus! {

/// Days from 1970-01-01 back to 2000-01-01, the J2000 date.
pub const J2000_UNIX_DAYS: i64 = 10957;

pub open spec fn is_leap_year(year: int) -> bool {
    (year % 4 == 0 && year % 100 != 0) || year % 400 == 0
}

/// How many days a month of a year has; `month` runs `1..=12`.
pub open spec fn month_length(year: int, month: int) -> int {
    if month == 2 {
        if is_leap_year(year) {
            29
        } else {
            28
        }
    } else if month == 4 || month == 6 || month == 9 || month == 11 {
        30
    } else {
        31
    }
}

/// Whether a year, month and day name a day that exists.
pub open spec fn is_date(year: int, month: int, day: int) -> bool {
    1 <= month <= 12 && 1 <= day <= month_length(year, month)
}

/// Days before the start of month `mp` of a year counted from March, with
/// March as month 0.
pub open spec fn days_before_month(mp: int) -> int {
    (153 * mp + 2) / 5
}

/// Days before year `yoe` of an era, counted from the era's first March.
pub open spec fn days_before_year(yoe: int) -> int {
    365 * yoe + yoe / 4 - yoe / 100
}

/// The day a date falls on, counted from 1970-01-01.
pub open spec fn days_from_civil(year: int, month: int, day: int) -> int {
    let y = if month <= 2 {
        year - 1
    } else {
        year
    };
    let era = y / 400;
    let yoe = y - era * 400;
    let mp = if month > 2 {
        month - 3
    } else {
        month + 9
    };
    let doe = days_before_year(yoe) + days_before_month(mp) + day - 1;
    era * 146097 + doe - 719468
}

/// Where a day of an era falls: the year of the era it belongs to, no more
/// than 365 days in, and only 365 days in on the leap day.
proof fn lemma_year_of_era(doe: int)
    requires
        0 <= doe <= 146096,
    ensures
        ({
            let yoe = (doe - doe / 1460 + doe / 36524 - doe / 146096) / 365;
            let doy = doe - days_before_year(yoe);
            &&& 0 <= yoe <= 399
            &&& 0 <= doy <= 365
            &&& doy == 365 ==> (yoe + 1) % 4 == 0 && ((yoe + 1) % 100 != 0 || yoe == 399)
        }),
{
}


/// The month of a year counted from March, and the day of that month, that
/// a day of such a year falls on.
proof fn lemma_month_of_year(doy: int)
    requires
        0 <= doy <= 365,
    ensures
        ({
            let mp = (5 * doy + 2) / 153;
            let day = doy - days_before_month(mp) + 1;
            &&& 0 <= mp <= 11
            &&& 1 <= day
            &&& mp < 11 ==> day <= days_before_month(mp + 1) - days_before_month(mp)
            &&& mp == 11 ==> day <= 29 && (day == 29 ==> doy == 365)
        }),
{
}

/// The date Hinnant's algorithm reads off a day count `z`, counted from
/// 0000-03-01.
spec fn civil(z: int) -> (int, int, int) {
    let era = z / 146097;
    let doe = z - era * 146097;
    let yoe = (doe - doe / 1460 + doe / 36524 - doe / 146096) / 365;
    let doy = doe - days_before_year(yoe);
    let mp = (5 * doy + 2) / 153;
    let day = doy - days_before_month(mp) + 1;
    let month = if mp < 10 {
        mp + 3
    } else {
        mp - 9
    };
    let year = yoe + era * 400;
    (if month <= 2 {
        year + 1
    } else {
        year
    }, month, day)
}

proof fn lemma_civil(z: int)
    ensures
        is_date(civil(z).0, civil(z).1, civil(z).2),
        days_from_civil(civil(z).0, civil(z).1, civil(z).2) == z - 719468,
{
    let era = z / 146097;
    let doe = z - era * 146097;
    assert(0 <= doe <= 146096);
    lemma_year_of_era(doe);
    let yoe = (doe - doe / 1460 + doe / 36524 - doe / 146096) / 365;
    let doy = doe - days_before_year(yoe);
    lemma_month_of_year(doy);
    let mp = (5 * doy + 2) / 153;
    let year = yoe + era * 400;
    assert(year / 400 == era);
    let (y_out, month, day) = civil(z);
    if month <= 2 {
        assert(y_out % 4 == (yoe + 1) % 4);
        assert(y_out % 100 == (yoe + 1) % 100);
        assert(y_out % 400 == (yoe + 1) % 400);
    }
}

/// `z / 146097`, rounded down whatever the sign.
fn era_of(z: i64) -> (era: i64)
    ensures
        era == z as int / 146097,
{
    if z >= 0 {
        z / 146097
    } else {
        // Below zero, rounding down is one less than the quotient of the
        // distance below -1.
        let below = (-(z + 1)) as u64;
        let q = below / 146097;
        proof {
            let (zi, qi) = (z as int, q as int);
            assert(zi / 146097 == -qi - 1) by (nonlinear_arith)
                requires
                    zi < 0,
                    qi * 146097 <= -(zi + 1) < qi * 146097 + 146097,
            ;
        }
        -(q as i64) - 1
    }
}

/// The date a day falls on: its year, month `1..=12` and day of the month.
///
/// `days_since_j2000` counts from 2000-01-01; the answer is the one date that
/// exists and is that many days on, whatever the sign.
pub fn civil_from_days(days_since_j2000: i64) -> (date: (i64, u32, u32))
    requires
        days_since_j2000 <= i64::MAX - J2000_UNIX_DAYS - 719468,
    ensures
        is_date(date.0 as int, date.1 as int, date.2 as int),
        days_from_civil(date.0 as int, date.1 as int, date.2 as int) == days_since_j2000 + J2000_UNIX_DAYS,
{
    let days = days_since_j2000 + J2000_UNIX_DAYS;
    let z = days + 719468;
    let era = era_of(z);
    proof {
        lemma_civil(z as int);
        lemma_year_of_era(z - era * 146097);
    }
    let day_of_era = (z - era * 146097) as u64;
    let year_of_era = (day_of_era - day_of_era / 1460 + day_of_era / 36524 - day_of_era / 146096) / 365;
    let year = year_of_era as i64 + era * 400;
    let day_of_year = day_of_era - (365 * year_of_era + year_of_era / 4 - year_of_era / 100);
    proof {
        lemma_month_of_year(day_of_year as int);
    }
    let month_prime = (5 * day_of_year + 2) / 153;
    let day = (day_of_year - (153 * month_prime + 2) / 5 + 1) as u32;
    let month = (if month_prime < 10 {
        month_prime + 3
    } else {
        month_prime - 9
    }) as u32;
    let year_out = if month <= 2 {
        year + 1
    } else {
        year
    };
    assert((year_out as int, month as int, day as int) == civil(z as int));
    (year_out, month, day)
}


/// A day of a year counted from March, read back from the day of its era.
proof fn lemma_day_of_era(yoe: int, doy: int)
    requires
        0 <= yoe <= 399,
        0 <= doy <= 364 || (doy == 365 && (yoe + 1) % 4 == 0 && ((yoe + 1) % 100 != 0 || yoe == 399)),
    ensures
        ({
            let doe = days_before_year(yoe) + doy;
            &&& 0 <= doe <= 146096
            &&& (doe - doe / 1460 + doe / 36524 - doe / 146096) / 365 == yoe
        }),
{
}

/// A day of a month counted from March, read back from the day of its year.
proof fn lemma_day_of_year(mp: int, day: int)
    requires
        0 <= mp <= 11,
        1 <= day,
        mp < 11 ==> day <= days_before_month(mp + 1) - days_before_month(mp),
        mp == 11 ==> day <= 29,
    ensures
        ({
            let doy = days_before_month(mp) + day - 1;
            &&& 0 <= doy <= 365
            &&& (5 * doy + 2) / 153 == mp
            &&& doy == 365 <==> (mp == 11 && day == 29)
        }),
{
}

/// Every date is read back from its day count as itself.
/// The date a day count of an era, year, month and day of month names.
proof fn lemma_civil_of(era: int, yoe: int, mp: int, day: int)
    requires
        0 <= yoe <= 399,
        0 <= mp <= 11,
        1 <= day,
        ({
            let doy = days_before_month(mp) + day - 1;
            let doe = days_before_year(yoe) + doy;
            &&& 0 <= doy <= 365
            &&& (5 * doy + 2) / 153 == mp
            &&& 0 <= doe <= 146096
            &&& (doe - doe / 1460 + doe / 36524 - doe / 146096) / 365 == yoe
        }),
    ensures
        ({
            let month = if mp < 10 {
                mp + 3
            } else {
                mp - 9
            };
            let year = yoe + era * 400;
            civil(era * 146097 + days_before_year(yoe) + days_before_month(mp) + day - 1) == (
                if month <= 2 {
                    year + 1
                } else {
                    year
                },
                month,
                day,
            )
        }),
{
    let z = era * 146097 + days_before_year(yoe) + days_before_month(mp) + day - 1;
    let doe = days_before_year(yoe) + days_before_month(mp) + day - 1;
    assert(z / 146097 == era);
    assert(z - (z / 146097) * 146097 == doe);
}

/// Every date is read back from its day count as itself.
proof fn lemma_read_back(year: int, month: int, day: int)
    requires
        is_date(year, month, day),
    ensures
        civil(days_from_civil(year, month, day) + 719468) == (year, month, day),
{
    let y = if month <= 2 {
        year - 1
    } else {
        year
    };
    let era = y / 400;
    let yoe = y - era * 400;
    let mp = if month > 2 {
        month - 3
    } else {
        month + 9
    };
    lemma_day_of_year(mp, day);
    let doy = days_before_month(mp) + day - 1;
    if doy == 365 {
        assert(year % 4 == (yoe + 1) % 4);
        assert(year % 100 == (yoe + 1) % 100);
        assert(year % 400 == (yoe + 1) % 400);
    }
    lemma_day_of_era(yoe, doy);
    lemma_civil_of(era, yoe, mp, day);
    assert(days_from_civil(year, month, day) + 719468 == era * 146097 + days_before_year(yoe)
        + days_before_month(mp) + day - 1);
}

/// Two dates that fall on the same day are the same date, so the date
/// [`civil_from_days`] gives is the only one it could give.
pub proof fn one_day_one_date(a: (int, int, int), b: (int, int, int))
    requires
        is_date(a.0, a.1, a.2),
        is_date(b.0, b.1, b.2),
        days_from_civil(a.0, a.1, a.2) == days_from_civil(b.0, b.1, b.2),
    ensures
        a == b,
{
    lemma_read_back(a.0, a.1, a.2);
    lemma_read_back(b.0, b.1, b.2);
}

} // verus!
