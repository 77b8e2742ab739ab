//! The proleptic Gregorian calendar, and the proof that Howard Hinnant's
//! `civil_from_days` arithmetic names the date a given number of days after
//! 1970-01-01.

use vstd::arithmetic::div_mod::lemma_mod_multiples_vanish;
use vstd::prelude::*;

verus! {

/// Gregorian leap years: every fourth year, except centuries not divisible by 400.
pub open spec fn is_leap_year(y: int) -> bool {
    y % 4 == 0 && (y % 100 != 0 || y % 400 == 0)
}

/// Number of days of month `m` (1 to 12) of year `y`.
pub open spec fn days_in_month(y: int, m: int) -> int {
    if m == 2 {
        if is_leap_year(y) {
            29
        } else {
            28
        }
    } else if m == 4 || m == 6 || m == 9 || m == 11 {
        30
    } else {
        31
    }
}

/// A (year, month, day) that exists in the calendar.
pub open spec fn is_valid_date(date: (int, int, int)) -> bool {
    1 <= date.1 <= 12 && 1 <= date.2 <= days_in_month(date.0, date.1)
}

/// The day after a date.
pub open spec fn next_date(date: (int, int, int)) -> (int, int, int) {
    let (y, m, d) = date;
    if d < days_in_month(y, m) {
        (y, m, d + 1)
    } else if m < 12 {
        (y, m + 1, 1)
    } else {
        (y + 1, 1, 1)
    }
}

/// The day before a date.
pub open spec fn previous_date(date: (int, int, int)) -> (int, int, int) {
    let (y, m, d) = date;
    if d > 1 {
        (y, m, d - 1)
    } else if m > 1 {
        (y, m - 1, days_in_month(y, m - 1))
    } else {
        (y - 1, 12, 31)
    }
}

/// The (year, month, day) that lies `n` days after 1970-01-01 (before it,
/// for negative `n`).
pub open spec fn date_after_epoch(n: int) -> (int, int, int)
    decreases (if n >= 0 {
        n
    } else {
        -n
    }),
{
    if n == 0 {
        (1970, 1, 1)
    } else if n > 0 {
        next_date(date_after_epoch(n - 1))
    } else {
        previous_date(date_after_epoch(n + 1))
    }
}

/// Days from the start of a 400-year era (which starts on March 1) to the
/// start of its year `y`, counting years from March to February.
pub open spec fn year_start(y: int) -> int {
    365 * y + y / 4 - y / 100
}

/// The year of an era that day `doe` of the era falls in.
pub open spec fn year_of_era(doe: int) -> int {
    (doe - doe / 1460 + doe / 36524 - doe / 146096) / 365
}

/// The month of day `doy` of a year that starts on March 1.
pub open spec fn march_month(doy: int) -> int {
    let mp = (5 * doy + 2) / 153;
    if mp < 10 {
        mp + 3
    } else {
        mp - 9
    }
}

/// The day of the month of day `doy` of a year that starts on March 1.
pub open spec fn march_day(doy: int) -> int {
    let mp = (5 * doy + 2) / 153;
    doy - (153 * mp + 2) / 5 + 1
}

/// (year of the era, month, day) of day `doe` of an era: January and
/// February belong to the next calendar year.
pub open spec fn era_date(doe: int) -> (int, int, int) {
    let yoe = year_of_era(doe);
    let doy = doe - year_start(yoe);
    let m = march_month(doy);
    (if m <= 2 {
        yoe + 1
    } else {
        yoe
    }, m, march_day(doy))
}

/// Hinnant's `civil_from_days`: split the day count into 400-year eras
/// starting on 0000-03-01, then date the day within its era.
pub open spec fn civil_from_days(days: int) -> (int, int, int) {
    let z = days + 719468;
    let era = z / 146097;
    let doe = z - era * 146097;
    let (y, m, d) = era_date(doe);
    (y + era * 400, m, d)
}

#[verifier::spinoff_prover]
proof fn lemma_year_of_era(doe: int)
    requires
        0 <= doe <= 146096,
    ensures
        0 <= year_of_era(doe) <= 399,
        year_start(year_of_era(doe)) <= doe,
        doe < year_start(year_of_era(doe) + 1) || (year_of_era(doe) == 399 && doe == 146096),
{
}

proof fn lemma_year_length(y: int)
    requires
        0 <= y <= 399,
    ensures
        year_start(y + 1) - year_start(y) == if is_leap_year(y + 1) && y < 399 {
            366int
        } else {
            365int
        },
{
}

/// Month lengths of a year that starts on March 1 and whose February has 29
/// days when `leap`.
spec fn march_month_length(m: int, leap: bool) -> int {
    if m == 2 {
        if leap {
            29
        } else {
            28
        }
    } else if m == 4 || m == 6 || m == 9 || m == 11 {
        30
    } else {
        31
    }
}

proof fn lemma_march_step(doy: int, leap: bool)
    requires
        0 <= doy,
        doy + 1 < if leap {
            366int
        } else {
            365int
        },
    ensures
        ({
            let m = march_month(doy);
            let d = march_day(doy);
            if d < march_month_length(m, leap) {
                march_month(doy + 1) == m && march_day(doy + 1) == d + 1
            } else {
                march_month(doy + 1) == (if m < 12 {
                    m + 1
                } else {
                    1
                }) && march_day(doy + 1) == 1
            }
        }),
{
}

proof fn lemma_era_date_valid(doe: int)
    requires
        0 <= doe <= 146096,
    ensures
        is_valid_date(era_date(doe)),
        0 <= era_date(doe).0 <= 400,
{
    lemma_year_of_era(doe);
    lemma_year_length(year_of_era(doe));
}

proof fn lemma_era_date_step(doe: int)
    requires
        0 <= doe < 146096,
    ensures
        era_date(doe + 1) == next_date(era_date(doe)),
{
    let yoe = year_of_era(doe);
    let doy = doe - year_start(yoe);
    let leap = is_leap_year(yoe + 1);
    lemma_year_of_era(doe);
    lemma_year_of_era(doe + 1);
    lemma_year_length(yoe);
    if doe + 1 < year_start(yoe + 1) || yoe == 399 {
        assert(year_of_era(doe + 1) == yoe);
        lemma_march_step(doy, leap);
    } else {
        assert(year_of_era(doe + 1) == yoe + 1);
    }
}

/// Shifting a year by whole 400-year eras keeps whether it is a leap year.
proof fn lemma_leap_shift(y: int, eras: int)
    ensures
        is_leap_year(y + eras * 400) == is_leap_year(y),
{
    lemma_mod_multiples_vanish(eras * 100, y, 4);
    lemma_mod_multiples_vanish(eras * 4, y, 100);
    lemma_mod_multiples_vanish(eras, y, 400);
    assert(4 * (eras * 100) + y == y + eras * 400);
    assert(100 * (eras * 4) + y == y + eras * 400);
    assert(400 * eras + y == y + eras * 400);
}

proof fn lemma_civil_valid(days: int)
    ensures
        is_valid_date(civil_from_days(days)),
{
    let z = days + 719468;
    let era = z / 146097;
    let doe = z - era * 146097;
    lemma_era_date_valid(doe);
    lemma_leap_shift(era_date(doe).0, era);
}

proof fn lemma_civil_step(days: int)
    ensures
        civil_from_days(days + 1) == next_date(civil_from_days(days)),
{
    let z = days + 719468;
    let era = z / 146097;
    let doe = z - era * 146097;
    lemma_era_date_valid(doe);
    lemma_leap_shift(era_date(doe).0, era);
    if doe < 146096 {
        assert((z + 1) / 146097 == era);
        lemma_era_date_step(doe);
    } else {
        assert((z + 1) / 146097 == era + 1);
        assert(era_date(doe) == (400int, 2int, 29int));
        assert(era_date(0) == (0int, 3int, 1int));
    }
}

proof fn lemma_previous_of_next(date: (int, int, int))
    requires
        is_valid_date(date),
    ensures
        previous_date(next_date(date)) == date,
{
}

/// Hinnant's arithmetic dates every day correctly: `civil_from_days(n)` is
/// the date `n` days after 1970-01-01.
pub proof fn lemma_civil_from_days_is_calendar(n: int)
    ensures
        civil_from_days(n) == date_after_epoch(n),
    decreases (if n >= 0 {
        n
    } else {
        -n
    }),
{
    if n == 0 {
        assert(civil_from_days(0) == (1970int, 1int, 1int));
    } else if n > 0 {
        lemma_civil_from_days_is_calendar(n - 1);
        lemma_civil_step(n - 1);
    } else {
        lemma_civil_from_days_is_calendar(n + 1);
        lemma_civil_step(n);
        lemma_civil_valid(n);
        lemma_previous_of_next(civil_from_days(n));
    }
}

/// Every day after (or before) 1970-01-01 has a date that exists in the calendar.
pub proof fn lemma_dates_are_valid(n: int)
    ensures
        is_valid_date(date_after_epoch(n)),
{
    lemma_civil_from_days_is_calendar(n);
    lemma_civil_valid(n);
}

} // verus!
