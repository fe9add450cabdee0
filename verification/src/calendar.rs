//! Gregorian month lengths and dates, for the month-end snapshots and
//! for timestamping records.

use vstd::prelude::*;

verus! {

/// A Gregorian leap year.
pub open spec fn spec_leap_year(y: int) -> bool {
    (y % 4 == 0 && y % 100 != 0) || y % 400 == 0
}

/// Days in month `m` of year `y`.
pub open spec fn spec_days_in_month(y: int, m: int) -> int {
    if m == 2 {
        if spec_leap_year(y) {
            29
        } else {
            28
        }
    } else if m == 4 || m == 6 || m == 9 || m == 11 {
        30
    } else {
        31
    }
}

/// The day number of the last day of the given month, for any year of the
/// proleptic Gregorian calendar (year zero and negative years included,
/// with the usual astronomical numbering).
pub fn get_last_day_of_month(year: i32, month: u32) -> (d: u32)
    requires
        1 <= month <= 12,
    ensures
        d as int == spec_days_in_month(year as int, month as int),
        1 <= d <= 31,
{
    if month == 2 {
        let leap = (year % 4 == 0 && year % 100 != 0) || year % 400 == 0;
        proof {
            assert(year % 4 == 0 ==> year as int % 4 == 0);
            assert(year as int % 4 == 0 ==> year % 4 == 0);
            assert((year % 100 == 0) == (year as int % 100 == 0));
            assert((year % 400 == 0) == (year as int % 400 == 0));
        }
        if leap {
            29
        } else {
            28
        }
    } else if month == 4 || month == 6 || month == 9 || month == 11 {
        30
    } else {
        31
    }
}

/// Days in year `y`.
pub open spec fn spec_days_in_year(y: int) -> int {
    if spec_leap_year(y) {
        366
    } else {
        365
    }
}

/// Days from 1970-01-01 to the first day of year `y` (for `y >= 1970`).
pub open spec fn spec_days_to_year(y: int) -> int
    decreases y - 1970,
{
    if y <= 1970 {
        0
    } else {
        spec_days_to_year(y - 1) + spec_days_in_year(y - 1)
    }
}

/// Days from the first of January to the first of month `m` in year `y`.
pub open spec fn spec_days_to_month(y: int, m: int) -> int
    decreases m,
{
    if m <= 1 {
        0
    } else {
        spec_days_to_month(y, m - 1) + spec_days_in_month(y, m - 1)
    }
}

/// The day count of a civil date, measured from 1970-01-01 as day zero.
pub open spec fn spec_days_from_civil(y: int, m: int, d: int) -> int {
    spec_days_to_year(y) + spec_days_to_month(y, m) + (d - 1)
}

/// The day count to a year grows at least one per year.
proof fn lemma_days_to_year_lower(y: int)
    requires
        1970 <= y,
    ensures
        spec_days_to_year(y) >= y - 1970,
    decreases y - 1970,
{
    if y > 1970 {
        lemma_days_to_year_lower(y - 1);
    }
}

/// The twelve months cover the year exactly.
proof fn lemma_months_cover_year(y: int)
    ensures
        spec_days_to_month(y, 13) == spec_days_in_year(y),
{
    reveal_with_fuel(spec_days_to_month, 14);
}

/// Days in year `y`.
fn days_in_year(year: u64) -> (d: u64)
    ensures
        d as int == spec_days_in_year(year as int),
        d == 365 || d == 366,
{
    let leap = (year % 4 == 0 && year % 100 != 0) || year % 400 == 0;
    proof {
        assert((year % 4 == 0) == (year as int % 4 == 0));
        assert((year % 100 == 0) == (year as int % 100 == 0));
        assert((year % 400 == 0) == (year as int % 400 == 0));
    }
    if leap {
        366
    } else {
        365
    }
}

/// The civil date `days` days after 1970-01-01: the unique `(year, month,
/// day)` whose day count is `days`.  The bound on `days` keeps the search
/// short; it reaches past the year 11000.
pub fn civil_from_days(days: u64) -> (r: (u64, u32, u32))
    requires
        days < 3_652_059,
    ensures
        1970 <= r.0,
        1 <= r.1 <= 12,
        1 <= r.2 as int <= spec_days_in_month(r.0 as int, r.1 as int),
        spec_days_from_civil(r.0 as int, r.1 as int, r.2 as int) == days as int,
{
    let mut year: u64 = 1970;
    let mut rem: u64 = days;
    let mut year_len: u64 = days_in_year(year);
    while rem >= year_len
        invariant
            1970 <= year <= 1970 + days,
            rem <= days < 3_652_059,
            year_len as int == spec_days_in_year(year as int),
            spec_days_to_year(year as int) + rem == days as int,
        decreases rem,
    {
        proof {
            lemma_days_to_year_lower(year as int);
        }
        rem = rem - year_len;
        year = year + 1;
        year_len = days_in_year(year);
    }
    let mut month: u32 = 1;
    let ghost rem0: int = rem as int;
    let mut month_len: u32 = get_last_day_of_month_u64(year, 1);
    while rem >= month_len as u64
        invariant
            1 <= month <= 12,
            month_len as int == spec_days_in_month(year as int, month as int),
            spec_days_to_month(year as int, month as int) + rem == rem0,
            rem0 < spec_days_in_year(year as int),
            rem <= rem0,
        decreases 12 - month,
    {
        proof {
            lemma_months_cover_year(year as int);
            if month == 12 {
                assert(spec_days_to_month(year as int, 13) == spec_days_to_month(year as int, 12)
                    + spec_days_in_month(year as int, 12));
                assert(false);
            }
        }
        rem = rem - month_len as u64;
        month = month + 1;
        month_len = get_last_day_of_month_u64(year, month);
    }
    (year, month, (rem + 1) as u32)
}

/// `get_last_day_of_month` for the wide year counter the date search uses.
fn get_last_day_of_month_u64(year: u64, month: u32) -> (d: u32)
    requires
        1 <= month <= 12,
    ensures
        d as int == spec_days_in_month(year as int, month as int),
        1 <= d <= 31,
{
    if month == 2 {
        let leap = (year % 4 == 0 && year % 100 != 0) || year % 400 == 0;
        proof {
            assert((year % 4 == 0) == (year as int % 4 == 0));
            assert((year % 100 == 0) == (year as int % 100 == 0));
            assert((year % 400 == 0) == (year as int % 400 == 0));
        }
        if leap {
            29
        } else {
            28
        }
    } else if month == 4 || month == 6 || month == 9 || month == 11 {
        30
    } else {
        31
    }
}

} // verus!
