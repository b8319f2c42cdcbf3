//! Days since 1970-01-01 of a date of the proleptic Gregorian calendar.
use vstd::prelude::*;

verus! {

/// `year` is a Gregorian leap year.
pub open spec fn is_leap(year: int) -> bool {
    (year % 4 == 0 && year % 100 != 0) || year % 400 == 0
}

/// The number of days of `month` (1..=12) in `year`.
pub open spec fn days_in_month(year: int, month: int) -> int {
    if month == 2 {
        if is_leap(year) {
            29
        } else {
            28
        }
    } else if month == 4 || month == 6 || month == 9 || month == 11 {
        30
    } else {
        31
    }
}

/// Days from 1 March of year 0 to 1 March of `y`, counted with eras of
/// 400 years (`/` and `%` on `int` round towards negative infinity here).
pub open spec fn march_years_days(y: int) -> int {
    let era = y / 400;
    let yoe = y % 400;
    era * 146097 + yoe * 365 + yoe / 4 - yoe / 100
}

/// Days from 1 March to the first day of `month`, for a year that starts in
/// March (`month` 1 and 2 belong to the end of that year).
pub open spec fn march_month_offset(month: int) -> int {
    let m = if month > 2 {
        month - 3
    } else {
        month + 9
    };
    (153 * m + 2) / 5
}

/// The day count of `year`-`month`-`day` relative to 1970-01-01, for a month
/// in 1..=12 and a day in 1..=31 (a day past the end of its month counts on
/// into the next month); `None` outside those ranges.
pub open spec fn days_from_civil_spec(year: int, month: int, day: int) -> Option<int> {
    if !(1 <= month <= 12) || !(1 <= day <= 31) {
        None
    } else {
        let y = if month <= 2 {
            year - 1
        } else {
            year
        };
        Some(march_years_days(y) + march_month_offset(month) + day - 1 - 719468)
    }
}

/// The year count from March of `year`, for a date in `month`: January and
/// February belong to the year before.
pub open spec fn march_year(year: int, month: int) -> int {
    if month <= 2 {
        year - 1
    } else {
        year
    }
}

/// Days from 1 March of the era's first year to the date, within its
/// 400-year era.
pub open spec fn day_of_era(year: int, month: int, day: int) -> int {
    let yoe = march_year(year, month) % 400;
    yoe * 365 + yoe / 4 - yoe / 100 + march_month_offset(month) + day - 1
}

/// `days_from_civil` computes the day count of `year`-`month`-`day` in
/// `i64` arithmetic without overflow: the March year, the value it is
/// shifted to for a floor division, the era's days, the sum with the day of
/// the era and the final count all fit in an `i64`.
pub open spec fn civil_fits(year: int, month: int, day: int) -> bool {
    (1 <= month <= 12 && 1 <= day <= 31) ==> {
        let y = march_year(year, month);
        let era_days = (y / 400) * 146097;
        &&& i64::MIN <= y
        &&& (y < 0 ==> i64::MIN <= y - 399)
        &&& i64::MIN <= era_days <= i64::MAX
        &&& i64::MIN <= era_days + day_of_era(year, month, day) <= i64::MAX
        &&& i64::MIN <= era_days + day_of_era(year, month, day) - 719468 <= i64::MAX
    }
}

/// Days since 1970-01-01 of a date (negative before it), or `None` for a month
/// outside 1..=12 or a day outside 1..=31.
pub fn days_from_civil(year: i64, month: i64, day: i64) -> (r: Option<i64>)
    requires
        civil_fits(year as int, month as int, day as int),
    ensures
        r matches Some(v) ==> days_from_civil_spec(year as int, month as int, day as int) == Some(
            v as int,
        ),
        r is None ==> days_from_civil_spec(year as int, month as int, day as int) is None,
{
    if !(1 <= month && month <= 12) || !(1 <= day && day <= 31) {
        return None;
    }
    let year = year - if month <= 2 {
        1
    } else {
        0
    };
    let era: i64 = if year >= 0 {
        year / 400
    } else {
        let e = (year - 399) / 400;
        proof {
            lemma_trunc_floor(year as int, e as int);
        }
        e
    };
    let yoe = year - era * 400;
    assert(era as int == (year as int) / 400 && yoe as int == (year as int) % 400) by {
        vstd::arithmetic::div_mod::lemma_fundamental_div_mod(year as int, 400);
        if year >= 0 {
        }
    }
    let month_adjusted = month + if month > 2 {
        -3
    } else {
        9
    };
    let doy = (153 * month_adjusted + 2) / 5 + day - 1;
    let doe = yoe * 365 + yoe / 4 - yoe / 100 + doy;
    Some(era * 146097 + doe - 719468)
}

/// Whether `days_from_civil` can take the date: `civil_fits` computed in
/// wider integers.
pub fn civil_in_range(year: i64, month: i64, day: i64) -> (r: bool)
    ensures
        r == civil_fits(year as int, month as int, day as int),
{
    if !(1 <= month && month <= 12) || !(1 <= day && day <= 31) {
        return true;
    }
    let y: i128 = year as i128 - if month <= 2 {
        1i128
    } else {
        0i128
    };
    let min: i128 = i64::MIN as i128;
    let max: i128 = i64::MAX as i128;
    if y < min || (y < 0 && y - 399 < min) {
        return false;
    }
    let era: i128 = if y >= 0 {
        y / 400
    } else {
        let e: i128 = (y - 399) / 400;
        proof {
            lemma_trunc_floor(y as int, e as int);
        }
        e
    };
    let yoe: i128 = y - era * 400;
    assert(era as int == (y as int) / 400 && yoe as int == (y as int) % 400) by {
        vstd::arithmetic::div_mod::lemma_fundamental_div_mod(y as int, 400);
    }
    let month_adjusted: i128 = month as i128 + if month > 2 {
        -3i128
    } else {
        9i128
    };
    let doe: i128 = yoe * 365 + yoe / 4 - yoe / 100 + (153 * month_adjusted + 2) / 5 + day as i128
        - 1;
    let era_days: i128 = era * 146097;
    min <= era_days && era_days <= max && min <= era_days + doe && era_days + doe <= max && min
        <= era_days + doe - 719468 && era_days + doe - 719468 <= max
}

/// Division of a negative `year` shifted by 399, rounded towards zero, is the
/// floor of `year / 400`.
proof fn lemma_trunc_floor(year: int, e: int)
    requires
        year < 0,
        e == -((-(year - 399)) / 400),
    ensures
        e == year / 400,
{
    let q = year / 400;
    let r = year % 400;
    vstd::arithmetic::div_mod::lemma_fundamental_div_mod(year, 400);
    let n = -(year - 399);
    // n = -400 q - r + 399, with 0 <= 399 - r < 400
    vstd::arithmetic::div_mod::lemma_fundamental_div_mod(n, 400);
    assert(n == 400 * (-q) + (399 - r));
    vstd::arithmetic::div_mod::lemma_fundamental_div_mod_converse(n, 400, -q, 399 - r);
}

/// A date whose year is at most 10^15 in magnitude is counted without
/// overflow.
pub proof fn lemma_small_year_fits(year: int, month: int, day: int)
    requires
        -1_000_000_000_000_000 <= year <= 1_000_000_000_000_000,
    ensures
        civil_fits(year, month, day),
{
    if 1 <= month <= 12 && 1 <= day <= 31 {
        let y = march_year(year, month);
        let yoe = y % 400;
        vstd::arithmetic::div_mod::lemma_fundamental_div_mod(y, 400);
        assert(0 <= yoe < 400);
        assert(0 <= yoe / 4 <= 99);
        assert(0 <= yoe / 100 <= 3);
        assert(0 <= march_month_offset(month) <= 400);
        assert(400 * (y / 400) <= y + 400);
        assert(400 * (y / 400) >= y - 400);
    }
}

/// The day count of a date whose year is within `limit` (at most 10^15) in
/// magnitude is within `400 * limit + 1_000_000` in magnitude.
pub proof fn lemma_days_bound(year: int, month: int, day: int, limit: int)
    requires
        0 <= limit <= 1_000_000_000_000_000,
        -limit <= year <= limit,
        days_from_civil_spec(year, month, day) is Some,
    ensures
        -(400 * limit + 1_000_000) <= days_from_civil_spec(year, month, day).unwrap() <= 400
            * limit + 1_000_000,
{
    let y = if month <= 2 {
        year - 1
    } else {
        year
    };
    let era = y / 400;
    let yoe = y % 400;
    vstd::arithmetic::div_mod::lemma_fundamental_div_mod(y, 400);
    assert(0 <= yoe < 400);
    assert(0 <= yoe / 4 <= 99);
    assert(0 <= yoe / 100 <= 3);
    assert(0 <= march_month_offset(month) <= 400);
    assert(400 * era <= y + 400);
    assert(400 * era >= y - 400);
}

// ---------------------------------------------------------------------------
// Laws of the calendar
// ---------------------------------------------------------------------------

/// 1970-01-01 is day 0.
pub proof fn law_epoch()
    ensures
        days_from_civil_spec(1970, 1, 1) == Some(0int),
{
    assert(march_years_days(1969) == 719162);
    assert(march_month_offset(1) == 306);
}

/// Within a month the count goes up by one per day.
pub proof fn law_next_day(year: int, month: int, day: int)
    requires
        1 <= month <= 12,
        1 <= day < 31,
    ensures
        days_from_civil_spec(year, month, day + 1) == Some(
            days_from_civil_spec(year, month, day).unwrap() + 1,
        ),
{
}

/// A March-to-February year has 365 days, and 366 when the February falls in
/// a leap year.
pub proof fn lemma_march_year_length(y: int)
    ensures
        march_years_days(y + 1) - march_years_days(y) == if is_leap(y + 1) {
            366int
        } else {
            365int
        },
{
    let era = y / 400;
    let yoe = y % 400;
    vstd::arithmetic::div_mod::lemma_fundamental_div_mod(y, 400);
    vstd::arithmetic::div_mod::lemma_fundamental_div_mod(y + 1, 400);
    let z = y + 1;
    if yoe == 399 {
        // the next year starts a new era
        assert(z == 400 * (era + 1) + 0);
        vstd::arithmetic::div_mod::lemma_fundamental_div_mod_converse(z, 400, era + 1, 0);
        vstd::arithmetic::div_mod::lemma_fundamental_div_mod(z, 4);
        vstd::arithmetic::div_mod::lemma_fundamental_div_mod(z, 100);
        assert(z == 4 * (100 * (era + 1)) + 0);
        vstd::arithmetic::div_mod::lemma_fundamental_div_mod_converse(z, 4, 100 * (era + 1), 0);
        vstd::arithmetic::div_mod::lemma_fundamental_div_mod_converse(z, 100, 4 * (era + 1), 0);
        assert(is_leap(z));
        assert(march_years_days(y) == era * 146097 + 399 * 365 + 99 - 3) by {
            assert(399int / 4 == 99);
            assert(399int / 100 == 3);
        }
    } else {
        assert(z == 400 * era + (yoe + 1));
        vstd::arithmetic::div_mod::lemma_fundamental_div_mod_converse(z, 400, era, yoe + 1);
        let w = yoe + 1;
        // leap-ness of z is that of w: z and w differ by a multiple of 400
        vstd::arithmetic::div_mod::lemma_fundamental_div_mod(w, 4);
        vstd::arithmetic::div_mod::lemma_fundamental_div_mod(w, 100);
        vstd::arithmetic::div_mod::lemma_fundamental_div_mod(yoe, 4);
        vstd::arithmetic::div_mod::lemma_fundamental_div_mod(yoe, 100);
        assert(z == 4 * (100 * era + w / 4) + w % 4);
        vstd::arithmetic::div_mod::lemma_fundamental_div_mod_converse(z, 4, 100 * era + w / 4, w % 4);
        assert(z == 100 * (4 * era + w / 100) + w % 100);
        vstd::arithmetic::div_mod::lemma_fundamental_div_mod_converse(
            z,
            100,
            4 * era + w / 100,
            w % 100,
        );
        assert(w / 4 - yoe / 4 == if w % 4 == 0 {
            1int
        } else {
            0int
        }) by {
            if w % 4 == 0 {
                assert(yoe == 4 * (w / 4 - 1) + 3);
                vstd::arithmetic::div_mod::lemma_fundamental_div_mod_converse(yoe, 4, w / 4 - 1, 3);
            } else {
                assert(yoe == 4 * (w / 4) + (w % 4 - 1));
                vstd::arithmetic::div_mod::lemma_fundamental_div_mod_converse(
                    yoe,
                    4,
                    w / 4,
                    w % 4 - 1,
                );
            }
        }
        assert(w / 100 - yoe / 100 == if w % 100 == 0 {
            1int
        } else {
            0int
        }) by {
            if w % 100 == 0 {
                assert(yoe == 100 * (w / 100 - 1) + 99);
                vstd::arithmetic::div_mod::lemma_fundamental_div_mod_converse(yoe, 100, w / 100 - 1, 99);
            } else {
                assert(yoe == 100 * (w / 100) + (w % 100 - 1));
                vstd::arithmetic::div_mod::lemma_fundamental_div_mod_converse(
                    yoe,
                    100,
                    w / 100,
                    w % 100 - 1,
                );
            }
        }
        assert(z % 400 != 0);
    }
}

/// The first day of a month follows the last day of the month before: the
/// count from the first of `month` to the first of the next month is the
/// length of `month` in the Gregorian calendar.
pub proof fn law_next_month(year: int, month: int)
    requires
        1 <= month <= 12,
    ensures
        month < 12 ==> days_from_civil_spec(year, month + 1, 1) == Some(
            days_from_civil_spec(year, month, 1).unwrap() + days_in_month(year, month),
        ),
        month == 12 ==> days_from_civil_spec(year + 1, 1, 1) == Some(
            days_from_civil_spec(year, 12, 1).unwrap() + 31,
        ),
{
    if month == 2 {
        lemma_march_year_length(year - 1);
        assert(march_month_offset(2) == 337);
        assert(march_month_offset(3) == 0);
    } else {
        assert(march_month_offset(1) == 306);
        assert(march_month_offset(2) == 337);
        assert(march_month_offset(3) == 0);
        assert(march_month_offset(4) == 31);
        assert(march_month_offset(5) == 61);
        assert(march_month_offset(6) == 92);
        assert(march_month_offset(7) == 122);
        assert(march_month_offset(8) == 153);
        assert(march_month_offset(9) == 184);
        assert(march_month_offset(10) == 214);
        assert(march_month_offset(11) == 245);
        assert(march_month_offset(12) == 275);
    }
}

/// From the first of January of a year to that of the next there are 365
/// days, or 366 in a leap year.
pub proof fn law_year_length(year: int)
    ensures
        days_from_civil_spec(year + 1, 1, 1).unwrap() - days_from_civil_spec(year, 1, 1).unwrap()
            == if is_leap(year) {
            366int
        } else {
            365int
        },
{
    lemma_march_year_length(year - 1);
    assert(march_month_offset(1) == 306);
}

} // verus!
