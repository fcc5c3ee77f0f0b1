//! The proleptic Gregorian calendar, counted in days since 1970-01-01.

use vstd::prelude::*;

verus! {

/// Leap years: the multiples of four, but of the multiples of one hundred only those of four hundred.
pub open spec fn is_leap(y: int) -> bool {
    y % 4 == 0 && (y % 100 != 0 || y % 400 == 0)
}

/// The number of days of month `m` (1 is January) of year `y`.
pub open spec fn days_in_month(y: int, m: int) -> int {
    if m == 2 {
        if is_leap(y) { 29 } else { 28 }
    } else if m == 4 || m == 6 || m == 9 || m == 11 {
        30
    } else {
        31
    }
}

/// Whether the calendar has the day `d` of month `m` of year `y`.
pub open spec fn valid_date(y: int, m: int, d: int) -> bool {
    1 <= m <= 12 && 1 <= d <= days_in_month(y, m)
}

/// The number of leap years among the years 1 to `y`, negative for the years before.
pub open spec fn leaps(y: int) -> int {
    y / 4 - y / 100 + y / 400
}

/// The number of days from 1970-01-01 to the first of January of year `y`.
pub open spec fn year_start(y: int) -> int {
    365 * (y - 1970) + leaps(y - 1) - leaps(1969)
}

/// The number of days of year `y` before month `m`.
pub open spec fn days_before_month(y: int, m: int) -> int
    decreases m,
{
    if m <= 1 {
        0
    } else {
        days_before_month(y, m - 1) + days_in_month(y, m - 1)
    }
}

/// The number of days from 1970-01-01 to the given date.
pub open spec fn epoch_days(y: int, m: int, d: int) -> int {
    year_start(y) + days_before_month(y, m) + d - 1
}

/// The day after the given date.
pub open spec fn next_day(y: int, m: int, d: int) -> (int, int, int) {
    if d < days_in_month(y, m) {
        (y, m, d + 1)
    } else if m < 12 {
        (y, m + 1, 1)
    } else {
        (y + 1, 1, 1)
    }
}

/// Dates are ordered by year, then by month, then by day.
pub open spec fn date_before(a: (int, int, int), b: (int, int, int)) -> bool {
    a.0 < b.0 || (a.0 == b.0 && (a.1 < b.1 || (a.1 == b.1 && a.2 < b.2)))
}

/// The year counted from March, to which the given month belongs.
pub open spec fn march_year(y: int, m: int) -> int {
    if m <= 2 { y - 1 } else { y }
}

/// The number of whole months since the March before.
pub open spec fn march_month(m: int) -> int {
    if m > 2 { m - 3 } else { m + 9 }
}

/// The month lengths from March on follow a line through 153 days in five months.
proof fn lemma_days_before_month(y: int, m: int)
    requires
        1 <= m <= 12,
    ensures
        days_before_month(y, m) == if m == 1 {
            0
        } else if m == 2 {
            31
        } else {
            59 + (if is_leap(y) { 1int } else { 0 }) + (153 * (m - 3) + 2) / 5
        },
{
    reveal_with_fuel(days_before_month, 13);
}

proof fn lemma_leaps_step(y: int)
    ensures
        leaps(y) - leaps(y - 1) == if is_leap(y) { 1int } else { 0 },
{
    assert(y / 4 - (y - 1) / 4 == if y % 4 == 0 { 1int } else { 0 });
    assert(y / 100 - (y - 1) / 100 == if y % 100 == 0 { 1int } else { 0 });
    assert(y / 400 - (y - 1) / 400 == if y % 400 == 0 { 1int } else { 0 });
    assert(y % 100 == 0 ==> y % 4 == 0);
    assert(y % 400 == 0 ==> y % 100 == 0);
}

/// `n / 5`, rounded toward zero.
pub open spec fn fifth(n: int) -> int {
    if n >= 0 { n / 5 } else { -((-n) / 5) }
}

/// The number of days from 1970-01-01, counted by years that begin in March, so that the leap
/// day ends a year. The months follow a line through 153 days in five months; a month outside
/// the twelve lies on that line too.
pub open spec fn march_count(y: int, m: int, d: int) -> int {
    365 * march_year(y, m) + leaps(march_year(y, m)) + fifth(153 * march_month(m) + 2) + d - 1
        - 719468
}

/// The count from March agrees with the calendar.
proof fn lemma_march_count(y: int, m: int, d: int)
    requires
        1 <= m <= 12,
    ensures
        epoch_days(y, m, d) == march_count(y, m, d),
{
    lemma_days_before_month(y, m);
    lemma_leaps_step(y);
}

proof fn lemma_leaps_era(era: int, yoe: int)
    requires
        0 <= yoe < 400,
    ensures
        leaps(400 * era + yoe) == 97 * era + yoe / 4 - yoe / 100,
{
    vstd::arithmetic::div_mod::lemma_hoist_over_denominator(yoe, 100 * era, 4);
    vstd::arithmetic::div_mod::lemma_hoist_over_denominator(yoe, 4 * era, 100);
    vstd::arithmetic::div_mod::lemma_hoist_over_denominator(yoe, era, 400);
}

/// Whether a number fits in 64 bits with a sign.
pub open spec fn in_i64(n: int) -> bool {
    i64::MIN <= n <= i64::MAX
}

/// Whether each number on the way to the count from March fits in 64 bits: the year, the months on
/// their line, the days in an era of four hundred years, and the days of the eras before.
pub open spec fn civil_fits(y: int, m: int, d: int) -> bool {
    let my = march_year(y, m);
    let months = 153 * march_month(m);
    let days = fifth(months + 2) + d;
    let of_era = 365 * (my % 400) + my % 400 / 4 - my % 400 / 100 + days - 1;
    let eras = my / 400 * 146097;
    &&& in_i64(my) && (my < 0 ==> in_i64(my - 399))
    &&& in_i64(months) && in_i64(months + 2)
    &&& in_i64(days) && in_i64(days - 1)
    &&& in_i64(of_era)
    &&& in_i64(eras) && in_i64(eras + of_era) && in_i64(eras + of_era - 719468)
}

/// The number of days from 1970-01-01 to day `d` of month `m` of year `y`; `d` may lie outside
/// the month.
pub fn days_from_civil(y: i64, m: i64, d: i64) -> (r: i64)
    requires
        civil_fits(y as int, m as int, d as int),
    ensures
        1 <= m <= 12 ==> r == epoch_days(y as int, m as int, d as int),
        r == march_count(y as int, m as int, d as int),
{
    proof {
        if 1 <= m <= 12 {
            lemma_march_count(y as int, m as int, d as int);
        }
    }
    let y: i64 = if m <= 2 { y - 1 } else { y };
    let era: i64 = (if y >= 0 { y } else { y - 399 }) / 400;
    let yoe: i64 = y - era * 400;
    proof {
        lemma_leaps_era(era as int, yoe as int);
    }
    let doy: i64 = (153 * (if m > 2 { m - 3 } else { m + 9 }) + 2) / 5 + d - 1;
    let doe: i64 = yoe * 365 + yoe / 4 - yoe / 100 + doy;
    era * 146097 + doe - 719468
}

/// The year within an era of four hundred years, counted from March, and the day in that year.
proof fn lemma_year_of_era(doe: int, yoe: int, doy: int)
    requires
        0 <= doe < 146097,
        yoe == (doe - doe / 1460 + doe / 36524 - doe / 146096) / 365,
        doy == doe - (365 * yoe + yoe / 4 - yoe / 100),
    ensures
        0 <= yoe < 400,
        0 <= doy <= 365,
        doy == 365 ==> is_leap(yoe + 1),
{
}

/// The month and the day in it, from the day in a year that begins in March.
proof fn lemma_month_of_year(y: int, doy: int, mp: int, m: int, d: int)
    requires
        0 <= doy <= 365,
        doy == 365 ==> is_leap(y + 1),
        mp == (5 * doy + 2) / 153,
        d == doy - (153 * mp + 2) / 5 + 1,
        m == if mp < 10 { mp + 3 } else { mp - 9 },
    ensures
        0 <= mp < 12,
        mp == march_month(m),
        valid_date(if m <= 2 { y + 1 } else { y }, m, d),
{
}

proof fn lemma_leap_era(era: int, y: int)
    ensures
        is_leap(400 * era + y) == is_leap(y),
{
    vstd::arithmetic::div_mod::lemma_mod_multiples_vanish(100 * era, y, 4);
    vstd::arithmetic::div_mod::lemma_mod_multiples_vanish(4 * era, y, 100);
    vstd::arithmetic::div_mod::lemma_mod_multiples_vanish(era, y, 400);
}

/// The date that lies `z` days after 1970-01-01.
pub fn civil_from_days(z: i64) -> (r: (i32, u32, u32))
    requires
        z <= i64::MAX - 719468,
    ensures
        exists|y: int| #![trigger valid_date(y, r.1 as int, r.2 as int)]
            valid_date(y, r.1 as int, r.2 as int) && epoch_days(y, r.1 as int, r.2 as int) == z && r.0 == y as i32,
{
    let z0: i64 = z;
    let z: i64 = z + 719468;
    let era: i64 = (if z >= 0 { z } else { z - 146096 }) / 146097;
    let doe: i64 = z - era * 146097;
    let yoe: i64 = (doe - doe / 1460 + doe / 36524 - doe / 146096) / 365;
    let y: i64 = yoe + era * 400;
    let doy: i64 = doe - (365 * yoe + yoe / 4 - yoe / 100);
    proof {
        lemma_year_of_era(doe as int, yoe as int, doy as int);
        lemma_leaps_era(era as int, yoe as int);
        lemma_leap_era(era as int, yoe + 1);
    }
    let mp: i64 = (5 * doy + 2) / 153;
    let d: i64 = doy - (153 * mp + 2) / 5 + 1;
    let m: i64 = if mp < 10 { mp + 3 } else { mp - 9 };
    proof {
        lemma_month_of_year(y as int, doy as int, mp as int, m as int, d as int);
    }
    let y: i64 = if m <= 2 { y + 1 } else { y };
    proof {
        lemma_march_count(y as int, m as int, d as int);
        assert(march_count(y as int, m as int, d as int) == z0);
    }
    let r: (i32, u32, u32) = (y as i32, m as u32, d as u32);
    assert(valid_date(y as int, r.1 as int, r.2 as int));
    r
}

/// The count starts at 1970-01-01, and each day of the calendar has the number after that of
/// the day before.
pub proof fn law_consecutive_days(y: int, m: int, d: int)
    requires
        valid_date(y, m, d),
    ensures
        epoch_days(1970, 1, 1) == 0,
        ({
            let n = next_day(y, m, d);
            valid_date(n.0, n.1, n.2) && epoch_days(n.0, n.1, n.2) == epoch_days(y, m, d) + 1
        }),
{
    reveal_with_fuel(days_before_month, 13);
    lemma_leaps_step(y);
}

proof fn lemma_leaps_monotonic(a: int, b: int)
    requires
        a <= b,
    ensures
        leaps(a) <= leaps(b),
    decreases b - a,
{
    if a < b {
        lemma_leaps_monotonic(a, b - 1);
        lemma_leaps_step(b);
    }
}

proof fn lemma_months_in_order(y: int, m: int, n: int)
    requires
        1 <= m < n <= 13,
    ensures
        days_before_month(y, m) >= 0,
        days_before_month(y, m) + days_in_month(y, m) <= days_before_month(y, n),
    decreases n,
{
    if m + 1 < n {
        lemma_months_in_order(y, m, n - 1);
    } else if m > 1 {
        lemma_months_in_order(y, m - 1, m);
    }
}

proof fn lemma_years_in_order(y: int, z: int)
    requires
        y < z,
    ensures
        year_start(y) + days_before_month(y, 13) <= year_start(z),
{
    lemma_days_before_month(y, 12);
    lemma_leaps_step(y);
    lemma_leaps_monotonic(y, z - 1);
}

/// A later date has a larger number.
pub proof fn law_dates_in_order(a: (int, int, int), b: (int, int, int))
    requires
        valid_date(a.0, a.1, a.2),
        valid_date(b.0, b.1, b.2),
        date_before(a, b),
    ensures
        epoch_days(a.0, a.1, a.2) < epoch_days(b.0, b.1, b.2),
{
    lemma_months_in_order(a.0, a.1, 13);
    lemma_months_in_order(b.0, b.1, 13);
    if a.0 < b.0 {
        lemma_years_in_order(a.0, b.0);
    } else if a.1 < b.1 {
        lemma_months_in_order(a.0, a.1, b.1);
    }
}

/// No two dates have the same number, so the date that belongs to a number is the only one.
pub proof fn law_date_is_unique(a: (int, int, int), b: (int, int, int))
    requires
        valid_date(a.0, a.1, a.2),
        valid_date(b.0, b.1, b.2),
        epoch_days(a.0, a.1, a.2) == epoch_days(b.0, b.1, b.2),
    ensures
        a == b,
{
    if date_before(a, b) {
        law_dates_in_order(a, b);
    } else if date_before(b, a) {
        law_dates_in_order(b, a);
    }
}

/// Where a month and a day give the same number in two years, in one of which they are a date,
/// the years are the same.
pub(crate) proof fn lemma_same_year(y: int, z: int, m: int, d: int)
    requires
        1 <= m <= 12,
        1 <= d <= 31,
        valid_date(z, m, d),
        epoch_days(y, m, d) == epoch_days(z, m, d),
    ensures
        y == z,
{
    lemma_months_in_order(y, m, 13);
    lemma_months_in_order(z, m, 13);
    if m < 12 {
        lemma_months_in_order(y, m + 1, 13);
        lemma_months_in_order(y, m, m + 1);
    }
    if y < z {
        lemma_years_in_order(y, z);
    } else if z < y {
        lemma_years_in_order(z, y);
    }
}

/// The numbers of the days of the years 0 to 9999.
pub(crate) proof fn lemma_four_digit_years(y: int, m: int, d: int)
    requires
        0 <= y <= 9999,
        1 <= m <= 12,
        1 <= d <= 31,
    ensures
        -719_528 <= epoch_days(y, m, d) <= 2_932_896,
{
    lemma_days_before_month(y, m);
    lemma_leaps_monotonic(-1, y - 1);
    lemma_leaps_monotonic(y - 1, 9998);
}

/// The calendar: the lengths of the months, with a leap day in each year that four divides, but in
/// the years that one hundred divides only where four hundred does; and the count of the days,
/// which starts at 1970-01-01 and goes on by one from day to day, month to month, year to year.
pub proof fn law_calendar(y: int, m: int, d: int)
    ensures
        valid_date(y, m, d) <==> 1 <= m <= 12 && 1 <= d && d <= (if m == 2 {
            if y % 400 == 0 || (y % 4 == 0 && y % 100 != 0) {
                29int
            } else {
                28
            }
        } else if m == 4 || m == 6 || m == 9 || m == 11 {
            30
        } else {
            31
        }),
        epoch_days(1970, 1, 1) == 0,
        valid_date(y, m, d) ==> epoch_days(y, m, d) == epoch_days(y, m, 1) + d - 1,
        valid_date(y, m, d) && m < 12 && !valid_date(y, m, d + 1) ==> epoch_days(y, m + 1, 1)
            == epoch_days(y, m, d) + 1,
        epoch_days(y + 1, 1, 1) == epoch_days(y, 12, 31) + 1,
{
    reveal_with_fuel(days_before_month, 13);
    lemma_leaps_step(y);
}

/// The count from March is that of the calendar for its twelve months, goes on by one from day to
/// day outside the month too, and behind the second month by 153 days in five months; the months up
/// to the second lie on the line that ends there, with what is below a day cut off.
pub proof fn law_count_goes_on_outside_the_year(y: int, m: int, d: int)
    ensures
        1 <= m <= 12 ==> march_count(y, m, d) == epoch_days(y, m, d),
        march_count(y, m, d + 1) == march_count(y, m, d) + 1,
        m > 2 ==> march_count(y, m + 5, d) == march_count(y, m, d) + 153,
        m <= 2 ==> march_count(y, m, d) == march_count(y, 2, d) - 337 + if m >= -9 {
            (153 * (m + 9) + 2) / 5
        } else {
            -((-153 * (m + 9) - 2) / 5)
        },
{
    if 1 <= m <= 12 {
        lemma_march_count(y, m, d);
    }
}

} // verus!
