//! The proleptic Gregorian calendar, counted in days and seconds from 1970-01-01.

use vstd::prelude::*;

verus! {

/// Whether the year `y` has a 29th of February.
pub open spec fn is_leap(y: int) -> bool {
    (y % 4 == 0 && y % 100 != 0) || y % 400 == 0
}

/// How many days the year `y` has.
pub open spec fn year_len(y: int) -> int {
    if is_leap(y) {
        366
    } else {
        365
    }
}

/// How many days the month `m` (1 to 12) of the year `y` has.
pub open spec fn month_len(y: int, m: int) -> int {
    if m == 2 {
        if is_leap(y) {
            29
        } else {
            28
        }
    } else if m == 4 || m == 6 || m == 9 || m == 11 {
        30
    } else {
        31
    }
}

/// How many leap years there are from the year 1 up to, but not including, the year `y`.
pub open spec fn leap_years_before(y: int) -> int {
    (y - 1) / 4 - (y - 1) / 100 + (y - 1) / 400
}

/// The day number of the first of January of the year `y`.
pub open spec fn year_start(y: int) -> int {
    365 * (y - 1970) + leap_years_before(y) - leap_years_before(1970)
}

/// How many days of the year `y` precede the month `m`.
pub open spec fn days_before_month(y: int, m: int) -> int
    decreases m,
{
    if m <= 1 {
        0
    } else {
        days_before_month(y, m - 1) + month_len(y, m - 1)
    }
}

/// The number of days from 1970-01-01 to the `d`-th of the month `m` of the year `y`.
pub open spec fn civil_days(y: int, m: int, d: int) -> int {
    year_start(y) + days_before_month(y, m) + d - 1
}

/// Whether `y`-`m`-`d` names a day.
pub open spec fn is_date(y: int, m: int, d: int) -> bool {
    1 <= m <= 12 && 1 <= d <= month_len(y, m)
}

/// The number of seconds from 1970-01-01 00:00 to the given minute.
pub open spec fn civil_seconds(y: int, m: int, d: int, hour: int, minute: int) -> int {
    civil_days(y, m, d) * 86_400 + hour * 3_600 + minute * 60
}

/// The month that the number `m` stands for: months repeat after twelve.
pub open spec fn civil_month(m: int) -> int {
    (m + 11) % 12 + 1
}

/// The year that the month number `m` of the year `y` falls in. The month 0 is the December
/// before; past 12, January and February count as those of the year after.
pub open spec fn civil_year(y: int, m: int) -> int {
    if m == 0 {
        y - 1
    } else if m > 12 && civil_month(m) <= 2 {
        y + 1
    } else {
        y
    }
}

proof fn lemma_days_before_month(y: int)
    ensures
        days_before_month(y, 1) == 0,
        days_before_month(y, 2) == 31,
        days_before_month(y, 3) == 31 + month_len(y, 2),
        days_before_month(y, 4) == 62 + month_len(y, 2),
        days_before_month(y, 5) == 92 + month_len(y, 2),
        days_before_month(y, 6) == 123 + month_len(y, 2),
        days_before_month(y, 7) == 153 + month_len(y, 2),
        days_before_month(y, 8) == 184 + month_len(y, 2),
        days_before_month(y, 9) == 215 + month_len(y, 2),
        days_before_month(y, 10) == 245 + month_len(y, 2),
        days_before_month(y, 11) == 276 + month_len(y, 2),
        days_before_month(y, 12) == 306 + month_len(y, 2),
        days_before_month(y, 13) == year_len(y),
{
    reveal_with_fuel(days_before_month, 13);
}

/// Counting from the first of March, the months before the `k`-th have `(153 * k + 2) / 5` days.
proof fn lemma_from_march(y: int, k: int)
    requires
        0 <= k < 12,
    ensures
        k < 10 ==> year_start(y) + days_before_month(y, k + 3) == year_start(y + 1) - 306 + (153 * k
            + 2) / 5,
        k >= 10 ==> year_start(y + 1) + days_before_month(y + 1, k - 9) == year_start(y + 1) - 306
            + (153 * k + 2) / 5,
{
    lemma_days_before_month(y);
    lemma_days_before_month(y + 1);
    year_starts_follow(y);
    if k == 0 || k == 1 || k == 2 || k == 3 {
    } else if k == 4 || k == 5 || k == 6 || k == 7 {
    } else {
        assert(k == 8 || k == 9 || k == 10 || k == 11);
    }
}

/// The year after `y` begins as many days later as `y` has days.
pub proof fn year_starts_follow(y: int)
    ensures
        year_start(y + 1) == year_start(y) + year_len(y),
        year_start(1970) == 0,
{
}

/// The day after the last day of a month is the first day of the next month, and within a month
/// the day numbers follow each other: the days of the calendar are numbered without gaps.
pub proof fn days_are_consecutive(y: int, m: int, d: int)
    requires
        is_date(y, m, d),
    ensures
        d < month_len(y, m) ==> civil_days(y, m, d + 1) == civil_days(y, m, d) + 1,
        d == month_len(y, m) && m < 12 ==> civil_days(y, m + 1, 1) == civil_days(y, m, d) + 1,
        d == month_len(y, m) && m == 12 ==> civil_days(y + 1, 1, 1) == civil_days(y, m, d) + 1,
{
    lemma_days_before_month(y);
    lemma_days_before_month(y + 1);
    year_starts_follow(y);
}

/// Later years begin later, each by at least 365 days.
proof fn lemma_years_grow(a: int, b: int)
    requires
        a <= b,
    ensures
        year_start(a) + 365 * (b - a) <= year_start(b),
    decreases b - a,
{
    if a < b {
        lemma_years_grow(a, b - 1);
        year_starts_follow(b - 1);
    }
}

/// Later months of one year begin later, each by the days of the month before.
proof fn lemma_months_grow(y: int, a: int, b: int)
    requires
        1 <= a < b,
    ensures
        days_before_month(y, a) + month_len(y, a) <= days_before_month(y, b),
    decreases b - a,
{
    if a + 1 < b {
        lemma_months_grow(y, a, b - 1);
    }
}

/// A day lies between the start of its year and the start of the next one.
pub proof fn day_lies_in_its_year(y: int, m: int, d: int)
    requires
        is_date(y, m, d),
    ensures
        year_start(y) <= civil_days(y, m, d) < year_start(y + 1),
{
    lemma_days_before_month(y);
    year_starts_follow(y);
}

/// No two days of the calendar have the same number.
pub proof fn day_number_names_one_day(y1: int, m1: int, d1: int, y2: int, m2: int, d2: int)
    requires
        is_date(y1, m1, d1),
        is_date(y2, m2, d2),
        civil_days(y1, m1, d1) == civil_days(y2, m2, d2),
    ensures
        y1 == y2 && m1 == m2 && d1 == d2,
{
    day_lies_in_its_year(y1, m1, d1);
    day_lies_in_its_year(y2, m2, d2);
    if y1 < y2 {
        lemma_years_grow(y1 + 1, y2);
    } else if y2 < y1 {
        lemma_years_grow(y2 + 1, y1);
    } else if m1 < m2 {
        lemma_months_grow(y1, m1, m2);
    } else if m2 < m1 {
        lemma_months_grow(y1, m2, m1);
    }
}

/// Whether `y` is the year that the instant `now` falls in.
pub open spec fn is_year_at(y: int, now: int) -> bool {
    year_start(y) * 86_400 <= now < year_start(y + 1) * 86_400
}

/// An instant falls in one year only.
pub proof fn year_at_is_unique(a: int, b: int, now: int)
    requires
        is_year_at(a, now),
        is_year_at(b, now),
    ensures
        a == b,
{
    if a < b {
        lemma_years_grow(a + 1, b);
    } else if b < a {
        lemma_years_grow(b + 1, a);
    }
}

/// A minute of a day falls in the year that its date names.
pub proof fn minute_lies_in_its_year(y: int, m: int, d: int, hour: int, minute: int)
    requires
        is_date(y, m, d),
        0 <= hour < 24,
        0 <= minute < 60,
    ensures
        is_year_at(y, civil_seconds(y, m, d, hour, minute)),
{
    day_lies_in_its_year(y, m, d);
}

/// The year that `now` falls in. Instants before 1970 count as 1970.
pub open spec fn year_at(now: int) -> int {
    if now < 0 {
        1970
    } else {
        choose|y: int| is_year_at(y, now)
    }
}

/// Every instant from 1970 on falls in the year that [`year_at`] gives.
pub proof fn year_at_holds_the_instant(now: int)
    requires
        now >= 0,
    ensures
        is_year_at(year_at(now), now),
        year_at(now) >= 1970,
{
    year_starts_follow(1970);
    lemma_year_exists(now, 1970);
    if year_at(now) < 1970 {
        lemma_years_grow(year_at(now) + 1, 1970);
    }
}

proof fn lemma_year_exists(now: int, y: int)
    requires
        year_start(y) * 86_400 <= now,
    ensures
        exists|z: int| is_year_at(z, now),
    decreases now - year_start(y) * 86_400,
{
    year_starts_follow(y);
    if now < year_start(y + 1) * 86_400 {
        assert(is_year_at(y, now));
    } else {
        lemma_year_exists(now, y + 1);
    }
}

/// A day number up to 31 of a month, also where the month is shorter, does not lie past the end
/// of the year.
pub proof fn day_does_not_pass_its_year(y: int, m: int, d: int)
    requires
        1 <= m <= 12,
        1 <= d <= 31,
    ensures
        year_start(y) <= civil_days(y, m, d) < year_start(y + 1),
{
    lemma_days_before_month(y);
    year_starts_follow(y);
}

/// The same day and time of two years that follow each other are 365 or 366 days apart.
pub proof fn dates_come_back_within_366_days(y: int, m: int, d: int, hour: int, minute: int)
    requires
        1 <= m <= 12,
    ensures
        365 * 86_400 <= civil_seconds(y + 1, m, d, hour, minute) - civil_seconds(
            y,
            m,
            d,
            hour,
            minute,
        ) <= 366 * 86_400,
{
    lemma_days_before_month(y);
    lemma_days_before_month(y + 1);
    year_starts_follow(y);
    if m <= 6 {
        assert(m == 1 || m == 2 || m == 3 || m == 4 || m == 5 || m == 6);
    } else {
        assert(m == 7 || m == 8 || m == 9 || m == 10 || m == 11 || m == 12);
    }
}

/// How many days the year has: 366 in a leap year, else 365.
pub fn civil_year_len(year: i64) -> (r: i64)
    ensures
        r == year_len(year as int),
{
    let fourth: bool = year % 4 == 0;
    assert(fourth == (year as int % 4 == 0));
    let hundredth: bool = year % 100 == 0;
    assert(hundredth == (year as int % 100 == 0));
    let four_hundredth: bool = year % 400 == 0;
    assert(four_hundredth == (year as int % 400 == 0));
    if (fourth && !hundredth) || four_hundredth {
        366
    } else {
        365
    }
}

/// The year that `now` falls in. Instants before 1970 count as 1970.
pub fn year_of(now: i64) -> (r: i64)
    ensures
        r == year_at(now as int),
        now >= 0 ==> is_year_at(r as int, now as int),
        1970 <= r <= 200_000_000_000_000,
{
    if now < 0 {
        return 1970;
    }
    let days: i64 = now / 86_400;
    let mut year: i64 = 1970;
    let mut remaining: i64 = days;
    proof {
        year_starts_follow(1970);
    }
    loop
        invariant
            0 <= days <= 106_751_991_167_300,
            1970 <= year <= 1970 + days,
            0 <= remaining,
            remaining == days - year_start(year as int),
        ensures
            1970 <= year <= 1970 + days,
            year_start(year as int) <= days < year_start(year + 1),
        decreases remaining,
    {
        let len = civil_year_len(year);
        proof {
            year_starts_follow(year as int);
            lemma_years_grow(1970, year as int);
        }
        if remaining < len {
            break;
        }
        remaining -= len;
        year += 1;
    }
    proof {
        assert(is_year_at(year as int, now as int));
        year_at_is_unique(year as int, year_at(now as int), now as int);
    }
    year
}

/// The number of the 306th day before the end of the year that is the `yoe`-th of the `era`-th
/// cycle of 400 years.
proof fn lemma_march_year(year: int, era: int, yoe: int)
    requires
        year == era * 400 + yoe,
        0 <= yoe < 400,
    ensures
        year_start(year + 1) - 306 == era * 146_097 + yoe * 365 + yoe / 4 - yoe / 100 - 719_468,
{
    assert(year / 4 == era * 100 + yoe / 4);
    assert(year / 100 == era * 4 + yoe / 100);
    assert(year / 400 == era);
}

/// A month number counted from the first of March.
proof fn lemma_month_from_march(y: int, m: int)
    requires
        0 <= m,
    ensures
        ({
            let k = (m + 9) % 12;
            let year = if m <= 2 {
                y - 1
            } else {
                y
            };
            &&& k < 10 ==> civil_year(y, m) == year && civil_month(m) == k + 3
            &&& k >= 10 ==> civil_year(y, m) == year + 1 && civil_month(m) == k - 9
        }),
{
}

/// The number of days from 1970-01-01 to the given day, whatever the year.
fn day_number(y: i64, m: u32, d: u32) -> (r: i128)
    ensures
        r == civil_days(civil_year(y as int, m as int), civil_month(m as int), d as int),
        -10_000_000_000_000_000_000_000 < r < 10_000_000_000_000_000_000_000,
{
    let from_march: i128 = (m as i128 + 9) % 12;
    let year: i128 = if m <= 2 {
        y as i128 - 1
    } else {
        y as i128
    };
    // Whole cycles of 400 years are set aside so that what is divided is not negative.
    let cycles: i128 = 25_000_000_000_000_000;
    let shifted: i128 = year + cycles * 400;
    let era: i128 = shifted / 400 - cycles;
    let yoe: i128 = shifted % 400;
    let doy: i128 = (153 * from_march + 2) / 5 + d as i128 - 1;
    let doe: i128 = yoe * 365 + yoe / 4 - yoe / 100 + doy;
    let days: i128 = era * 146_097 + doe - 719_468;
    proof {
        lemma_from_march(year as int, from_march as int);
        lemma_march_year(year as int, era as int, yoe as int);
        lemma_month_from_march(y as int, m as int);
    }
    days
}

/// The number of days from 1970-01-01 to the `d`-th of the month `m` of the year `y`.
pub fn days_from_civil(y: i64, m: u32, d: u32) -> (r: i64)
    requires
        i64::MIN <= civil_days(civil_year(y as int, m as int), civil_month(m as int), d as int)
            <= i64::MAX,
    ensures
        r == civil_days(civil_year(y as int, m as int), civil_month(m as int), d as int),
        1 <= m <= 12 ==> r == civil_days(y as int, m as int, d as int),
{
    day_number(y, m, d) as i64
}

/// The number of seconds from 1970-01-01 00:00 to the given minute, whatever the year.
pub(crate) fn second_number(year: i64, month: u32, day: u32, hour: u32, minute: u32) -> (r: i128)
    requires
        1 <= month <= 12,
    ensures
        r == civil_seconds(year as int, month as int, day as int, hour as int, minute as int),
        -1_000_000_000_000_000_000_000_000_000 < r < 1_000_000_000_000_000_000_000_000_000,
{
    day_number(year, month, day) * 86_400 + hour as i128 * 3_600 + minute as i128 * 60
}

/// The number of seconds from 1970-01-01 00:00 to the given minute.
pub fn ts_from_ymdhm(year: i64, month: u32, day: u32, hour: u32, minute: u32) -> (r: i64)
    requires
        1 <= month <= 12,
        i64::MIN <= civil_seconds(
            year as int,
            month as int,
            day as int,
            hour as int,
            minute as int,
        ) <= i64::MAX,
    ensures
        r == civil_seconds(year as int, month as int, day as int, hour as int, minute as int),
{
    second_number(year, month, day, hour, minute) as i64
}

/// The number of seconds from 1970-01-01 00:00 to the given minute, where an `i64` holds it.
pub open spec fn timestamp(y: int, m: int, d: int, hour: int, minute: int) -> Option<i64> {
    let t = civil_seconds(y, m, d, hour, minute);
    if i64::MIN <= t <= i64::MAX {
        Some(t as i64)
    } else {
        None
    }
}

/// The number of seconds from 1970-01-01 00:00 to the given minute, where an `i64` holds it.
pub fn checked_ts(year: i64, month: u32, day: u32, hour: u32, minute: u32) -> (r: Option<i64>)
    requires
        1 <= month <= 12,
    ensures
        r == timestamp(year as int, month as int, day as int, hour as int, minute as int),
{
    let t = second_number(year, month, day, hour, minute);
    if i64::MIN as i128 <= t && t <= i64::MAX as i128 {
        Some(t as i64)
    } else {
        None
    }
}

/// The months have 31 and 30 days by turns, with two of 31 at the turn of July, but for February,
/// which has 28, and 29 in every fourth year, save the centuries that 400 does not divide.
pub proof fn months_have_their_lengths(y: int, m: int)
    requires
        1 <= m <= 12,
    ensures
        m != 2 ==> month_len(y, m) == 30 + (m + m / 8) % 2,
        m == 2 ==> month_len(y, m) == 28 + if y % 4 == 0 && (y % 100 != 0 || y % 400 == 0) {
            1int
        } else {
            0
        },
        year_len(y) == 337 + month_len(y, 2),
{
    assert(m == 1 || m == 2 || m == 3 || m == 4 || m == 5 || m == 6 || m == 7 || m == 8 || m == 9
        || m == 10 || m == 11 || m == 12);
}

/// The calendar repeats after 400 years, which have 146,097 days.
pub proof fn calendar_repeats_after_400_years(y: int, m: int, d: int)
    requires
        1 <= m <= 12,
    ensures
        civil_days(y + 400, m, d) == civil_days(y, m, d) + 146_097,
{
    lemma_leap_years_repeat(y);
    lemma_months_repeat(y, y + 400, m);
}

/// The leap years repeat after 400 years, of which 97 are leap years.
proof fn lemma_leap_years_repeat(y: int)
    ensures
        is_leap(y + 400) == is_leap(y),
        leap_years_before(y + 400) == leap_years_before(y) + 97,
{
    let n = y - 1;
    assert((n + 400) / 4 == n / 4 + 100);
    assert((n + 400) / 100 == n / 100 + 4);
    assert((n + 400) / 400 == n / 400 + 1);
    assert((y + 400) % 4 == y % 4);
    assert((y + 400) % 100 == y % 100);
    assert((y + 400) % 400 == y % 400);
}

/// Two years that are both leap years, or both not, have the same months.
proof fn lemma_months_repeat(a: int, b: int, m: int)
    requires
        is_leap(a) == is_leap(b),
    ensures
        days_before_month(a, m) == days_before_month(b, m),
    decreases m,
{
    if m > 1 {
        lemma_months_repeat(a, b, m - 1);
    }
}

/// Time is counted in seconds from the first minute of 1970, and every day has 24 hours of 60
/// minutes of 60 seconds.
pub proof fn time_is_counted_from_1970(y: int, m: int, d: int, hour: int, minute: int)
    ensures
        civil_seconds(1970, 1, 1, hour, minute) == 3600 * hour + 60 * minute,
        civil_seconds(y, m, d, hour, minute) == civil_seconds(y, m, d, 0, 0) + 3600 * hour + 60
            * minute,
        civil_seconds(y, m, d, 24, 0) == civil_seconds(y, m, d + 1, 0, 0),
{
    lemma_days_before_month(1970);
    year_starts_follow(1970);
}

} // verus!
