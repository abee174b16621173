//! Calendar dates in UTC and their text.

use vstd::prelude::*;

verus! {

/// Whether a year of the Gregorian calendar has a 29th of February.
pub open spec fn is_leap(y: int) -> bool {
    y % 4 == 0 && (y % 100 != 0 || y % 400 == 0)
}

/// The number of days in a year.
pub open spec fn year_len(y: int) -> nat {
    if is_leap(y) {
        366
    } else {
        365
    }
}

/// The number of days in a month, `m` from 1 to 12.
pub open spec fn month_len(y: int, m: int) -> nat {
    if m == 2 {
        if is_leap(y) {
            29
        } else {
            28
        }
    } else if m == 4 || m == 6 || m == 9 || m == 11 {
        30
    } else {
        31
    }
}

/// Counts whole years off `n` days that begin with the year `y`: the year of the last
/// day, and how many days of it have passed.
pub open spec fn count_years(y: int, n: nat) -> (int, nat)
    decreases n,
{
    if n < year_len(y) {
        (y, n)
    } else {
        count_years(y + 1, (n - year_len(y)) as nat)
    }
}

/// Counts whole months off `n` days that begin with the month `m` of the year `y`.
pub open spec fn count_months(y: int, m: int, n: nat) -> (int, nat)
    decreases n,
{
    if n < month_len(y, m) {
        (m, n)
    } else {
        count_months(y, m + 1, (n - month_len(y, m)) as nat)
    }
}

/// The date (year, month, day) so many days after the first of January 1970.
pub open spec fn date_after(days: nat) -> (int, int, int) {
    let (y, rest) = count_years(1970, days);
    let (m, d) = count_months(y, 1, rest);
    (y, m, (d + 1) as int)
}

/// The days from the first of March of the year 0 to the first of March of the year `y`.
#[verifier::opaque]
spec fn march_start(y: int) -> int {
    365 * y + y / 4 - y / 100 + y / 400
}

/// The days from the first of January 1970 to the first of January of the year `y`.
spec fn january_start(y: int) -> int {
    march_start(y - 1) + 306 - 719468
}

#[verifier::spinoff_prover]
proof fn lemma_march_step(y: int)
    ensures
        march_start(y) - march_start(y - 1) == year_len(y),
{
    reveal(march_start);
}

proof fn lemma_january_step(y: int)
    ensures
        january_start(y + 1) - january_start(y) == year_len(y),
{
    lemma_march_step(y);
}

proof fn lemma_january_1970()
    ensures
        january_start(1970) == 0,
{
    reveal(march_start);
}

proof fn lemma_count_years(y: int, to: int, k: nat, n: nat)
    requires
        1970 <= y <= to,
        k < year_len(to),
        n == january_start(to) - january_start(y) + k,
    ensures
        count_years(y, n) == (to, k),
    decreases to - y,
{
    lemma_january_step(y);
    if y < to {
        lemma_january_grows(y + 1, to);
        lemma_count_years(y + 1, to, k, (n - year_len(y)) as nat);
    }
}

proof fn lemma_january_grows(a: int, b: int)
    requires
        a <= b,
    ensures
        january_start(a) <= january_start(b),
    decreases b - a,
{
    if a < b {
        lemma_january_grows(a, b - 1);
        lemma_january_step(b - 1);
    }
}

/// The year of an era of 400 March years, and the day of that year.
#[verifier::spinoff_prover]
proof fn lemma_year_of_era(doe: int, yoe: int, doy: int)
    requires
        0 <= doe < 146097,
        yoe == (doe - doe / 1460 + doe / 36524 - doe / 146096) / 365,
        doy == doe - (365 * yoe + yoe / 4 - yoe / 100),
    ensures
        0 <= yoe < 400,
        0 <= doy <= 365,
        doy == 365 ==> is_leap(yoe + 1),
{
    // A century of the era has 36524 days, but for the last, which has one more.
    let c = doe / 36524;
    if c == 0 {
        lemma_year_of_century(doe, 0);
    } else if c == 1 {
        lemma_year_of_century(doe, 1);
    } else if c == 2 {
        lemma_year_of_century(doe, 2);
    } else {
        lemma_year_of_century(doe, 3);
    }
}

#[verifier::spinoff_prover]
proof fn lemma_year_of_century(doe: int, c: int)
    requires
        0 <= c <= 3,
        36524 * c <= doe,
        doe < 36524 * (c + 1) || (c == 3 && doe == 146096),
    ensures
        ({
            let yoe = (doe - doe / 1460 + doe / 36524 - doe / 146096) / 365;
            let doy = doe - (365 * yoe + yoe / 4 - yoe / 100);
            &&& 0 <= yoe < 400
            &&& 0 <= doy <= 365
            &&& doy == 365 ==> is_leap(yoe + 1)
        }),
{
    if c < 3 || doe < 146096 {
        let yoe = (doe - doe / 1460 + c) / 365;
        assert(100 * c <= yoe < 100 * c + 100);
    }
}

/// The month and the day of it on the day `doy` of a March year, where February comes
/// last.
#[verifier::spinoff_prover]
proof fn lemma_month_of_year(y: int, doy: int, mp: int, d: int)
    requires
        0 <= doy < 365 || (doy == 365 && is_leap(y + 1)),
        mp == (5 * doy + 2) / 153,
        d == doy - (153 * mp + 2) / 5,
    ensures
        0 <= mp < 12,
        0 <= d,
        mp < 10 ==> count_months(y, 1, (doy + 59 + if is_leap(y) { 1int } else { 0 }) as nat) == (
            mp + 3,
            d as nat,
        ),
        mp >= 10 ==> count_months(y + 1, 1, (doy - 306) as nat) == (mp - 9, d as nat),
{
    reveal_with_fuel(count_months, 13);
}

#[verifier::spinoff_prover]
proof fn lemma_era(era: int, yoe: int)
    requires
        0 <= era,
        0 <= yoe < 400,
    ensures
        march_start(yoe + era * 400) == era * 146097 + 365 * yoe + yoe / 4 - yoe / 100,
        is_leap(yoe + era * 400 + 1) == is_leap(yoe + 1),
{
    reveal(march_start);
}

#[verifier::spinoff_prover]
proof fn lemma_civil(days: nat, era: int, yoe: int, doy: int, mp: int, d: int)
    requires
        0 <= era,
        0 <= yoe < 400,
        0 <= doy < 365 || (doy == 365 && is_leap(yoe + 1)),
        mp == (5 * doy + 2) / 153,
        d == doy - (153 * mp + 2) / 5,
        days + 719468 == era * 146097 + 365 * yoe + yoe / 4 - yoe / 100 + doy,
    ensures
        0 <= mp < 12,
        0 <= d,
        mp < 10 ==> date_after(days) == (yoe + era * 400, mp + 3, d + 1),
        mp >= 10 ==> date_after(days) == (yoe + era * 400 + 1, mp - 9, d + 1),
{
    let y = yoe + era * 400;
    lemma_era(era, yoe);
    lemma_month_of_year(y, doy, mp, d);
    if mp < 10 {
        let passed = (doy + 59 + if is_leap(y) { 1int } else { 0 }) as nat;
        lemma_march_step(y);
        lemma_date_in_year(days, y, passed);
    } else {
        lemma_date_in_year(days, y + 1, (doy - 306) as nat);
    }
}

proof fn lemma_date_in_year(days: nat, y: int, passed: nat)
    requires
        passed < year_len(y),
        days == january_start(y) + passed,
    ensures
        count_years(1970, days) == (y, passed),
{
    lemma_january_1970();
    if y < 1970 {
        lemma_january_step(y);
        lemma_january_grows(y + 1, 1970);
    }
    lemma_count_years(1970, y, passed, days);
}

/// The date so many days after the first of January 1970, by eras of 400 years that
/// begin in March.
pub fn civil_from_days(days: u64) -> (r: (u64, u64, u64))
    requires
        days <= 0xffff_ffff_ffff,
    ensures
        (r.0 as int, r.1 as int, r.2 as int) == date_after(days as nat),
{
    let z: u64 = days + 719468;
    let era: u64 = z / 146097;
    let doe: u64 = z % 146097;
    let yoe: u64 = (doe - doe / 1460 + doe / 36524 - doe / 146096) / 365;
    proof {
        lemma_year_of_era(
            doe as int,
            yoe as int,
            doe - (365 * yoe + yoe as int / 4 - yoe as int / 100),
        );
    }
    let y: u64 = yoe + era * 400;
    let doy: u64 = doe - (365 * yoe + yoe / 4 - yoe / 100);
    let mp: u64 = (5 * doy + 2) / 153;
    proof {
        lemma_civil(
            days as nat,
            era as int,
            yoe as int,
            doy as int,
            mp as int,
            doy - (153 * mp + 2) as int / 5,
        );
    }
    let d: u64 = doy - (153 * mp + 2) / 5 + 1;
    let m: u64 = if mp < 10 {
        mp + 3
    } else {
        mp - 9
    };
    let year: u64 = if m <= 2 {
        y + 1
    } else {
        y
    };
    (year, m, d)
}

/// What counting off days gives is a day of the calendar: a month from 1 to 12, and a
/// day that the month has.
pub proof fn law_date_is_of_the_calendar(days: nat)
    ensures
        ({
            let (y, m, d) = date_after(days);
            1970 <= y && 1 <= m <= 12 && 1 <= d <= month_len(y, m)
        }),
{
    lemma_year_counted(1970, days);
    let (y, rest) = count_years(1970, days);
    reveal_with_fuel(count_months, 13);
}

/// Counting years off ends within a year.
pub proof fn lemma_year_counted(y: int, n: nat)
    ensures
        count_years(y, n).0 >= y,
        count_years(y, n).1 < year_len(count_years(y, n).0),
    decreases n,
{
    if n >= year_len(y) {
        lemma_year_counted(y + 1, (n - year_len(y)) as nat);
    }
}

/// Each day has a date of its own: it is as many days after the start of 1970 as the
/// years, months and days before it have.
#[verifier::spinoff_prover]
pub proof fn law_dates_differ(a: nat, b: nat)
    requires
        date_after(a) == date_after(b),
    ensures
        a == b,
{
    lemma_year_counted(1970, a);
    lemma_year_counted(1970, b);
    lemma_days_of_year(1970, a);
    lemma_days_of_year(1970, b);
    reveal_with_fuel(count_months, 13);
}

proof fn lemma_days_of_year(y: int, n: nat)
    ensures
        n == january_start(count_years(y, n).0) - january_start(y) + count_years(y, n).1,
    decreases n,
{
    if n >= year_len(y) {
        lemma_days_of_year(y + 1, (n - year_len(y)) as nat);
        lemma_january_step(y);
    }
}

/// The days of the years from 1970 up to the year `y`.
pub open spec fn days_before_year(y: int) -> nat
    decreases y - 1970,
{
    if y <= 1970 {
        0
    } else {
        days_before_year(y - 1) + year_len(y - 1)
    }
}

/// The days of a year before its month `m`.
pub open spec fn days_before_month(y: int, m: int) -> nat
    decreases m,
{
    if m <= 1 {
        0
    } else {
        days_before_month(y, m - 1) + month_len(y, m - 1)
    }
}

/// How many days after the first of January 1970 a date is.
pub open spec fn days_until(y: int, m: int, d: int) -> int {
    days_before_year(y) + days_before_month(y, m) + d - 1
}

proof fn lemma_days_before_year(y: int)
    requires
        1970 <= y,
    ensures
        days_before_year(y) == january_start(y),
    decreases y,
{
    lemma_january_1970();
    if y > 1970 {
        lemma_days_before_year(y - 1);
        lemma_january_step(y - 1);
    }
}

/// A date is as many days after the start of 1970 as it was made of.
#[verifier::spinoff_prover]
pub proof fn law_date_reads_back(days: nat)
    ensures
        ({
            let (y, m, d) = date_after(days);
            days_until(y, m, d) == days
        }),
{
    lemma_year_counted(1970, days);
    lemma_days_of_year(1970, days);
    let (y, rest) = count_years(1970, days);
    lemma_days_before_year(y);
    lemma_january_1970();
    reveal_with_fuel(count_months, 13);
    reveal_with_fuel(days_before_month, 13);
}

/// A later day has a later date: of a later year, or of a later month of the same year, or
/// a later day of the same month.
#[verifier::spinoff_prover]
pub proof fn law_dates_are_in_order(a: nat, b: nat)
    requires
        a < b,
    ensures
        ({
            let (y, m, d) = date_after(a);
            let (y2, m2, d2) = date_after(b);
            y < y2 || (y == y2 && (m < m2 || (m == m2 && d < d2)))
        }),
{
    lemma_year_counted(1970, a);
    lemma_year_counted(1970, b);
    lemma_days_of_year(1970, a);
    lemma_days_of_year(1970, b);
    let (y, rest) = count_years(1970, a);
    let (y2, rest2) = count_years(1970, b);
    if y2 < y {
        lemma_january_grows(y2 + 1, y);
        lemma_january_step(y2);
    }
    if y == y2 {
        reveal_with_fuel(count_months, 13);
    }
}

/// The years from 1970 to 9999 have 2932897 days.
pub proof fn lemma_ten_thousand_years()
    ensures
        days_before_year(10000) == 2932897,
{
    lemma_days_before_year(10000);
    reveal(march_start);
}

} // verus!
