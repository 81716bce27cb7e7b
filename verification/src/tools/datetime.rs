//! The `datetime` tool: the current date and time in several formats, without
//! any calendar library.

use vstd::arithmetic::div_mod::{lemma_hoist_over_denominator, lemma_mod_multiples_vanish};
use vstd::prelude::*;

use crate::text::{decimal, decimal_string, signed_decimal, signed_string, str_eq};

verus! {

/// Seconds in a day.
pub const DAY: i64 = 86_400;

/// The first second of the first year that fits an `i32`.
pub const FIRST_SECOND: i64 = -67_768_100_567_971_200;

/// The last second of the last year that fits an `i32`.
pub const LAST_SECOND: i64 = 67_767_976_233_532_799;

/// Whether a year is a leap year of the Gregorian calendar.
pub open spec fn is_leap(y: int) -> bool {
    y % 4 == 0 && (y % 100 != 0 || y % 400 == 0)
}

/// The days of a month.
pub open spec fn days_in_month(y: int, m: int) -> int {
    if m == 2 {
        if is_leap(y) {
            29
        } else {
            28
        }
    } else if m == 4 || m == 6 || m == 9 || m == 11 {
        30
    } else {
        31
    }
}

/// The days of a year in front of a month.
pub open spec fn days_before_month(y: int, m: int) -> int
    decreases m,
{
    if m <= 1 {
        0
    } else {
        days_before_month(y, m - 1) + days_in_month(y, m - 1)
    }
}

/// How many of the years 1 to `y` are leap years.
pub open spec fn leap_years(y: int) -> int {
    y / 4 - y / 100 + y / 400
}

/// The days from the first day of 1970 to the first day of a year.
pub open spec fn days_before_year(y: int) -> int {
    365 * (y - 1970) + leap_years(y - 1) - leap_years(1969)
}

/// The days from the first day of 1970 to a date.
pub open spec fn day_number(y: int, m: int, d: int) -> int {
    days_before_year(y) + days_before_month(y, m) + (d - 1)
}

/// Whether a date is one of the calendar.
pub open spec fn is_date(y: int, m: int, d: int) -> bool {
    1 <= m <= 12 && 1 <= d <= days_in_month(y, m)
}

/// Each year is as long as its months: the days in front of a year and the
/// days in front of its successor differ by 365, or 366 in a leap year.
pub proof fn law_years_follow_each_other(y: int)
    ensures
        days_before_year(y + 1) == days_before_year(y) + days_before_month(y, 13),
        days_before_month(y, 13) == if is_leap(y) {
            366int
        } else {
            365int
        },
{
    lemma_months(y);
}

proof fn lemma_months(y: int)
    ensures
        days_before_month(y, 1) == 0,
        days_before_month(y, 2) == 31,
        ({
            let feb: int = if is_leap(y) {
                29
            } else {
                28
            };
            &&& days_before_month(y, 3) == 31 + feb
            &&& days_before_month(y, 4) == 62 + feb
            &&& days_before_month(y, 5) == 92 + feb
            &&& days_before_month(y, 6) == 123 + feb
            &&& days_before_month(y, 7) == 153 + feb
            &&& days_before_month(y, 8) == 184 + feb
            &&& days_before_month(y, 9) == 215 + feb
            &&& days_before_month(y, 10) == 245 + feb
            &&& days_before_month(y, 11) == 276 + feb
            &&& days_before_month(y, 12) == 306 + feb
            &&& days_before_month(y, 13) == 337 + feb
        }),
{
    reveal_with_fuel(days_before_month, 14);
}

/// No two dates have the same day number.
pub proof fn law_day_numbers_are_distinct(y1: int, m1: int, d1: int, y2: int, m2: int, d2: int)
    requires
        is_date(y1, m1, d1),
        is_date(y2, m2, d2),
        day_number(y1, m1, d1) == day_number(y2, m2, d2),
    ensures
        y1 == y2 && m1 == m2 && d1 == d2,
{
    lemma_months(y1);
    lemma_months(y2);
    lemma_within_year(y1, m1, d1);
    lemma_within_year(y2, m2, d2);
    if y1 < y2 {
        lemma_years_grow(y1 + 1, y2);
    } else if y2 < y1 {
        lemma_years_grow(y2 + 1, y1);
    } else if m1 < m2 {
        lemma_months_grow(y1, m1 + 1, m2);
    } else if m2 < m1 {
        lemma_months_grow(y1, m2 + 1, m1);
    }
}

proof fn lemma_within_year(y: int, m: int, d: int)
    requires
        is_date(y, m, d),
    ensures
        days_before_year(y) <= day_number(y, m, d) < days_before_year(y + 1),
{
    lemma_months_grow(y, 1, m);
    lemma_months_grow(y, m + 1, 13);
    law_years_follow_each_other(y);
}

proof fn lemma_months_grow(y: int, a: int, b: int)
    requires
        1 <= a <= b,
    ensures
        days_before_month(y, a) <= days_before_month(y, b),
    decreases b - a,
{
    if a < b {
        lemma_months_grow(y, a, b - 1);
    }
}

proof fn lemma_years_grow(a: int, b: int)
    requires
        a <= b,
    ensures
        days_before_year(a) <= days_before_year(b),
    decreases b - a,
{
    if a < b {
        lemma_years_grow(a, b - 1);
        law_years_follow_each_other(b - 1);
    }
}

/// The year and the day of the year, where years begin in March, for a day
/// counted from the first of March of a year that 400 divides.
fn march_year(doe: u32) -> (r: (u32, u32))
    requires
        doe < 146_097,
    ensures
        r.0 < 400,
        r.1 <= 365,
        r.1 == 365 ==> is_leap(r.0 + 1),
        doe == 365 * r.0 + r.0 as int / 4 - r.0 as int / 100 + r.1,
{
    let century: u32 = if doe / 36_524 < 4 {
        doe / 36_524
    } else {
        3
    };
    let in_century: u32 = doe - century * 36_524;
    let quad: u32 = in_century / 1_461;
    let in_quad: u32 = in_century - quad * 1_461;
    let year: u32 = if in_quad / 365 < 4 {
        in_quad / 365
    } else {
        3
    };
    let yoe: u32 = century * 100 + quad * 4 + year;
    assert(quad <= 24);
    assert(yoe as int / 4 == century * 25 + quad);
    assert(yoe as int / 100 == century);
    (yoe, in_quad - year * 365)
}

/// The quotient that is rounded down.
fn floor_div(a: i64, b: i64) -> (r: i64)
    requires
        0 < b,
    ensures
        r == a as int / b as int,
{
    if a >= 0 {
        a / b
    } else {
        let n: i64 = -(a + 1);
        let q: i64 = n / b;
        proof {
            let (a, b, n, q) = (a as int, b as int, n as int, q as int);
            vstd::arithmetic::div_mod::lemma_fundamental_div_mod(n, b);
            assert(0 <= q <= n) by (nonlinear_arith)
                requires
                    n == b * q + n % b,
                    0 <= n % b < b,
                    0 < b,
                    0 <= n,
            ;
            let rest = b - 1 - n % b;
            assert(a == (-q - 1) * b + rest) by (nonlinear_arith)
                requires
                    n == -(a + 1),
                    n == b * q + n % b,
                    rest == b - 1 - n % b,
            ;
            vstd::arithmetic::div_mod::lemma_fundamental_div_mod_converse(a, b, -q - 1, rest);
        }
        -q - 1
    }
}

/// Converts a Unix timestamp to (year, month 1-12, day 1-31, hour, minute,
/// second). An instant before 1970 is negative: one second before the epoch is
/// the last one of 1969.
#[verifier::rlimit(40)]
pub fn unix_to_cal(ts: i64) -> (r: (i32, u32, u32, u32, u32, u32))
    requires
        FIRST_SECOND <= ts <= LAST_SECOND,
    ensures
        is_date(r.0 as int, r.1 as int, r.2 as int),
        day_number(r.0 as int, r.1 as int, r.2 as int) == ts as int / 86_400,
        r.3 < 24 && r.4 < 60 && r.5 < 60,
        r.3 * 3600 + r.4 * 60 + r.5 == ts as int % 86_400,
{
    let days: i64 = floor_div(ts, DAY);
    let time: u32 = (ts - days * DAY) as u32;
    let h: u32 = time / 3600;
    let mi: u32 = (time % 3600) / 60;
    let s: u32 = time % 60;
    let z: i64 = days + 719_468;
    let era: i64 = floor_div(z, 146_097);
    let doe: u32 = (z - era * 146_097) as u32;
    let (yoe, doy) = march_year(doe);
    let mp: u32 = (5 * doy + 2) / 153;
    let d: u32 = doy - (153 * mp + 2) / 5 + 1;
    let m: u32 = if mp < 10 {
        mp + 3
    } else {
        mp - 9
    };
    let march: i64 = era * 400 + yoe as i64;
    let y: i64 = if m <= 2 {
        march + 1
    } else {
        march
    };
    proof {
        lemma_months(y as int);
        lemma_march(era as int, yoe as int, doy as int, mp as int, m as int, d as int);
        assert(day_number(y as int, m as int, d as int) == days);
        assert(y <= i32::MAX) by {
            if y > i32::MAX {
                lemma_within_year(y as int, m as int, d as int);
                lemma_years_grow(2_147_483_648, y as int);
                assert(days_before_year(2_147_483_648) == 784_351_576_777);
            }
        }
        assert(y >= i32::MIN) by {
            if y < i32::MIN {
                lemma_within_year(y as int, m as int, d as int);
                lemma_years_grow(y + 1, -2_147_483_648);
                assert(days_before_year(-2_147_483_648) == -784_353_015_833);
            }
        }
    }
    (y as i32, m, d, h, mi, s)
}

proof fn lemma_march(era: int, yoe: int, doy: int, mp: int, m: int, d: int)
    requires
        0 <= yoe < 400,
        0 <= doy <= 365,
        doy == 365 ==> is_leap(yoe + 1),
        mp == (5 * doy + 2) / 153,
        d == doy - (153 * mp + 2) / 5 + 1,
        m == if mp < 10 {
            mp + 3
        } else {
            mp - 9
        },
    ensures
        ({
            let y = era * 400 + yoe + if m <= 2 {
                1int
            } else {
                0int
            };
            &&& is_date(y, m, d)
            &&& day_number(y, m, d) == era * 146_097 + 365 * yoe + yoe / 4 - yoe / 100 + doy
                - 719_468
        }),
{
    let y = era * 400 + yoe + if m <= 2 {
        1int
    } else {
        0int
    };
    lemma_months(y);
    lemma_march_month(doy, mp);
    lemma_era(era, yoe);
    lemma_era(era, yoe + 1);
    lemma_leap_step(era * 400 + yoe);
    assert(yoe / 400 == 0);
    assert(0 <= mp <= 11);
}

proof fn lemma_era(era: int, k: int)
    ensures
        is_leap(era * 400 + k) == is_leap(k),
        leap_years(era * 400 + k) == era * 97 + leap_years(k),
{
    lemma_hoist_over_denominator(k, era * 100, 4);
    lemma_hoist_over_denominator(k, era * 4, 100);
    lemma_hoist_over_denominator(k, era, 400);
    lemma_mod_multiples_vanish(era * 100, k, 4);
    lemma_mod_multiples_vanish(era * 4, k, 100);
    lemma_mod_multiples_vanish(era, k, 400);
}

#[verifier::rlimit(40)]
proof fn lemma_leap_step(y: int)
    ensures
        leap_years(y) == leap_years(y - 1) + if is_leap(y) {
            1int
        } else {
            0int
        },
{
}

/// Where the months begin in a year that begins in March.
spec fn march_start(mp: int) -> int {
    if mp == 0 {
        0
    } else if mp == 1 {
        31
    } else if mp == 2 {
        61
    } else if mp == 3 {
        92
    } else if mp == 4 {
        122
    } else if mp == 5 {
        153
    } else if mp == 6 {
        184
    } else if mp == 7 {
        214
    } else if mp == 8 {
        245
    } else if mp == 9 {
        275
    } else if mp == 10 {
        306
    } else if mp == 11 {
        337
    } else {
        367
    }
}

proof fn lemma_march_month(doy: int, mp: int)
    requires
        0 <= doy <= 365,
        mp == (5 * doy + 2) / 153,
    ensures
        0 <= mp <= 11,
        (153 * mp + 2) / 5 == march_start(mp),
        march_start(mp) <= doy < march_start(mp + 1),
{
}

/// The name of a month.
pub open spec fn month_text(m: int) -> Seq<char> {
    if m == 1 {
        "January"@
    } else if m == 2 {
        "February"@
    } else if m == 3 {
        "March"@
    } else if m == 4 {
        "April"@
    } else if m == 5 {
        "May"@
    } else if m == 6 {
        "June"@
    } else if m == 7 {
        "July"@
    } else if m == 8 {
        "August"@
    } else if m == 9 {
        "September"@
    } else if m == 10 {
        "October"@
    } else if m == 11 {
        "November"@
    } else if m == 12 {
        "December"@
    } else {
        "?"@
    }
}

/// The name of a month.
pub fn month_name(m: u32) -> (r: &'static str)
    ensures
        r@ == month_text(m as int),
{
    match m {
        1 => "January",
        2 => "February",
        3 => "March",
        4 => "April",
        5 => "May",
        6 => "June",
        7 => "July",
        8 => "August",
        9 => "September",
        10 => "October",
        11 => "November",
        12 => "December",
        _ => "?",
    }
}

/// The name of a day of the week, counted from Sunday.
pub open spec fn weekday_text(w: int) -> Seq<char> {
    if w == 0 {
        "Sunday"@
    } else if w == 1 {
        "Monday"@
    } else if w == 2 {
        "Tuesday"@
    } else if w == 3 {
        "Wednesday"@
    } else if w == 4 {
        "Thursday"@
    } else if w == 5 {
        "Friday"@
    } else {
        "Saturday"@
    }
}

/// The day of the week of a day number, counted from Sunday: the first day of
/// 1970 was a Thursday.
pub open spec fn weekday(day: int) -> int {
    (day + 4) % 7
}

proof fn lemma_weekday(y: int, m: int, d: int, k: int, t: int)
    requires
        is_date(y, m, d),
        k == if m < 3 {
            y - 1
        } else {
            y
        },
        t == month_shift(m),
    ensures
        (k + k / 4 - k / 100 + k / 400 + t + d) % 7 == weekday(day_number(y, m, d)),
{
    lemma_months(y);
    lemma_leap_step(y);
    assert(leap_years(1969) == 477);
    lemma_offset(y, m, d, k, t, leap_years(y - 1), leap_years(y), days_before_month(y, m));
}

/// The sum over a date and its day number differ by whole weeks.
proof fn lemma_offset(y: int, m: int, d: int, k: int, t: int, before: int, upto: int, days: int)
    requires
        1 <= m <= 12,
        t == month_shift(m),
        upto == before + if is_leap(y) {
            1int
        } else {
            0int
        },
        k == if m < 3 {
            y - 1
        } else {
            y
        },
        days == if m == 1 {
            0
        } else if m == 2 {
            31
        } else {
            march_start(m - 3) + 59 + if is_leap(y) {
                1int
            } else {
                0int
            }
        },
    ensures
        (k + (if m < 3 {
            before
        } else {
            upto
        }) + t + d) % 7 == (365 * (y - 1970) + before - 477 + days + (d - 1) + 4) % 7,
{
    let sum = k + (if m < 3 {
        before
    } else {
        upto
    }) + t + d;
    let rest = if m < 3 {
        days - t - 719_159
    } else {
        march_start(m - 3) + 59 - t - 719_524
    };
    assert(rest % 7 == 0);
    let c = 52 * k + rest / 7;
    assert(365 * (y - 1970) + before - 477 + days + (d - 1) + 4 == 7 * c + sum);
    lemma_mod_multiples_vanish(c, sum, 7);
}

proof fn lemma_weeks(k: int, more: int)
    ensures
        ({
            let late = k + 2_147_484_000;
            (late + late / 4 - late / 100 + late / 400 + more) % 7 == (k + k / 4 - k / 100 + k
                / 400 + more) % 7
        }),
{
    lemma_era(5_368_710, k);
    let late = k + 2_147_484_000;
    assert(5_368_710 * 400 + k == late);
    let early = k + leap_years(k) + more;
    assert(late + leap_years(late) + more == 7 * 381_178_410 + early);
    lemma_mod_multiples_vanish(381_178_410, early, 7);
}

/// How far a month shifts the day of the week.
spec fn month_shift(m: int) -> int {
    if m == 1 {
        0
    } else if m == 2 {
        3
    } else if m == 3 {
        2
    } else if m == 4 {
        5
    } else if m == 5 {
        0
    } else if m == 6 {
        3
    } else if m == 7 {
        5
    } else if m == 8 {
        1
    } else if m == 9 {
        4
    } else if m == 10 {
        6
    } else if m == 11 {
        2
    } else {
        4
    }
}

/// The name of a date's day of the week.
pub fn weekday_name(y: i32, m: u32, d: u32) -> (r: &'static str)
    requires
        is_date(y as int, m as int, d as int),
    ensures
        r@ == weekday_text(weekday(day_number(y as int, m as int, d as int))),
{
    let t: [i64; 12] = [0, 3, 2, 5, 0, 3, 5, 1, 4, 6, 2, 4];
    let k: i64 = if m < 3 {
        y as i64 - 1
    } else {
        y as i64
    };
    // Four centuries are a whole number of weeks: the same day as many centuries
    // later as no year is too early for.
    let late: i64 = k + 2_147_484_000;
    let sum: i64 = late + late / 4 - late / 100 + late / 400 + t[m as usize - 1] + d as i64;
    let w: i64 = sum % 7;
    proof {
        lemma_weekday(y as int, m as int, d as int, k as int, t[m - 1] as int);
        lemma_weeks(k as int, t[m - 1] + d);
    }
    if w == 0 {
        "Sunday"
    } else if w == 1 {
        "Monday"
    } else if w == 2 {
        "Tuesday"
    } else if w == 3 {
        "Wednesday"
    } else if w == 4 {
        "Thursday"
    } else if w == 5 {
        "Friday"
    } else {
        "Saturday"
    }
}

/// `n` in decimal, with zeros in front up to `width` digits.
pub open spec fn padded(n: nat, width: nat) -> Seq<char> {
    let digits = decimal(n);
    Seq::new(
        if digits.len() < width {
            (width - digits.len()) as nat
        } else {
            0
        },
        |i: int| '0',
    ) + digits
}

/// A year with zeros in front up to four places, of which a sign is one.
pub open spec fn year_text(y: int) -> Seq<char> {
    if y < 0 {
        "-"@ + padded((-y) as nat, 3)
    } else {
        padded(y as nat, 4)
    }
}

fn year_string(y: i32) -> (r: String)
    ensures
        r@ == year_text(y as int),
{
    if y < 0 {
        "-".to_owned().concat(pad((-(y as i64)) as u64, 3).as_str())
    } else {
        pad(y as u64, 4)
    }
}

fn pad(n: u64, width: usize) -> (r: String)
    ensures
        r@ == padded(n as nat, width as nat),
{
    let digits = crate::text::chars_of(decimal_string(n).as_str());
    let mut out: Vec<char> = Vec::new();
    let mut left: usize = if digits.len() < width {
        width - digits.len()
    } else {
        0
    };
    let ghost zeros = left;
    while left > 0
        invariant
            out@ == Seq::new((zeros - left) as nat, |i: int| '0'),
            left <= zeros,
        decreases left,
    {
        out.push('0');
        left -= 1;
        assert(out@ =~= Seq::new((zeros - left) as nat, |i: int| '0'));
    }
    let mut rest = digits;
    out.append(&mut rest);
    assert(out@ =~= padded(n as nat, width as nat));
    assert(out@.subrange(0, out@.len() as int) =~= out@);
    crate::text::string_of(&out, 0, out.len())
}

/// `YYYY-MM-DD`.
pub open spec fn date_text(y: int, m: int, d: int) -> Seq<char> {
    year_text(y) + "-"@ + padded(m as nat, 2) + "-"@ + padded(d as nat, 2)
}

/// `HH:MM:SS` of a second of the day.
pub open spec fn time_text(second: int) -> Seq<char> {
    padded((second / 3600) as nat, 2) + ":"@ + padded((second / 60 % 60) as nat, 2) + ":"@
        + padded((second % 60) as nat, 2)
}

/// A moment on a date, in a format.
pub open spec fn moment_text(
    format: Seq<char>,
    y: int,
    m: int,
    d: int,
    secs: int,
) -> Seq<char> {
    let time = time_text(secs % 86_400);
    if format == "iso"@ {
        date_text(y, m, d) + "T"@ + time + "Z"@
    } else if format == "date"@ {
        date_text(y, m, d)
    } else if format == "time"@ {
        time
    } else if format == "unix"@ {
        signed_decimal(secs)
    } else {
        weekday_text(weekday(secs / 86_400)) + ", "@ + month_text(m) + " "@ + decimal(d as nat)
            + ", "@ + year_text(y) + " — "@ + time + " UTC"@
    }
}

/// Whether a text says a moment in a format.
pub open spec fn is_moment(format: Seq<char>, secs: int, text: Seq<char>) -> bool {
    exists|y: int, m: int, d: int|
        is_date(y, m, d) && #[trigger] day_number(y, m, d) == secs / 86_400 && text == moment_text(
            format,
            y,
            m,
            d,
            secs,
        )
}

/// The format asked for, `friendly` where none is.
pub open spec fn format_or_friendly(format: Option<&str>) -> Seq<char> {
    match format {
        Some(f) => f@,
        None => "friendly"@,
    }
}

fn date_string(y: i32, m: u32, d: u32) -> (r: String)
    ensures
        r@ == date_text(y as int, m as int, d as int),
{
    year_string(y).concat("-").concat(pad(m as u64, 2).as_str()).concat("-").concat(
        pad(d as u64, 2).as_str(),
    )
}

fn time_string(second: u32, h: u32, mi: u32, s: u32) -> (r: String)
    requires
        h == second as int / 3600,
        mi == second as int / 60 % 60,
        s == second as int % 60,
    ensures
        r@ == time_text(second as int),
{
    pad(h as u64, 2).concat(":").concat(pad(mi as u64, 2).as_str()).concat(":").concat(
        pad(s as u64, 2).as_str(),
    )
}

/// The moment `secs` seconds behind the epoch, as text: `iso` is ISO 8601, `date`
/// `YYYY-MM-DD`, `time` `HH:MM:SS`, `unix` the seconds since the epoch, and
/// any other format human readable.
pub fn now(secs: i64, format: Option<&str>) -> (r: String)
    requires
        FIRST_SECOND <= secs <= LAST_SECOND,
    ensures
        is_moment(format_or_friendly(format), secs as int, r@),
{
    let (y, mo, d, h, mi, s) = unix_to_cal(secs);
    let second: u32 = h * 3600 + mi * 60 + s;
    let ghost day = day_number(y as int, mo as int, d as int);
    let time = time_string(second, h, mi, s);
    let format: &str = match format {
        Some(f) => f,
        None => "friendly",
    };
    if str_eq(format, "iso") {
        date_string(y, mo, d).concat("T").concat(time.as_str()).concat("Z")
    } else if str_eq(format, "date") {
        date_string(y, mo, d)
    } else if str_eq(format, "time") {
        time
    } else if str_eq(format, "unix") {
        signed_string(secs)
    } else {
        weekday_name(y, mo, d).to_owned().concat(", ").concat(month_name(mo)).concat(" ").concat(
            decimal_string(d as u64).as_str(),
        ).concat(", ").concat(year_string(y).as_str()).concat(" — ").concat(time.as_str()).concat(
            " UTC",
        )
    }
}

/// The first second of the year 10000.
pub const FIVE_DIGIT_YEARS: i64 = 253_402_300_800;

proof fn lemma_padded(n: nat, width: nat)
    requires
        width == 2 && n < 100 || width == 4 && n < 10_000,
    ensures
        padded(n, width).len() == width,
{
    reveal_with_fuel(decimal, 5);
}

proof fn lemma_formats_differ()
    ensures
        "iso"@ != "date"@ && "iso"@ != "time"@ && "iso"@ != "unix"@ && "iso"@ != "friendly"@,
        "date"@ != "time"@ && "date"@ != "unix"@ && "date"@ != "friendly"@,
        "time"@ != "unix"@ && "time"@ != "friendly"@,
        "unix"@ != "friendly"@,
{
    reveal_strlit("iso");
    reveal_strlit("date");
    reveal_strlit("time");
    reveal_strlit("unix");
    reveal_strlit("friendly");
    assert("iso"@.len() == 3 && "friendly"@.len() == 8);
    assert("date"@.len() == 4 && "time"@.len() == 4 && "unix"@.len() == 4);
    assert("date"@[0] == 'd' && "time"@[0] == 't' && "unix"@[0] == 'u');
}

proof fn lemma_time_shape(second: int)
    requires
        0 <= second < 86_400,
    ensures
        ({
            let t = time_text(second);
            t.len() == 8 && t[2] == ':' && t[5] == ':'
        }),
{
    reveal_strlit(":");
    lemma_padded((second / 3600) as nat, 2);
    lemma_padded((second / 60 % 60) as nat, 2);
    lemma_padded((second % 60) as nat, 2);
}

proof fn lemma_date_shape(y: int, m: int, d: int)
    requires
        0 <= y < 10_000,
        is_date(y, m, d),
    ensures
        ({
            let t = date_text(y, m, d);
            t.len() == 10 && t[4] == '-' && t[7] == '-'
        }),
{
    reveal_strlit("-");
    lemma_padded(y as nat, 4);
    lemma_padded(m as nat, 2);
    lemma_padded(d as nat, 2);
}

/// All formats say the same moment: the ISO text is the date, `T`, the time
/// and `Z`, the time reads `HH:MM:SS`, and no format at all is the friendly
/// one, which has a comma in it. Up to the year 9999 the date reads
/// `YYYY-MM-DD`.
pub proof fn law_formats_agree(
    secs: int,
    iso: Seq<char>,
    date: Seq<char>,
    time: Seq<char>,
    friendly: Seq<char>,
    default: Seq<char>,
)
    requires
        is_moment("iso"@, secs, iso),
        is_moment("date"@, secs, date),
        is_moment("time"@, secs, time),
        is_moment("friendly"@, secs, friendly),
        is_moment(format_or_friendly(None), secs, default),
    ensures
        iso == date + "T"@ + time + "Z"@,
        time.len() == 8 && time[2] == ':' && time[5] == ':',
        friendly.contains(','),
        default == friendly,
        0 <= secs < FIVE_DIGIT_YEARS ==> date.len() == 10 && date[4] == '-' && date[7] == '-',
{
    lemma_formats_differ();
    let day = secs / 86_400;
    let (y, m, d) = choose|y: int, m: int, d: int|
        is_date(y, m, d) && #[trigger] day_number(y, m, d) == day && iso == moment_text(
            "iso"@,
            y,
            m,
            d,
            secs,
        );
    lemma_same_date("date"@, secs, date, y, m, d);
    lemma_same_date("time"@, secs, time, y, m, d);
    lemma_same_date("friendly"@, secs, friendly, y, m, d);
    lemma_same_date("friendly"@, secs, default, y, m, d);
    lemma_time_shape(secs % 86_400);
    reveal_strlit(", ");
    let at = weekday_text(weekday(day)).len() as int;
    assert(friendly[at] == ',');
    if 0 <= secs < FIVE_DIGIT_YEARS {
        lemma_within_year(y, m, d);
        assert(days_before_year(10_000) == 2_932_897);
        assert(days_before_year(1970) == 0);
        if y >= 10_000 {
            lemma_years_grow(10_000, y);
        }
        if y < 1970 {
            lemma_years_grow(y + 1, 1970);
        }
        lemma_date_shape(y, m, d);
    }
}

proof fn lemma_same_date(format: Seq<char>, secs: int, text: Seq<char>, y: int, m: int, d: int)
    requires
        is_moment(format, secs, text),
        is_date(y, m, d),
        day_number(y, m, d) == secs / 86_400,
    ensures
        text == moment_text(format, y, m, d, secs),
{
    let (y2, m2, d2) = choose|y: int, m: int, d: int|
        is_date(y, m, d) && #[trigger] day_number(y, m, d) == secs / 86_400 && text == moment_text(
            format,
            y,
            m,
            d,
            secs,
        );
    law_day_numbers_are_distinct(y, m, d, y2, m2, d2);
}

} // verus!
