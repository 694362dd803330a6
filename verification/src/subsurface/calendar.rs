//! Civil date and time of a unix timestamp.

use vstd::prelude::*;

verus! {

/// Leap years of the Gregorian calendar.
pub open spec fn is_leap(year: int) -> bool {
    year % 4 == 0 && (year % 100 != 0 || year % 400 == 0)
}

/// Length of a month.
pub open spec fn month_days(year: int, month: int) -> int {
    if month == 2 {
        if is_leap(year) {
            29
        } else {
            28
        }
    } else if month == 4 || month == 6 || month == 9 || month == 11 {
        30
    } else {
        31
    }
}

/// Days of `year` before its month `month` begins.
pub open spec fn days_before_month(year: int, month: int) -> int
    decreases month,
{
    if month <= 1 {
        0
    } else {
        days_before_month(year, month - 1) + month_days(year, month - 1)
    }
}

/// Days from 1 January of year 1 to 1 January of `year`: 365 for each year in
/// between, and one more for each leap year.
pub open spec fn days_before_year(year: int) -> int {
    365 * (year - 1) + (year - 1) / 4 - (year - 1) / 100 + (year - 1) / 400
}

/// The month exists and has that day.
pub open spec fn valid_date(year: int, month: int, day: int) -> bool {
    1 <= month <= 12 && 1 <= day <= month_days(year, month)
}

/// Days from 1 January 1970 to the given date.
pub open spec fn day_number(year: int, month: int, day: int) -> int {
    days_before_year(year) - days_before_year(1970) + days_before_month(year, month) + day - 1
}

/// A year is 365 days long, a leap year 366.
pub proof fn year_length(year: int)
    ensures
        days_before_year(year + 1) - days_before_year(year) == if is_leap(year) {
            366int
        } else {
            365
        },
{
    quotients_step(year);
    multiples_nest(year);
}

proof fn month_offsets(year: int)
    ensures
        days_before_month(year, 1) == 0,
        days_before_month(year, 2) == 31,
        ({
            let f = if is_leap(year) {
                29int
            } else {
                28
            };
            &&& days_before_month(year, 3) == 31 + f
            &&& days_before_month(year, 4) == 62 + f
            &&& days_before_month(year, 5) == 92 + f
            &&& days_before_month(year, 6) == 123 + f
            &&& days_before_month(year, 7) == 153 + f
            &&& days_before_month(year, 8) == 184 + f
            &&& days_before_month(year, 9) == 215 + f
            &&& days_before_month(year, 10) == 245 + f
            &&& days_before_month(year, 11) == 276 + f
            &&& days_before_month(year, 12) == 306 + f
            &&& days_before_month(year, 13) == 337 + f
        }),
{
    reveal_with_fuel(days_before_month, 14);
}

/// The year of the 400-year cycle in which day `doe` of the cycle falls, years
/// beginning in March, and the day of that year.
proof fn year_of_cycle(doe: int, yoe: int)
    requires
        0 <= doe <= 146_096,
        yoe == (doe - doe / 1460 + doe / 36524 - doe / 146_096) / 365,
    ensures
        0 <= yoe <= 399,
        365 * yoe + yoe / 4 - yoe / 100 <= doe,
        doe < 365 * (yoe + 1) + (yoe + 1) / 4 - (yoe + 1) / 100 + (yoe + 1) / 400,
{
}

/// Quotients and remainders of a year, from its place in the 400-year cycle.
proof fn cycle_quotients(era: int, yoe: int, year: int)
    requires
        0 <= yoe <= 399,
        year == yoe + era * 400,
    ensures
        year / 4 == yoe / 4 + era * 100,
        year / 100 == yoe / 100 + era * 4,
        year / 400 == era,
        year % 4 == yoe % 4,
        year % 100 == yoe % 100,
        year % 400 == yoe,
{
}

/// One year back, a quotient is smaller only after a multiple of the divisor.
proof fn quotients_step(year: int)
    ensures
        (year - 1) / 4 == year / 4 - if year % 4 == 0 {
            1int
        } else {
            0
        },
        (year - 1) / 100 == year / 100 - if year % 100 == 0 {
            1int
        } else {
            0
        },
        (year - 1) / 400 == year / 400 - if year % 400 == 0 {
            1int
        } else {
            0
        },
{
}

/// 1 March of the year `yoe` of the cycle `era`.
proof fn first_of_march(era: int, yoe: int, year: int)
    requires
        0 <= yoe <= 399,
        year == yoe + era * 400,
    ensures
        days_before_year(year) + days_before_month(year, 3) == 365 * yoe + yoe / 4 - yoe / 100
            + era * 146_097 - 306,
{
    month_offsets(year);
    cycle_quotients(era, yoe, year);
    quotients_step(year);
    multiples_nest(year);
}

/// A multiple of 400 is one of 100, and a multiple of 100 is one of 4.
proof fn multiples_nest(year: int)
    ensures
        year % 400 == 0 ==> year % 100 == 0,
        year % 100 == 0 ==> year % 4 == 0,
{
}

/// Whether the year after the year `yoe` of the cycle `era` is a leap year.
proof fn next_is_leap(era: int, yoe: int, year: int)
    requires
        0 <= yoe <= 399,
        year == yoe + era * 400,
    ensures
        is_leap(year + 1) <==> ((yoe + 1) % 4 == 0 && ((yoe + 1) % 100 != 0 || yoe == 399)),
{
    if yoe < 399 {
        cycle_quotients(era, yoe + 1, year + 1);
    } else {
        cycle_quotients(era + 1, 0, year + 1);
    }
}

/// Month and day of day `doy` of a year that begins on 1 March `year`.
proof fn month_of_march_year(year: int, doy: int, mp: int)
    requires
        0 <= doy <= 365,
        doy == 365 ==> is_leap(year + 1),
        mp == (5 * doy + 2) / 153,
    ensures
        0 <= mp <= 11,
        ({
            let day = doy - (153 * mp + 2) / 5 + 1;
            let month = if mp < 10 {
                mp + 3
            } else {
                mp - 9
            };
            let y = if mp < 10 {
                year
            } else {
                year + 1
            };
            &&& valid_date(y, month, day)
            &&& days_before_year(y) + days_before_month(y, month) + day - 1 == days_before_year(
                year,
            ) + days_before_month(year, 3) + doy
        }),
{
    month_offsets(year);
    month_offsets(year + 1);
    year_length(year);
    assert(0 <= mp <= 11);
    let start = (153 * mp + 2) / 5;
    if mp == 0 {
        assert(start == 0);
    } else if mp == 1 {
        assert(start == 31);
    } else if mp == 2 {
        assert(start == 61);
    } else if mp == 3 {
        assert(start == 92);
    } else if mp == 4 {
        assert(start == 122);
    } else if mp == 5 {
        assert(start == 153);
    } else if mp == 6 {
        assert(start == 184);
    } else if mp == 7 {
        assert(start == 214);
    } else if mp == 8 {
        assert(start == 245);
    } else if mp == 9 {
        assert(start == 275);
    } else if mp == 10 {
        assert(start == 306);
    } else {
        assert(start == 337);
    }
}

/// Day of the March-based year, from the day of the cycle.
proof fn day_of_year(doe: int, yoe: int, doy: int)
    requires
        0 <= doe <= 146_096,
        yoe == (doe - doe / 1460 + doe / 36524 - doe / 146_096) / 365,
        doy == doe - (365 * yoe + yoe / 4 - yoe / 100),
    ensures
        0 <= yoe <= 399,
        0 <= doy <= 365,
        doy == 365 ==> (yoe + 1) % 4 == 0 && ((yoe + 1) % 100 != 0 || yoe == 399),
{
    year_of_cycle(doe, yoe);
}

/// Civil date of the day `days` after 1 January 1970: year, month, day.
fn civil_date(days: i64) -> (r: (i64, u32, u32))
    requires
        -0x1000_0000_0000_0000 <= days <= 0x1000_0000_0000_0000,
    ensures
        valid_date(r.0 as int, r.1 as int, r.2 as int),
        day_number(r.0 as int, r.1 as int, r.2 as int) == days,
{
    let z: i64 = days + 719_468;
    let era: i64 = z.checked_div_euclid(146_097).unwrap();
    let doe: i64 = z - era * 146_097;
    let yoe: i64 = (doe - doe / 1460 + doe / 36524 - doe / 146_096) / 365;
    let ghost day = doe - (365 * yoe + yoe / 4 - yoe / 100);
    proof {
        day_of_year(doe as int, yoe as int, day);
    }
    let y: i64 = yoe + era * 400;
    let doy: i64 = doe - (365 * yoe + yoe / 4 - yoe / 100);
    let mp: i64 = (5 * doy + 2) / 153;
    proof {
        first_of_march(era as int, yoe as int, y as int);
        next_is_leap(era as int, yoe as int, y as int);
        month_of_march_year(y as int, doy as int, mp as int);
        assert(days_before_year(1970) == 719_162);
    }
    let d: i64 = doy - (153 * mp + 2) / 5 + 1;
    let m: i64 = if mp < 10 { mp + 3 } else { mp - 9 };
    let year: i64 = if m <= 2 { y + 1 } else { y };
    (year, m as u32, d as u32)
}

/// A civil date and time: year, month, day, hour, minute, second.
pub struct Civil {
    pub year: int,
    pub month: int,
    pub day: int,
    pub hour: int,
    pub minute: int,
    pub second: int,
}

/// `c` is the civil date and time (UTC) of `secs` seconds since 1 January 1970.
pub open spec fn is_civil(secs: int, c: Civil) -> bool {
    &&& valid_date(c.year, c.month, c.day)
    &&& day_number(c.year, c.month, c.day) == secs / 86400
    &&& 0 <= c.hour < 24
    &&& 0 <= c.minute < 60
    &&& 0 <= c.second < 60
    &&& c.hour * 3600 + c.minute * 60 + c.second == secs % 86400
}

/// The civil date and time (UTC) of `secs` seconds since 1 January 1970.
pub open spec fn civil_of(secs: int) -> Civil {
    choose|c: Civil| is_civil(secs, c)
}

/// The numbers that `civil` returns, as a date and time.
pub open spec fn as_civil(r: (i64, u32, u32, u32, u32, u32)) -> Civil {
    Civil {
        year: r.0 as int,
        month: r.1 as int,
        day: r.2 as int,
        hour: r.3 as int,
        minute: r.4 as int,
        second: r.5 as int,
    }
}

/// Civil date and time (UTC) of `secs` seconds since 1 January 1970: year,
/// month, day, hour, minute, second.
pub fn civil(secs: i64) -> (r: (i64, u32, u32, u32, u32, u32))
    ensures
        is_civil(secs as int, as_civil(r)),
        as_civil(r) == civil_of(secs as int),
{
    let days: i64 = secs.checked_div_euclid(86400).unwrap();
    let rem: i64 = secs.checked_rem_euclid(86400).unwrap();
    let (year, month, day) = civil_date(days);
    let hh: i64 = rem / 3600;
    let mm: i64 = (rem % 3600) / 60;
    let ss: i64 = rem % 60;
    let r: (i64, u32, u32, u32, u32, u32) = (
        year,
        month,
        day,
        hh as u32,
        mm as u32,
        ss as u32,
    );
    proof {
        assert(is_civil(secs as int, as_civil(r)));
        civil_is_unique(secs as int, as_civil(r), civil_of(secs as int));
    }
    r
}

/// A moment has one civil date and time only.
pub proof fn civil_is_unique(secs: int, a: Civil, b: Civil)
    requires
        is_civil(secs, a),
        is_civil(secs, b),
    ensures
        a == b,
{
    day_number_is_unique(a.year, a.month, a.day, b.year, b.month, b.day);
}

/// No two dates have the same day number, so the number determines the date.
pub proof fn day_number_is_unique(y1: int, m1: int, d1: int, y2: int, m2: int, d2: int)
    requires
        valid_date(y1, m1, d1),
        valid_date(y2, m2, d2),
        day_number(y1, m1, d1) == day_number(y2, m2, d2),
    ensures
        y1 == y2 && m1 == m2 && d1 == d2,
{
    month_offsets(y1);
    month_offsets(y2);
    year_length(y1);
    year_length(y2);
}

/// The day after a date in a month is its successor in number, the first of a
/// month follows the last of the month before, and 1 January follows
/// 31 December.
pub proof fn days_follow_each_other(year: int, month: int, day: int)
    requires
        valid_date(year, month, day),
    ensures
        day < month_days(year, month) ==> day_number(year, month, day + 1) == day_number(
            year,
            month,
            day,
        ) + 1,
        day == month_days(year, month) && month < 12 ==> day_number(year, month + 1, 1)
            == day_number(year, month, day) + 1,
        day == 31 && month == 12 ==> day_number(year + 1, 1, 1) == day_number(year, month, day) + 1,
        day_number(1970, 1, 1) == 0,
{
    month_offsets(year);
    month_offsets(year + 1);
    month_offsets(1970);
    year_length(year);
}

/// From the first of a month to the first of the next there are 30 days in April,
/// June, September and November, 28 in February, 29 in the February of a year that
/// is divisible by 4 and, if by 100, then by 400, and 31 in the other months.
pub proof fn months_have_their_days(year: int, month: int)
    requires
        1 <= month <= 12,
    ensures
        ({
            let days = if month < 12 {
                day_number(year, month + 1, 1) - day_number(year, month, 1)
            } else {
                day_number(year + 1, 1, 1) - day_number(year, month, 1)
            };
            &&& month == 4 || month == 6 || month == 9 || month == 11 ==> days == 30
            &&& month == 2 && (year % 400 == 0 || (year % 4 == 0 && year % 100 != 0)) ==> days == 29
            &&& month == 2 && year % 400 != 0 && (year % 4 != 0 || year % 100 == 0) ==> days == 28
            &&& month != 2 && month != 4 && month != 6 && month != 9 && month != 11 ==> days == 31
        }),
{
    month_offsets(year);
    month_offsets(year + 1);
    year_length(year);
    assert(year % 400 == 0 ==> year % 4 == 0);
}

/// A second later the clock shows one second more, and starts over from nought
/// after 59 seconds, 59 minutes and 23 hours; only then does the day change, to
/// the next one.
pub proof fn clock_runs_on(secs: int, now: Civil, next: Civil)
    requires
        is_civil(secs, now),
        is_civil(secs + 1, next),
    ensures
        now.second < 59 ==> next == (Civil { second: now.second + 1, ..now }),
        now.second == 59 && now.minute < 59 ==> next == (Civil {
            second: 0,
            minute: now.minute + 1,
            ..now
        }),
        now.second == 59 && now.minute == 59 && now.hour < 23 ==> next == (Civil {
            second: 0,
            minute: 0,
            hour: now.hour + 1,
            ..now
        }),
        now.second == 59 && now.minute == 59 && now.hour == 23 ==> {
            &&& next.second == 0 && next.minute == 0 && next.hour == 0
            &&& day_number(next.year, next.month, next.day) == day_number(
                now.year,
                now.month,
                now.day,
            ) + 1
        },
{
    if now.second < 59 || now.minute < 59 || now.hour < 23 {
        assert((secs + 1) / 86400 == secs / 86400);
        day_number_is_unique(now.year, now.month, now.day, next.year, next.month, next.day);
    }
}

} // verus!
