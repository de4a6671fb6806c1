//! Dates and times of the day, for log lines and time stamps.
use vstd::arithmetic::div_mod::lemma_mod_multiples_vanish;
use vstd::prelude::*;

use crate::numbers::{padded, push_padded};

verus! {

// ---------------------------------------------------------------------------
// The calendar
// ---------------------------------------------------------------------------

/// Whether a year has a 29th of February.
pub open spec fn is_leap(y: int) -> bool {
    y % 4 == 0 && (y % 100 != 0 || y % 400 == 0)
}

/// How many days a month has.
pub open spec fn month_length(y: int, m: int) -> int {
    if m == 2 {
        if is_leap(y) {
            29
        } else {
            28
        }
    } else if m == 4 || m == 6 || m == 9 || m == 11 {
        30
    } else {
        31
    }
}

/// How many days of a year lie before a month.
pub open spec fn days_before_month(y: int, m: int) -> int
    decreases m,
{
    if m <= 1 {
        0
    } else {
        days_before_month(y, m - 1) + month_length(y, m - 1)
    }
}

/// How many days lie between the beginning of year 0 and that of a year.
pub open spec fn days_before_year(y: int) -> int {
    365 * y + (y + 3) / 4 - (y + 99) / 100 + (y + 399) / 400
}

/// Whether there is such a date.
pub open spec fn is_date(y: int, m: int, d: int) -> bool {
    1 <= m <= 12 && 1 <= d <= month_length(y, m)
}

/// How many days a date lies behind the 1st of January 1970.
pub open spec fn day_number(y: int, m: int, d: int) -> int {
    days_before_year(y) + days_before_month(y, m) + d - 1 - 719528
}

/// The beginnings of two successive years lie one year apart.
pub proof fn years_are_counted(y: int)
    ensures
        days_before_year(y + 1) - days_before_year(y) == if is_leap(y) {
            366int
        } else {
            365int
        },
        days_before_year(0) == 0,
{
    fourth_years(y);
    hundredth_years(y);
    four_hundredth_years(y);
}

/// Every fourth year is one more fourth year.
proof fn fourth_years(y: int)
    ensures
        (y + 1 + 3) / 4 - (y + 3) / 4 == if y % 4 == 0 {
            1int
        } else {
            0int
        },
        y % 4 == 0 ==> (y + 3) / 4 == y / 4,
        y % 4 != 0 ==> (y + 3) / 4 == y / 4 + 1,
{
}

/// Every hundredth year is one more hundredth year, and a fourth year.
proof fn hundredth_years(y: int)
    ensures
        (y + 1 + 99) / 100 - (y + 99) / 100 == if y % 100 == 0 {
            1int
        } else {
            0int
        },
        y % 100 == 0 ==> (y + 99) / 100 == y / 100,
        y % 100 != 0 ==> (y + 99) / 100 == y / 100 + 1,
        y % 100 == 0 ==> y % 4 == 0,
{
}

/// Every four hundredth year is one more four hundredth year, and a hundredth
/// year.
proof fn four_hundredth_years(y: int)
    ensures
        (y + 1 + 399) / 400 - (y + 399) / 400 == if y % 400 == 0 {
            1int
        } else {
            0int
        },
        y % 400 == 0 ==> (y + 399) / 400 == y / 400,
        y % 400 != 0 ==> (y + 399) / 400 == y / 400 + 1,
        y % 400 == 0 ==> y % 100 == 0,
{
}

/// The parts of a year number in a cycle of 400 years.
proof fn cycle_divisions(era: int, yoe: int)
    requires
        0 <= yoe <= 399,
    ensures
        (400 * era + yoe) / 4 == 100 * era + yoe / 4,
        (400 * era + yoe) / 100 == 4 * era + yoe / 100,
        (400 * era + yoe) / 400 == era,
{
}

/// When the March of a year begins, for year `yoe` of cycle `era`.
proof fn march_begins(era: int, yoe: int)
    requires
        0 <= yoe <= 399,
    ensures
        days_before_year(400 * era + yoe) + days_before_month(400 * era + yoe, 3) == 146097 * era
            + 365 * yoe + yoe / 4 - yoe / 100 + 60,
{
    let y = 400 * era + yoe;
    month_table(y);
    cycle_divisions(era, yoe);
    fourth_years(y);
    hundredth_years(y);
    four_hundredth_years(y);
}

/// The 1st of January 1970 is day 0.
pub proof fn epoch_is_day_zero()
    ensures
        day_number(1970, 1, 1) == 0,
{
}

/// The days in front of the months, in numbers.
proof fn month_table(y: int)
    ensures
        days_before_month(y, 1) == 0,
        days_before_month(y, 2) == 31,
        ({
            let l: int = if is_leap(y) {
                1
            } else {
                0
            };
            &&& days_before_month(y, 3) == 59 + l
            &&& days_before_month(y, 4) == 90 + l
            &&& days_before_month(y, 5) == 120 + l
            &&& days_before_month(y, 6) == 151 + l
            &&& days_before_month(y, 7) == 181 + l
            &&& days_before_month(y, 8) == 212 + l
            &&& days_before_month(y, 9) == 243 + l
            &&& days_before_month(y, 10) == 273 + l
            &&& days_before_month(y, 11) == 304 + l
            &&& days_before_month(y, 12) == 334 + l
        }),
{
    reveal_with_fuel(days_before_month, 13);
}

/// Where a day stands in a cycle of 400 years that begins in March.
proof fn year_of_cycle(doe: int, yoe: int)
    requires
        0 <= doe < 146097,
        yoe == (doe - doe / 1460 + doe / 36524 - doe / 146096) / 365,
    ensures
        0 <= yoe <= 399,
        365 * yoe + yoe / 4 - yoe / 100 <= doe,
        doe <= 365 * yoe + yoe / 4 - yoe / 100 + 365,
        doe == 365 * yoe + yoe / 4 - yoe / 100 + 365 ==> is_leap(yoe + 1),
{
}

/// The day and the month of a day of a year that begins in March.
proof fn day_of_month(doy: int, mp: int, d: int, m: int)
    requires
        0 <= doy <= 365,
        mp == (5 * doy + 2) / 153,
        d == doy - (153 * mp + 2) / 5 + 1,
        m == if mp < 10 {
            mp + 3
        } else {
            mp - 9
        },
    ensures
        1 <= m <= 12,
        m > 2 ==> forall|y: int| #[trigger]
            days_before_month(y, m) + d - 1 == days_before_month(y, 3) + doy && 1 <= d
                <= month_length(y, m),
        m == 1 ==> d - 1 + 306 == doy && 1 <= d <= 31,
        m == 2 ==> d - 1 + 337 == doy && 1 <= d <= 29,
{
    assert forall|y: int| m > 2 implies #[trigger] days_before_month(y, m) + d - 1
        == days_before_month(y, 3) + doy && 1 <= d <= month_length(y, m) by {
        month_table(y);
        assert(mp == 0 || mp == 1 || mp == 2 || mp == 3 || mp == 4 || mp == 5 || mp == 6 || mp == 7
            || mp == 8 || mp == 9);
    }
}

/// Days that `days_to_ymd` takes: those of the years whose numbers, and the
/// numbers of the cycles of 400 years that they lie in, fit 32 bits.
pub open spec fn is_supported_day(days: int) -> bool {
    -784352998241 <= days <= 784351576776
}

/// The date that lies a number of days behind the 1st of January 1970.
pub fn days_to_ymd(days: i64) -> (r: (i32, u32, u32))
    requires
        is_supported_day(days as int),
    ensures
        is_date(r.0 as int, r.1 as int, r.2 as int),
        day_number(r.0 as int, r.1 as int, r.2 as int) == days,
{
    let z: i64 = days + 719468;
    let era: i64 = if z >= 0 {
        z / 146097
    } else {
        -((146096 - z) / 146097)
    };
    assert(era == z as int / 146097);
    let doe: u32 = (z - era * 146097) as u32;
    assert(0 <= doe < 146097);
    let yoe: u32 = (doe - doe / 1460 + doe / 36524 - doe / 146096) / 365;
    proof {
        year_of_cycle(doe as int, yoe as int);
    }
    let y: i32 = yoe as i32 + era as i32 * 400;
    let doy: u32 = doe - (365 * yoe + yoe / 4 - yoe / 100);
    let mp: u32 = (5 * doy + 2) / 153;
    let d: u32 = doy - (153 * mp + 2) / 5 + 1;
    let m: u32 = if mp < 10 {
        mp + 3
    } else {
        mp - 9
    };
    let ghost yi = y as int;
    proof {
        day_of_month(doy as int, mp as int, d as int, m as int);
        march_begins(era as int, yoe as int);
        assert(yi == 400 * era + yoe);
        january_and_february(era as int, yoe as int, doe as int);
        month_table(yi + 1);
        assert(m > 2 ==> days_before_month(yi, m as int) + d - 1 == days_before_month(yi, 3)
            + doy);
    }
    if m <= 2 {
        (y + 1, m, d)
    } else {
        (y, m, d)
    }
}

/// The January that follows the March of a year begins 306 days behind it, and
/// the last day of a cycle year of 366 days is a 29th of February.
proof fn january_and_february(era: int, yoe: int, doe: int)
    requires
        0 <= yoe <= 399,
        doe == 365 * yoe + yoe / 4 - yoe / 100 + 365 ==> is_leap(yoe + 1),
    ensures
        days_before_year(400 * era + yoe + 1) == 146097 * era + 365 * yoe + yoe / 4 - yoe / 100
            + 60 + 306,
        doe == 365 * yoe + yoe / 4 - yoe / 100 + 365 ==> is_leap(400 * era + yoe + 1),
{
    let y = 400 * era + yoe;
    month_table(y);
    march_begins(era, yoe);
    years_are_counted(y);
    leap_in_cycle(era, yoe + 1);
}

/// Cycles of 400 years are alike.
proof fn leap_in_cycle(era: int, y: int)
    ensures
        is_leap(400 * era + y) == is_leap(y),
{
    lemma_mod_multiples_vanish(100 * era, y, 4);
    lemma_mod_multiples_vanish(4 * era, y, 100);
    lemma_mod_multiples_vanish(era, y, 400);
    let n = 400 * era + y;
    assert(4 * (100 * era) + y == n);
    assert(100 * (4 * era) + y == n);
}

/// A date lies in its year.
proof fn date_is_in_year(y: int, m: int, d: int)
    requires
        is_date(y, m, d),
    ensures
        0 <= days_before_month(y, m) + d - 1 < days_before_year(y + 1) - days_before_year(y),
{
    month_table(y);
    years_are_counted(y);
}

/// Later years begin later.
proof fn years_are_ordered(y: int, k: nat)
    ensures
        days_before_year(y) <= days_before_year(y + k),
    decreases k,
{
    if k > 0 {
        years_are_ordered(y, (k - 1) as nat);
        years_are_counted(y + k - 1);
    }
}

/// No two dates lie the same number of days behind the 1st of January 1970.
pub proof fn date_is_unique(y: int, m: int, d: int, y2: int, m2: int, d2: int)
    requires
        is_date(y, m, d),
        is_date(y2, m2, d2),
        day_number(y, m, d) == day_number(y2, m2, d2),
    ensures
        (y, m, d) == (y2, m2, d2),
{
    date_is_in_year(y, m, d);
    date_is_in_year(y2, m2, d2);
    if y < y2 {
        years_are_ordered(y + 1, (y2 - y - 1) as nat);
    }
    if y2 < y {
        years_are_ordered(y2 + 1, (y - y2 - 1) as nat);
    }
    month_table(y);
}

// ---------------------------------------------------------------------------
// Time stamps
// ---------------------------------------------------------------------------

/// The last second of the last day that a date can be written for.
pub const MAX_SECS: u64 = 67767976233532799;

/// Whether a text is the date, as `YYYY-MM-DD`, that lies a number of days
/// behind the 1st of January 1970.
pub open spec fn is_date_text(s: Seq<char>, days: int) -> bool {
    exists|y: int, m: int, d: int| #[trigger]
        is_date(y, m, d) && day_number(y, m, d) == days && 0 <= y && s == date_text(y, m, d)
}

/// A date as `YYYY-MM-DD`.
pub open spec fn date_text(y: int, m: int, d: int) -> Seq<char> {
    padded(y as nat, 4) + "-"@ + padded(m as nat, 2) + "-"@ + padded(d as nat, 2)
}

/// The date of a time, as `YYYY-MM-DD`. `secs` are the seconds since the
/// beginning of 1970.
pub fn chrono_today_yyyy_mm_dd(secs: u64) -> (s: String)
    requires
        secs <= MAX_SECS,
    ensures
        is_date_text(s@, secs as int / 86400),
{
    let days: i64 = (secs / 86400) as i64;
    let (y, m, d) = days_to_ymd(days);
    proof {
        if y < 0 {
            date_is_in_year(y as int, m as int, d as int);
            years_are_ordered(y as int + 1, (1969 - y) as nat);
        }
    }
    let mut s = String::new();
    push_padded(&mut s, y as u64, 4);
    s.append("-");
    push_padded(&mut s, m as u64, 2);
    s.append("-");
    push_padded(&mut s, d as u64, 2);
    proof {
        assert(s@ =~= date_text(y as int, m as int, d as int));
        assert(is_date(y as int, m as int, d as int));
    }
    s
}

/// The time of the day as `HH:MM:SS`.
pub open spec fn time_text(secs: int) -> Seq<char> {
    let s = secs % 86400;
    padded((s / 3600) as nat, 2) + ":"@ + padded((s / 60 % 60) as nat, 2) + ":"@ + padded(
        (s % 60) as nat,
        2,
    )
}

/// The time of the day of a time, as `HH:MM:SS`. `secs` are the seconds since
/// the beginning of 1970.
pub fn chrono_now_hms(secs: u64) -> (r: String)
    ensures
        r@ == time_text(secs as int),
{
    let s: u64 = secs % 86400;
    let mut r = String::new();
    push_padded(&mut r, s / 3600, 2);
    r.append(":");
    push_padded(&mut r, (s / 60) % 60, 2);
    r.append(":");
    push_padded(&mut r, s % 60, 2);
    assert(r@ =~= time_text(secs as int));
    r
}

/// A time in milliseconds since the beginning of 1970, modulo 2 to the power
/// of 64. `since` holds the seconds since then and the milliseconds of the
/// last second; a time before then counts as 0.
pub fn now_ms(since: Option<(u64, u32)>) -> (ms: u64)
    ensures
        match since {
            Some((secs, millis)) => ms as int == (secs * 1000 + millis) % 0x1_0000_0000_0000_0000,
            None => ms == 0,
        },
{
    match since {
        Some((secs, millis)) => {
            let total: u128 = secs as u128 * 1000 + millis as u128;
            assert(total as u64 == total % 0x1_0000_0000_0000_0000) by (bit_vector);
            #[verifier::truncate]
            (total as u64)
        },
        None => 0,
    }
}

} // verus!
