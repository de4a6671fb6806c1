//! Laws on the calendar, the time of the day and time spans.
use vstd::prelude::*;

use crate::clock::{
    date_is_unique, date_text, day_number, days_before_month, is_date, is_date_text, is_leap,
    month_length, time_text, years_are_counted,
};
use crate::numbers::{decimal, padded};
use crate::summary::duration_text;

verus! {

/// The months have 31 days, but for April, June, September and November with
/// 30, and for February with 28, or with 29 in every fourth year but for three
/// out of four hundredth years.
pub proof fn months_have_their_lengths(y: int)
    ensures
        month_length(y, 1) == 31,
        month_length(y, 2) == (if y % 400 == 0 || (y % 4 == 0 && y % 100 != 0) {
            29int
        } else {
            28int
        }),
        month_length(y, 3) == 31,
        month_length(y, 4) == 30,
        month_length(y, 5) == 31,
        month_length(y, 6) == 30,
        month_length(y, 7) == 31,
        month_length(y, 8) == 31,
        month_length(y, 9) == 30,
        month_length(y, 10) == 31,
        month_length(y, 11) == 30,
        month_length(y, 12) == 31,
        is_leap(y) == (y % 400 == 0 || (y % 4 == 0 && y % 100 != 0)),
{
    assert(y % 400 == 0 ==> y % 4 == 0) by (nonlinear_arith);
}

/// The day behind a date is the next day of its month, or the first of the
/// next month or of the next year, and its number is one more.
pub proof fn days_are_counted_one_by_one(y: int, m: int, d: int)
    requires
        1 <= m <= 12,
        1 <= d <= month_length(y, m),
    ensures
        is_date(y, m, d),
        d < month_length(y, m) ==> is_date(y, m, d + 1) && day_number(y, m, d + 1) == day_number(
            y,
            m,
            d,
        ) + 1,
        d == month_length(y, m) && m < 12 ==> is_date(y, m + 1, 1) && day_number(y, m + 1, 1)
            == day_number(y, m, d) + 1,
        d == month_length(y, m) && m == 12 ==> is_date(y + 1, 1, 1) && day_number(y + 1, 1, 1)
            == day_number(y, m, d) + 1,
        day_number(1970, 1, 1) == 0,
        !is_date(y, m, 0),
        !is_date(y, m, month_length(y, m) + 1),
        !is_date(y, 0, d),
        !is_date(y, 13, d),
{
    reveal_with_fuel(days_before_month, 13);
    years_are_counted(y);
}

/// The text of a day is its date: the year with four digits, the month and the
/// day with two, and hyphens between them.
pub proof fn dates_are_written(y: int, m: int, d: int)
    requires
        is_date(y, m, d),
        0 <= y,
    ensures
        is_date_text(
            padded(y as nat, 4) + "-"@ + padded(m as nat, 2) + "-"@ + padded(d as nat, 2),
            day_number(y, m, d),
        ),
        forall|s: Seq<char>| #[trigger]
            is_date_text(s, day_number(y, m, d)) ==> s == padded(y as nat, 4) + "-"@ + padded(
                m as nat,
                2,
            ) + "-"@ + padded(d as nat, 2),
{
    assert forall|s: Seq<char>| #[trigger] is_date_text(s, day_number(y, m, d)) implies s
        == padded(y as nat, 4) + "-"@ + padded(m as nat, 2) + "-"@ + padded(d as nat, 2) by {
        let (y2, m2, d2) = choose|y2: int, m2: int, d2: int| #[trigger]
            is_date(y2, m2, d2) && day_number(y2, m2, d2) == day_number(y, m, d) && 0 <= y2 && s
                == date_text(y2, m2, d2);
        date_is_unique(y, m, d, y2, m2, d2);
    }
}

/// The time of the day is its hour, minute and second, each with two digits,
/// whatever the day.
pub proof fn time_of_the_day_is_written(day: nat, h: nat, m: nat, s: nat)
    requires
        h < 24,
        m < 60,
        s < 60,
    ensures
        time_text(86400 * day + 3600 * h + 60 * m + s as int) == padded(h, 2) + ":"@ + padded(m, 2)
            + ":"@ + padded(s, 2),
{
    let t = 86400 * day + 3600 * h + 60 * m + s;
    let r = 3600 * h + 60 * m + s;
    assert(t as int % 86400 == r);
    assert(r / 3600 == h);
    assert(r / 60 == 60 * h + m);
    assert(r / 60 % 60 == m);
    assert(r % 60 == s);
}

/// A time span of an hour or more is written as `H:MM:SS`, one of a minute or
/// more as `M:SS`, one of a second or more in seconds, and a shorter one in
/// milliseconds.
pub proof fn time_spans_are_written(h: nat, m: nat, s: nat, millis: nat)
    requires
        m < 60,
        s < 60,
    ensures
        h > 0 ==> duration_text(3600 * h + 60 * m + s, millis) == decimal(h) + ":"@ + padded(m, 2)
            + ":"@ + padded(s, 2),
        m > 0 ==> duration_text(60 * m + s, millis) == decimal(m) + ":"@ + padded(s, 2),
        s > 0 ==> duration_text(s, millis) == decimal(s) + "s"@,
        duration_text(0, millis) == decimal(millis) + " ms"@,
{
    let t = 3600 * h + 60 * m + s;
    assert(t / 3600 == h);
    assert(t % 3600 == 60 * m + s);
    assert((60 * m + s) / 60 == m);
    assert(t % 60 == s);
    assert((60 * m + s) % 60 == s);
}

} // verus!
