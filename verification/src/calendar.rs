//! Days and seconds since the Unix epoch as dates of the proleptic Gregorian
//! calendar.
use vstd::prelude::*;
use vstd::string::*;
use crate::text::{append_padded, breaks_row, is_digit, is_row, law_padded_value, padded, value};

verus! {

/// Every fourth year is a leap year; of the centuries, every fourth.
pub open spec fn is_leap(y: int) -> bool {
    y % 4 == 0 && (y % 100 != 0 || y % 400 == 0)
}

pub open spec fn year_len(y: int) -> int {
    if is_leap(y) {
        366
    } else {
        365
    }
}

pub open spec fn month_len(y: int, m: int) -> int {
    if m == 2 {
        if is_leap(y) {
            29
        } else {
            28
        }
    } else if m == 4 || m == 6 || m == 9 || m == 11 {
        30
    } else {
        31
    }
}

/// Days from 1970-01-01 to January 1 of year `y`; negative before 1970.
pub open spec fn days_before_year(y: int) -> int
    decreases (if y >= 1970 { y - 1970 } else { 1970 - y }),
{
    if y == 1970 {
        0
    } else if y > 1970 {
        days_before_year(y - 1) + year_len(y - 1)
    } else {
        days_before_year(y + 1) - year_len(y)
    }
}

/// Days from January 1 of year `y` to the first day of month `m`.
pub open spec fn days_before_month(y: int, m: int) -> int
    decreases m,
{
    if m <= 1 {
        0
    } else {
        days_before_month(y, m - 1) + month_len(y, m - 1)
    }
}

/// A day that the calendar has.
pub open spec fn is_date(y: int, m: int, d: int) -> bool {
    1 <= m <= 12 && 1 <= d <= month_len(y, m)
}

/// Days from 1970-01-01 to the given date.
pub open spec fn day_number(y: int, m: int, d: int) -> int {
    days_before_year(y) + days_before_month(y, m) + (d - 1)
}

/// The leap day of year `y`, as a difference of multiples counted so far.
proof fn lemma_leap_day(y: int)
    ensures
        year_len(y) == 365 + ((y - 1968) / 4 - (y - 1969) / 4) - ((y - 1900) / 100 - (y - 1901)
            / 100) + ((y - 1600) / 400 - (y - 1601) / 400),
{
    assert((y - 1968) / 4 - (y - 1969) / 4 == (if y % 4 == 0 { 1int } else { 0 }));
    assert((y - 1900) / 100 - (y - 1901) / 100 == (if y % 100 == 0 { 1int } else { 0 }));
    assert((y - 1600) / 400 - (y - 1601) / 400 == (if y % 400 == 0 { 1int } else { 0 }));
    assert(y % 100 == 0 ==> y % 4 == 0);
    assert(y % 400 == 0 ==> y % 100 == 0);
}

/// The days before a year in closed form: 365 for each year, and a leap day for every
/// fourth one but those of three centuries out of four.
pub proof fn law_days_before_year(y: int)
    ensures
        days_before_year(y) == 365 * (y - 1970) + (y - 1969) / 4 - (y - 1901) / 100 + (y - 1601)
            / 400,
    decreases (if y >= 1970 { y - 1970 } else { 1970 - y }),
{
    if y > 1970 {
        law_days_before_year(y - 1);
        lemma_leap_day(y - 1);
        assert(y - 1 - 1968 == y - 1969);
        assert(y - 1 - 1900 == y - 1901);
        assert(y - 1 - 1600 == y - 1601);
    } else if y < 1970 {
        law_days_before_year(y + 1);
        lemma_leap_day(y);
        assert(y + 1 - 1969 == y - 1968);
        assert(y + 1 - 1901 == y - 1900);
        assert(y + 1 - 1601 == y - 1600);
    }
}

/// The days before each month, as a table.
proof fn lemma_days_before_month(y: int, m: int)
    requires
        1 <= m <= 12,
    ensures
        days_before_month(y, m) == (if m <= 2 {
            31 * (m - 1)
        } else {
            (153 * (m - 3) + 2) / 5 + 59 + (if is_leap(y) {
                1int
            } else {
                0
            })
        }),
{
    reveal_with_fuel(days_before_month, 13);
}

/// Years of a 400-year era begin on March 1. Day `doe` of the era lies in its
/// year `yoe`, which begins `365 * yoe + yoe / 4 - yoe / 100` days into the era
/// and is 366 days long when the following calendar year is a leap year.
proof fn lemma_year_of_era(doe: int, yoe: int)
    requires
        0 <= doe <= 146_096,
        yoe == (doe - doe / 1_460 + doe / 36_524 - doe / 146_096) / 365,
    ensures
        0 <= yoe <= 399,
        0 <= doe - (365 * yoe + yoe / 4 - yoe / 100) < year_len(yoe + 1),
{
    let c: int = doe / 36_524;
    if c >= 4 {
        assert(doe == 146_096);
    } else {
        let r: int = doe - 36_524 * c;
        let q: int = r / 1_461;
        let t: int = r - 1_461 * q;
        let e: int = if q + 24 * c + t >= 1_460 { 1 } else { 0 };
        assert(0 <= c <= 3 && 0 <= q <= 24 && 0 <= t <= 1_460);
        assert(q == 24 ==> t <= 1_459);
        assert(doe == 1_460 * (25 * c + q) + (q + 24 * c + t));
        assert(doe / 1_460 == 25 * c + q + e);
        assert(doe / 146_096 == 0);
        let s: int = if t >= 1_095 { 3 } else { t / 365 };
        assert(yoe == (365 * (100 * c + 4 * q) + (t - e)) / 365);
        assert((t - e) / 365 == s);
        assert(yoe == 100 * c + 4 * q + s);
        assert(yoe / 4 == 25 * c + q);
        assert(yoe / 100 == c);
        if t - 365 * s == 365 {
            assert(s == 3 && t == 1_460);
            assert((yoe + 1) % 4 == 0);
            assert(1 <= q + 1 <= 24);
            assert((yoe + 1) % 100 == 4 * (q + 1));
        }
    }
}

/// Months of a year that begins on March 1: day `doy` lies in month `mp`, which
/// begins `(153 * mp + 2) / 5` days into the year.
proof fn lemma_month_of_year(doy: int, mp: int)
    requires
        0 <= doy <= 365,
        mp == (5 * doy + 2) / 153,
    ensures
        0 <= mp <= 11,
        (153 * mp + 2) / 5 <= doy,
        mp < 11 ==> doy < (153 * (mp + 1) + 2) / 5,
{
}

/// A whole era later the calendar repeats.
proof fn lemma_leap_repeats(era: int, yoe: int)
    ensures
        is_leap(400 * era + yoe) == is_leap(yoe),
{
    assert((400 * era + yoe) % 4 == yoe % 4);
    assert((400 * era + yoe) % 100 == yoe % 100);
    assert((400 * era + yoe) % 400 == yoe % 400);
}

/// March 1 of year `yoe` of an era, as days since 1970-01-01.
proof fn lemma_march(era: int, yoe: int)
    requires
        0 <= yoe <= 399,
    ensures
        day_number(400 * era + yoe, 3, 1) == 146_097 * era + (365 * yoe + yoe / 4 - yoe / 100)
            - 719_468,
{
    let y: int = 400 * era + yoe;
    law_days_before_year(y);
    lemma_days_before_month(y, 3);
    lemma_leap_repeats(era, yoe);
    assert((y - 1969) / 4 == 100 * era + (yoe - 1969) / 4);
    assert((y - 1901) / 100 == 4 * era + (yoe - 1901) / 100);
    assert((y - 1601) / 400 == era + (yoe - 1601) / 400);
}

/// The length of a year is the distance to the next one.
pub proof fn law_year_length(y: int)
    ensures
        days_before_year(y + 1) - days_before_year(y) == year_len(y),
{
}

/// The date that lies `doy` days behind March 1 of year `yoe` of an era.
proof fn lemma_date_of_march_year(era: int, yoe: int, doy: int, mp: int, y: int, m: int, d: int)
    requires
        0 <= yoe <= 399,
        0 <= doy < year_len(yoe + 1),
        mp == (5 * doy + 2) / 153,
        m == (if mp < 10 { mp + 3 } else { mp - 9 }),
        d == doy - (153 * mp + 2) / 5 + 1,
        y == 400 * era + yoe + (if m <= 2 { 1int } else { 0 }),
    ensures
        is_date(y, m, d),
        day_number(y, m, d) == 146_097 * era + (365 * yoe + yoe / 4 - yoe / 100) + doy - 719_468,
{
    lemma_month_of_year(doy, mp);
    lemma_march(era, yoe);
    lemma_leap_repeats(era, yoe);
    lemma_leap_repeats(era, yoe + 1);
    lemma_days_before_month(400 * era + yoe, 3);
    lemma_days_before_month(y, m);
    law_year_length(400 * era + yoe);
    if mp < 5 {
        assert(mp == 0 || mp == 1 || mp == 2 || mp == 3 || mp == 4);
    } else {
        assert(mp == 5 || mp == 6 || mp == 7 || mp == 8 || mp == 9 || mp == 10 || mp == 11);
    }
}

/// Days since 1970-01-01 as year, month and day.
pub fn civil_from_days(z: i64) -> (r: (i64, u32, u32))
    requires
        z <= i64::MAX - 719_468,
    ensures
        is_date(r.0 as int, r.1 as int, r.2 as int),
        day_number(r.0 as int, r.1 as int, r.2 as int) == z,
{
    let z: i64 = z + 719_468;
    let era: i64 = (if z >= 0 { z } else { z - 146_096 }) / 146_097;
    let doe: u64 = (z - era * 146_097) as u64;
    proof {
        let e: int = era as int;
        assert(0 <= z - e * 146_097 <= 146_096);
    }
    let yoe: u64 = (doe - doe / 1_460 + doe / 36_524 - doe / 146_096) / 365;
    proof {
        lemma_year_of_era(doe as int, yoe as int);
    }
    let y: i64 = yoe as i64 + era * 400;
    let doy: u64 = doe - (365 * yoe + yoe / 4 - yoe / 100);
    let mp: u64 = (5 * doy + 2) / 153;
    proof {
        lemma_month_of_year(doy as int, mp as int);
    }
    let d: u32 = (doy - (153 * mp + 2) / 5 + 1) as u32;
    let m: u64 = if mp < 10 { mp + 3 } else { mp - 9 };
    let y: i64 = if m <= 2 { y + 1 } else { y };
    proof {
        lemma_date_of_march_year(
            era as int,
            yoe as int,
            doy as int,
            mp as int,
            y as int,
            m as int,
            d as int,
        );
    }
    (y, m as u32, d)
}

/// The months of a year add up to it.
proof fn lemma_day_within_year(y: int, m: int, d: int)
    requires
        is_date(y, m, d),
    ensures
        0 <= days_before_month(y, m) + (d - 1) < year_len(y),
{
    lemma_days_before_month(y, m);
    assert(m == 1 || m == 2 || m == 3 || m == 4 || m == 5 || m == 6 || m == 7 || m == 8 || m == 9
        || m == 10 || m == 11 || m == 12);
}

proof fn lemma_years_in_order(y1: int, y2: int)
    requires
        y1 <= y2,
    ensures
        days_before_year(y1) <= days_before_year(y2),
    decreases y2 - y1,
{
    if y1 < y2 {
        lemma_years_in_order(y1, y2 - 1);
        law_year_length(y2 - 1);
    }
}

proof fn lemma_months_in_order(y: int, m1: int, m2: int)
    requires
        1 <= m1 < m2 <= 12,
    ensures
        days_before_month(y, m1) + month_len(y, m1) <= days_before_month(y, m2),
    decreases m2 - m1,
{
    if m1 < m2 - 1 {
        lemma_months_in_order(y, m1, m2 - 1);
    }
}

/// No two dates share a day number: a later date has a larger one.
pub proof fn law_dates_in_order(y1: int, m1: int, d1: int, y2: int, m2: int, d2: int)
    requires
        is_date(y1, m1, d1),
        is_date(y2, m2, d2),
    ensures
        day_number(y1, m1, d1) < day_number(y2, m2, d2) <==> (y1 < y2 || (y1 == y2 && (m1 < m2 || (
        m1 == m2 && d1 < d2)))),
        day_number(y1, m1, d1) == day_number(y2, m2, d2) <==> (y1, m1, d1) == (y2, m2, d2),
{
    lemma_day_within_year(y1, m1, d1);
    lemma_day_within_year(y2, m2, d2);
    if y1 < y2 {
        lemma_years_in_order(y1 + 1, y2);
        law_year_length(y1);
    } else if y2 < y1 {
        lemma_years_in_order(y2 + 1, y1);
        law_year_length(y2);
    } else if m1 < m2 {
        lemma_months_in_order(y1, m1, m2);
    } else if m2 < m1 {
        lemma_months_in_order(y1, m2, m1);
    }
}

/// The date behind the given one.
pub open spec fn next_date(y: int, m: int, d: int) -> (int, int, int) {
    if d < month_len(y, m) {
        (y, m, d + 1)
    } else if m < 12 {
        (y, m + 1, 1)
    } else {
        (y + 1, 1, 1)
    }
}

/// Day numbers count the calendar's days one by one: through a month, from the
/// last day of a month to the first of the next, and over the turn of a year.
pub proof fn law_next_day(y: int, m: int, d: int)
    requires
        is_date(y, m, d),
    ensures
        ({
            let (y1, m1, d1) = next_date(y, m, d);
            is_date(y1, m1, d1) && day_number(y1, m1, d1) == day_number(y, m, d) + 1
        }),
{
    if d == month_len(y, m) && m == 12 {
        law_year_length(y);
        lemma_days_before_month(y, 12);
    }
}

/// The date of a day number.
pub open spec fn date_of(day: int) -> (int, int, int) {
    choose|date: (int, int, int)|
        #![trigger day_number(date.0, date.1, date.2)]
        is_date(date.0, date.1, date.2) && day_number(date.0, date.1, date.2) == day
}

proof fn lemma_date_exists(day: int)
    ensures
        ({
            let (y, m, d) = date_of(day);
            is_date(y, m, d) && day_number(y, m, d) == day
        }),
{
    let z: int = day + 719_468;
    let era: int = z / 146_097;
    let doe: int = z - era * 146_097;
    let yoe: int = (doe - doe / 1_460 + doe / 36_524 - doe / 146_096) / 365;
    lemma_year_of_era(doe, yoe);
    let doy: int = doe - (365 * yoe + yoe / 4 - yoe / 100);
    let mp: int = (5 * doy + 2) / 153;
    let m: int = if mp < 10 { mp + 3 } else { mp - 9 };
    let d: int = doy - (153 * mp + 2) / 5 + 1;
    let y: int = 400 * era + yoe + (if m <= 2 { 1int } else { 0 });
    lemma_date_of_march_year(era, yoe, doy, mp, y, m, d);
    let date = (y, m, d);
    assert(is_date(date.0, date.1, date.2) && day_number(date.0, date.1, date.2) == day);
}

/// Every day has exactly one date, and `date_of` is it.
pub proof fn law_date_of(y: int, m: int, d: int)
    requires
        is_date(y, m, d),
    ensures
        date_of(day_number(y, m, d)) == (y, m, d),
{
    let day: int = day_number(y, m, d);
    lemma_date_exists(day);
    let (y1, m1, d1) = date_of(day);
    law_dates_in_order(y, m, d, y1, m1, d1);
}

/// A date and a time of day as `YYYY-MM-DDTHH:MM:SSZ`.
pub open spec fn stamp(date: (int, int, int), h: nat, mi: nat, s: nat) -> Seq<char> {
    padded(date.0 as nat, 4) + "-"@ + padded(date.1 as nat, 2) + "-"@ + padded(date.2 as nat, 2)
        + "T"@ + padded(h, 2) + ":"@ + padded(mi, 2) + ":"@ + padded(s, 2) + "Z"@
}

/// Seconds since the Unix epoch as an RFC 3339 timestamp in UTC.
pub open spec fn utc_text(secs: nat) -> Seq<char> {
    let rem = secs % 86_400;
    stamp(date_of(secs as int / 86_400), rem / 3_600, (rem % 3_600) / 60, rem % 60)
}

/// Formats seconds since the Unix epoch as an RFC 3339 UTC timestamp.
pub fn utc_from_epoch(secs: u64) -> (r: String)
    ensures
        r@ == utc_text(secs as nat),
{
    let days: u64 = secs / 86_400;
    let rem: u64 = secs % 86_400;
    let h: u64 = rem / 3_600;
    let mi: u64 = (rem % 3_600) / 60;
    let s: u64 = rem % 60;
    let (y, mo, d) = civil_from_days(days as i64);
    proof {
        law_date_of(y as int, mo as int, d as int);
        law_dates_in_order(1970, 1, 1, y as int, mo as int, d as int);
        assert(day_number(1970, 1, 1) == 0) by {
            reveal_with_fuel(days_before_month, 2);
        }
    }
    let mut out = String::new();
    append_padded(&mut out, y as u64, 4);
    out.append("-");
    append_padded(&mut out, mo as u64, 2);
    out.append("-");
    append_padded(&mut out, d as u64, 2);
    out.append("T");
    append_padded(&mut out, h, 2);
    out.append(":");
    append_padded(&mut out, mi, 2);
    out.append(":");
    append_padded(&mut out, s, 2);
    out.append("Z");
    out
}

/// The date of a second of the epoch, with the bounds that its text rests on.
proof fn lemma_date_of_second(secs: nat)
    ensures
        ({
            let (y, m, d) = date_of(secs as int / 86_400);
            &&& is_date(y, m, d)
            &&& day_number(y, m, d) == secs as int / 86_400
            &&& 1970 <= y
            &&& secs < 253_402_300_800 ==> y <= 9999
        }),
{
    let day: int = secs as int / 86_400;
    lemma_date_exists(day);
    let (y, m, d) = date_of(day);
    law_dates_in_order(y, m, d, 1970, 1, 1);
    law_dates_in_order(y, m, d, 10_000, 1, 1);
    law_days_before_year(10_000);
    reveal_with_fuel(days_before_month, 2);
}

/// The text of a stamp in two parts: the year, and sixteen characters behind it.
proof fn lemma_stamp_parts(date: (int, int, int), h: nat, mi: nat, s: nat)
    requires
        0 <= date.1 < 100,
        0 <= date.2 < 100,
        h < 100,
        mi < 100,
        s < 100,
    ensures
        ({
            let text = stamp(date, h, mi, s);
            let n = padded(date.0 as nat, 4).len() as int;
            &&& text.len() == n + 16
            &&& text.subrange(0, n) == padded(date.0 as nat, 4)
            &&& text[n] == '-'
            &&& text.subrange(n + 1, n + 3) == padded(date.1 as nat, 2)
            &&& text[n + 3] == '-'
            &&& text.subrange(n + 4, n + 6) == padded(date.2 as nat, 2)
            &&& text[n + 6] == 'T'
            &&& text.subrange(n + 7, n + 9) == padded(h, 2)
            &&& text[n + 9] == ':'
            &&& text.subrange(n + 10, n + 12) == padded(mi, 2)
            &&& text[n + 12] == ':'
            &&& text.subrange(n + 13, n + 15) == padded(s, 2)
            &&& text[n + 15] == 'Z'
        }),
{
    reveal_strlit("-");
    reveal_strlit("T");
    reveal_strlit(":");
    reveal_strlit("Z");
    law_padded_value(date.0 as nat, 4);
    law_padded_value(date.1 as nat, 2);
    law_padded_value(date.2 as nat, 2);
    law_padded_value(h, 2);
    law_padded_value(mi, 2);
    law_padded_value(s, 2);
}

/// Up to the year 9999 a timestamp has the twenty characters of
/// `YYYY-MM-DDTHH:MM:SSZ`: separators in their places and digits everywhere else.
pub proof fn law_utc_text_shape(secs: nat)
    requires
        secs < 253_402_300_800,
    ensures
        utc_text(secs).len() == 20,
        forall|i: int|
            0 <= i < 20 ==> (if i == 4 || i == 7 {
                #[trigger] utc_text(secs)[i] == '-'
            } else if i == 10 {
                utc_text(secs)[i] == 'T'
            } else if i == 13 || i == 16 {
                utc_text(secs)[i] == ':'
            } else if i == 19 {
                utc_text(secs)[i] == 'Z'
            } else {
                is_digit(utc_text(secs)[i])
            }),
{
    let date = date_of(secs as int / 86_400);
    let rem: nat = secs % 86_400;
    let (h, mi, s): (nat, nat, nat) = (rem / 3_600, (rem % 3_600) / 60, rem % 60);
    lemma_date_of_second(secs);
    lemma_stamp_parts(date, h, mi, s);
    law_padded_value(date.0 as nat, 4);
    law_padded_value(date.1 as nat, 2);
    law_padded_value(date.2 as nat, 2);
    law_padded_value(h, 2);
    law_padded_value(mi, 2);
    law_padded_value(s, 2);
    let text = utc_text(secs);
    assert forall|i: int| 0 <= i < 20 && i != 4 && i != 7 && i != 10 && i != 13 && i != 16 && i
        != 19 implies is_digit(#[trigger] text[i]) by {
        if i < 4 {
            assert(text[i] == text.subrange(0, 4)[i]);
        } else if i < 7 {
            assert(text[i] == text.subrange(5, 7)[i - 5]);
        } else if i < 10 {
            assert(text[i] == text.subrange(8, 10)[i - 8]);
        } else if i < 13 {
            assert(text[i] == text.subrange(11, 13)[i - 11]);
        } else if i < 16 {
            assert(text[i] == text.subrange(14, 16)[i - 14]);
        } else {
            assert(text[i] == text.subrange(17, 19)[i - 17]);
        }
    }
}

proof fn lemma_padded_apart(a: nat, b: nat, width: nat)
    requires
        padded(a, width) == padded(b, width),
    ensures
        a == b,
{
    law_padded_value(a, width);
    law_padded_value(b, width);
}

/// Equal stamps have equal parts.
proof fn lemma_stamp_apart(
    da: (int, int, int),
    ha: nat,
    ma: nat,
    sa: nat,
    db: (int, int, int),
    hb: nat,
    mb: nat,
    sb: nat,
)
    requires
        0 <= da.0 && 0 <= da.1 < 100 && 0 <= da.2 < 100 && ha < 100 && ma < 100 && sa < 100,
        0 <= db.0 && 0 <= db.1 < 100 && 0 <= db.2 < 100 && hb < 100 && mb < 100 && sb < 100,
        stamp(da, ha, ma, sa) == stamp(db, hb, mb, sb),
    ensures
        da == db && ha == hb && ma == mb && sa == sb,
{
    lemma_stamp_parts(da, ha, ma, sa);
    lemma_stamp_parts(db, hb, mb, sb);
    lemma_padded_apart(da.0 as nat, db.0 as nat, 4);
    lemma_padded_apart(da.1 as nat, db.1 as nat, 2);
    lemma_padded_apart(da.2 as nat, db.2 as nat, 2);
    lemma_padded_apart(ha, hb, 2);
    lemma_padded_apart(ma, mb, 2);
    lemma_padded_apart(sa, sb, 2);
}

/// Two different seconds never share a timestamp.
pub proof fn law_utc_text_tells_seconds_apart(a: nat, b: nat)
    requires
        utc_text(a) == utc_text(b),
    ensures
        a == b,
{
    let ra: nat = a % 86_400;
    let rb: nat = b % 86_400;
    lemma_date_of_second(a);
    lemma_date_of_second(b);
    lemma_stamp_apart(
        date_of(a as int / 86_400),
        ra / 3_600,
        (ra % 3_600) / 60,
        ra % 60,
        date_of(b as int / 86_400),
        rb / 3_600,
        (rb % 3_600) / 60,
        rb % 60,
    );
    assert(ra == 3_600 * (ra / 3_600) + 60 * ((ra % 3_600) / 60) + ra % 60);
    assert(rb == 3_600 * (rb / 3_600) + 60 * ((rb % 3_600) / 60) + rb % 60);
}

proof fn lemma_padded_is_row(n: nat, width: nat)
    ensures
        is_row(padded(n, width)),
{
    law_padded_value(n, width);
    let p = padded(n, width);
    assert forall|i: int| 0 <= i < p.len() implies !breaks_row(#[trigger] p[i]) by {
        assert(is_digit(p[i]));
    }
}

/// A timestamp is text on one line.
pub proof fn law_utc_text_is_row(secs: nat)
    ensures
        is_row(utc_text(secs)),
{
    let (y, m, d) = date_of(secs as int / 86_400);
    let rem: nat = secs % 86_400;
    reveal_strlit("-");
    reveal_strlit("T");
    reveal_strlit(":");
    reveal_strlit("Z");
    lemma_padded_is_row(y as nat, 4);
    lemma_padded_is_row(m as nat, 2);
    lemma_padded_is_row(d as nat, 2);
    lemma_padded_is_row(rem / 3_600, 2);
    lemma_padded_is_row((rem % 3_600) / 60, 2);
    lemma_padded_is_row(rem % 60, 2);
}

/// The calendar's months: from January to July every other one has 31 days, from August to
/// December again, and all others have 30, but for February, which has 28, and 29 in every
/// fourth year that is not a century, and in every fourth century.
pub proof fn law_calendar_days(y: int, m: int, d: int)
    ensures
        is_date(y, m, d) <==> {
            &&& 1 <= m <= 12
            &&& 1 <= d
            &&& m != 2 ==> d <= 30 + (m + m / 8) % 2
            &&& m == 2 ==> d <= 29
            &&& m == 2 && d == 29 ==> y % 4 == 0
            &&& m == 2 && d == 29 && y % 100 == 0 ==> y % 400 == 0
        },
{
}

/// The leap days up to a year, counted from another one, and the one that it adds.
proof fn lemma_leap_days_so_far(y: int)
    ensures
        (y - 1969) / 4 == (y - 1) / 4 - 492,
        (y - 1901) / 100 == (y - 1) / 100 - 19,
        (y - 1601) / 400 == (y - 1) / 400 - 4,
        y / 4 - y / 100 + y / 400 == (y - 1) / 4 - (y - 1) / 100 + (y - 1) / 400 + (if is_leap(y) {
            1int
        } else {
            0
        }),
{
    assert(y / 4 - (y - 1) / 4 == (if y % 4 == 0 { 1int } else { 0 }));
    assert(y / 100 - (y - 1) / 100 == (if y % 100 == 0 { 1int } else { 0 }));
    assert(y / 400 - (y - 1) / 400 == (if y % 400 == 0 { 1int } else { 0 }));
    assert(y % 100 == 0 ==> y % 4 == 0);
    assert(y % 400 == 0 ==> y % 100 == 0);
}

/// The number of a day in closed form. Years are counted from March, so that a leap day is a
/// year's last: 365 days for each year and one for each leap day, the months that have passed,
/// and the days of the month.
pub proof fn law_day_number(y: int, m: int, d: int)
    requires
        1 <= m <= 12,
    ensures
        m >= 3 ==> day_number(y, m, d) == 365 * y + y / 4 - y / 100 + y / 400 + (153 * (m - 3) + 2)
            / 5 + d - 719_469,
        m <= 2 ==> day_number(y, m, d) == 365 * (y - 1) + (y - 1) / 4 - (y - 1) / 100 + (y - 1)
            / 400 + (153 * (m + 9) + 2) / 5 + d - 719_469,
{
    law_days_before_year(y);
    lemma_days_before_month(y, m);
    lemma_leap_days_so_far(y);
}

/// The date of a day is the one that the calendar gives for it, whichever day it is.
pub proof fn law_civil_from_days(z: i64, r: (i64, u32, u32), y: int, m: int, d: int)
    requires
        call_ensures(civil_from_days, (z,), r),
        is_date(y, m, d),
    ensures
        day_number(y, m, d) == z <==> (r.0 == y && r.1 == m && r.2 == d),
{
    law_dates_in_order(r.0 as int, r.1 as int, r.2 as int, y, m, d);
}

/// The text reads as the given second of the epoch: a date of the calendar, `T`, a time of day
/// and `Z`, where the days before the date and the time that has passed of the day add up to
/// the seconds. Each number but the year has two digits; the year has four, or as many as it
/// needs.
pub open spec fn tells_second(text: Seq<char>, secs: nat) -> bool {
    let n = text.len() - 16;
    let y = value(text.subrange(0, n)) as int;
    let m = value(text.subrange(n + 1, n + 3)) as int;
    let d = value(text.subrange(n + 4, n + 6)) as int;
    let h = value(text.subrange(n + 7, n + 9)) as int;
    let mi = value(text.subrange(n + 10, n + 12)) as int;
    let s = value(text.subrange(n + 13, n + 15)) as int;
    &&& n >= 4
    &&& n > 4 ==> text[0] != '0'
    &&& is_date(y, m, d)
    &&& h < 24
    &&& mi < 60
    &&& s < 60
    &&& 86_400 * day_number(y, m, d) + 3_600 * h + 60 * mi + s == secs
    &&& text[n] == '-' && text[n + 3] == '-'
    &&& text[n + 6] == 'T'
    &&& text[n + 9] == ':' && text[n + 12] == ':'
    &&& text[n + 15] == 'Z'
    &&& forall|i: int|
        0 <= i < text.len() && i != n && i != n + 3 && i != n + 6 && i != n + 9 && i != n + 12 && i
            != n + 15 ==> '0' <= #[trigger] text[i] && text[i] <= '9'
}

/// A text whose parts are the numbers of a second reads as that second.
proof fn lemma_parts_tell(text: Seq<char>, y: nat, m: nat, d: nat, h: nat, mi: nat, s: nat)
    requires
        is_date(y as int, m as int, d as int),
        h < 24,
        mi < 60,
        s < 60,
        day_number(y as int, m as int, d as int) >= 0,
        ({
            let n = padded(y, 4).len() as int;
            &&& text.len() == n + 16
            &&& text.subrange(0, n) == padded(y, 4)
            &&& text[n] == '-'
            &&& text.subrange(n + 1, n + 3) == padded(m, 2)
            &&& text[n + 3] == '-'
            &&& text.subrange(n + 4, n + 6) == padded(d, 2)
            &&& text[n + 6] == 'T'
            &&& text.subrange(n + 7, n + 9) == padded(h, 2)
            &&& text[n + 9] == ':'
            &&& text.subrange(n + 10, n + 12) == padded(mi, 2)
            &&& text[n + 12] == ':'
            &&& text.subrange(n + 13, n + 15) == padded(s, 2)
            &&& text[n + 15] == 'Z'
        }),
    ensures
        tells_second(
            text,
            (86_400 * day_number(y as int, m as int, d as int) + 3_600 * h + 60 * mi + s) as nat,
        ),
{
    law_padded_value(y, 4);
    law_padded_value(m, 2);
    law_padded_value(d, 2);
    law_padded_value(h, 2);
    law_padded_value(mi, 2);
    law_padded_value(s, 2);
    let n: int = text.len() - 16;
    assert(text[0] == text.subrange(0, n)[0]);
    assert forall|i: int|
        0 <= i < text.len() && i != n && i != n + 3 && i != n + 6 && i != n + 9 && i != n + 12 && i
            != n + 15 implies '0' <= #[trigger] text[i] && text[i] <= '9' by {
        let from: int = if i < n {
            0
        } else if i < n + 3 {
            n + 1
        } else if i < n + 6 {
            n + 4
        } else if i < n + 9 {
            n + 7
        } else if i < n + 12 {
            n + 10
        } else {
            n + 13
        };
        let part = text.subrange(from, if i < n { n } else { from + 2 });
        assert(text[i] == part[i - from]);
        assert(is_digit(part[i - from]));
    }
}

proof fn lemma_stamp_tells(y: int, m: int, d: int, h: nat, mi: nat, s: nat)
    requires
        is_date(y, m, d),
        0 <= y,
        0 <= day_number(y, m, d),
        h < 24,
        mi < 60,
        s < 60,
    ensures
        tells_second(
            stamp((y, m, d), h, mi, s),
            (86_400 * day_number(y, m, d) + 3_600 * h + 60 * mi + s) as nat,
        ),
{
    let text = stamp((y, m, d), h, mi, s);
    lemma_stamp_parts((y, m, d), h, mi, s);
    lemma_parts_tell(text, y as nat, m as nat, d as nat, h, mi, s);
}

/// A timestamp reads back as the second it was made for.
pub proof fn law_utc_text_reads_back(secs: nat)
    ensures
        tells_second(utc_text(secs), secs),
{
    let (y, m, d) = date_of(secs as int / 86_400);
    let rem: nat = secs % 86_400;
    lemma_date_of_second(secs);
    lemma_stamp_tells(y, m, d, rem / 3_600, (rem % 3_600) / 60, rem % 60);
}

/// What is formatted reads as the second that was asked for, whichever it is.
pub proof fn law_timestamp_tells_its_second(secs: u64, r: String)
    requires
        call_ensures(utc_from_epoch, (secs,), r),
    ensures
        tells_second(r@, secs as nat),
{
    law_utc_text_reads_back(secs as nat);
}

/// Up to the year 9999 every number has its fixed place: the date's are a date of the
/// calendar, and hours, minutes and seconds are together what has passed of its day.
pub proof fn law_utc_text_numbers(secs: nat)
    requires
        secs < 253_402_300_800,
    ensures
        ({
            let text = utc_text(secs);
            let (y, m, d) = (
                value(text.subrange(0, 4)) as int,
                value(text.subrange(5, 7)) as int,
                value(text.subrange(8, 10)) as int,
            );
            is_date(y, m, d) && day_number(y, m, d) == secs as int / 86_400
        }),
        value(utc_text(secs).subrange(11, 13)) < 24,
        value(utc_text(secs).subrange(14, 16)) < 60,
        value(utc_text(secs).subrange(17, 19)) < 60,
        3_600 * value(utc_text(secs).subrange(11, 13)) + 60 * value(
            utc_text(secs).subrange(14, 16),
        ) + value(utc_text(secs).subrange(17, 19)) == secs % 86_400,
{
    law_utc_text_shape(secs);
    law_utc_text_reads_back(secs);
    lemma_numbers_in_place(utc_text(secs), secs);
}

proof fn lemma_numbers_in_place(text: Seq<char>, secs: nat)
    requires
        text.len() == 20,
        tells_second(text, secs),
    ensures
        ({
            let (y, m, d) = (
                value(text.subrange(0, 4)) as int,
                value(text.subrange(5, 7)) as int,
                value(text.subrange(8, 10)) as int,
            );
            is_date(y, m, d) && day_number(y, m, d) == secs as int / 86_400
        }),
        value(text.subrange(11, 13)) < 24,
        value(text.subrange(14, 16)) < 60,
        value(text.subrange(17, 19)) < 60,
        3_600 * value(text.subrange(11, 13)) + 60 * value(text.subrange(14, 16)) + value(
            text.subrange(17, 19),
        ) == secs % 86_400,
{
}

} // verus!
