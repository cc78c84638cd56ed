//! Calendar arithmetic for ordering transactions: days since 1970-01-01 in the proleptic
//! Gregorian calendar, timestamps in seconds, and the parsing of `YYYY-MM-DD`, `MM-DD` and
//! `HH:MM:SS` texts.
use vstd::prelude::*;
use crate::text::{parse_i32, parse_i32_spec, parse_u32, parse_u32_spec, split_char, split_spec, strings_view};

verus! {

/// Leap years of the Gregorian calendar.
pub open spec fn is_leap(y: int) -> bool {
    (y % 4 == 0 && y % 100 != 0) || y % 400 == 0
}

/// Whether `year` is a Gregorian leap year.
pub fn is_leap_year(year: i32) -> (res: bool)
    ensures
        res == is_leap(year as int),
{
    let y = year as i64;
    let a = if y >= 0 { y } else { -y };
    assert((y as int) % 4 == 0 <==> (a as int) % 4 == 0);
    assert((y as int) % 100 == 0 <==> (a as int) % 100 == 0);
    assert((y as int) % 400 == 0 <==> (a as int) % 400 == 0);
    (a % 4 == 0 && a % 100 != 0) || a % 400 == 0
}

/// The number of days of `month` in `year`; none for a month outside 1 to 12.
pub open spec fn month_len(y: int, m: int) -> Option<int> {
    if m == 1 || m == 3 || m == 5 || m == 7 || m == 8 || m == 10 || m == 12 {
        Some(31)
    } else if m == 4 || m == 6 || m == 9 || m == 11 {
        Some(30)
    } else if m == 2 {
        Some(if is_leap(y) { 29 } else { 28 })
    } else {
        None
    }
}

/// The number of days of a month.
pub fn days_in_month(year: i32, month: u32) -> (res: Option<u32>)
    ensures
        match month_len(year as int, month as int) {
            Some(n) => res == Some(n as u32),
            None => res is None,
        },
{
    if month == 1 || month == 3 || month == 5 || month == 7 || month == 8 || month == 10 || month == 12 {
        Some(31)
    } else if month == 4 || month == 6 || month == 9 || month == 11 {
        Some(30)
    } else if month == 2 {
        Some(if is_leap_year(year) { 29 } else { 28 })
    } else {
        None
    }
}

/// A month from 1 to 12 and a day from 1 to 31.
pub open spec fn month_day_ok(m: int, d: int) -> bool {
    1 <= m <= 12 && 1 <= d <= 31
}

/// Whether the month is 1 to 12 and the day 1 to 31.
pub fn valid_month_day(month: u32, day: u32) -> (res: bool)
    ensures
        res == month_day_ok(month as int, day as int),
{
    1 <= month && month <= 12 && 1 <= day && day <= 31
}

/// The date exists: a month from 1 to 12 and a day within it.
pub open spec fn date_ok(y: int, m: int, d: int) -> bool {
    match month_len(y, m) {
        Some(n) => 1 <= d <= n,
        None => false,
    }
}

/// Days from 1970-01-01 to the date (negative before it), by the era/day-of-era method:
/// years begin in March so that the leap day ends the year.
pub open spec fn days_from_civil_spec(y: int, m: int, d: int) -> int {
    let yy = if m <= 2 { y - 1 } else { y };
    let era = yy / 400;
    let yoe = yy - era * 400;
    let mp = if m > 2 { m - 3 } else { m + 9 };
    let doy = (153 * mp + 2) / 5 + d - 1;
    let doe = yoe * 365 + yoe / 4 - yoe / 100 + doy;
    era * 146097 + doe - 719468
}

/// The smallest and largest `i32`.
pub open spec fn fits_i32(v: int) -> bool {
    -0x8000_0000 <= v <= 0x7FFF_FFFF
}

/// `floor(v / d)` for a positive divisor, with non-negative operands only.
fn floor_div(v: i64, d: i64) -> (res: i64)
    requires
        d > 0,
        v > i64::MIN + d,
    ensures
        res == v as int / d as int,
{
    if v >= 0 {
        v / d
    } else {
        let q = (-v + (d - 1)) / d;
        assert(-q == v as int / d as int) by (nonlinear_arith)
            requires
                v < 0,
                d > 0,
                q == (-v + (d - 1)) as int / d as int,
        {
            let f = v as int / d as int;
            let r = v as int % d as int;
            assert(v == f * d + r && 0 <= r < d);
            assert(-v + (d - 1) == (-f) * d + (d - 1 - r));
        }
        -q
    }
}

/// Days from 1970-01-01 to a date; none when the date does not exist, or when the count does
/// not fit in an `i32`.
pub fn days_from_civil(year: i32, month: u32, day: u32) -> (res: Option<i32>)
    ensures
        res == (if date_ok(year as int, month as int, day as int) && fits_i32(
            days_from_civil_spec(year as int, month as int, day as int),
        ) {
            Some(days_from_civil_spec(year as int, month as int, day as int) as i32)
        } else {
            None::<i32>
        }),
{
    let max_day = match days_in_month(year, month) {
        Some(n) => n,
        None => {
            return None;
        },
    };
    if day == 0 || day > max_day {
        return None;
    }
    let y: i64 = if month <= 2 { year as i64 - 1 } else { year as i64 };
    let era = floor_div(y, 400);
    let yoe = y - era * 400;
    let m = month as i64;
    let d = day as i64;
    let mp = if m > 2 { m - 3 } else { m + 9 };
    let doy = (153 * mp + 2) / 5 + d - 1;
    assert(0 <= yoe < 400) by (nonlinear_arith)
        requires
            era == y as int / 400,
            yoe == y - era * 400,
    ;
    let doe = yoe * 365 + yoe / 4 - yoe / 100 + doy;
    assert(-5_400_000 <= era <= 5_400_000) by (nonlinear_arith)
        requires
            era == y as int / 400,
            -0x8000_0001 <= y <= 0x7FFF_FFFF,
    ;
    let v = era * 146097 + doe - 719468;
    if v < -0x8000_0000 || v > 0x7FFF_FFFF {
        return None;
    }
    Some(v as i32)
}

/// The timestamp (seconds since 1970-01-01 00:00:00) of a date and time, when the month and
/// day are in range (`month_day_ok`), the date exists and the time is valid.
pub open spec fn timestamp_spec(y: int, m: int, d: int, h: int, mi: int, s: int) -> Option<int> {
    if month_day_ok(m, d) && h <= 23 && mi <= 59 && s <= 59 && date_ok(y, m, d) {
        Some(days_from_civil_spec(y, m, d) * 86400 + h * 3600 + mi * 60 + s)
    } else {
        None
    }
}

/// The timestamp of a date and time; none for an invalid date or time, or when it does not
/// fit in an `i32` (dates before late 1901 or after early 2038).
pub fn timestamp_for_date_time(year: i32, month: u32, day: u32, hour: u32, minute: u32, second: u32) -> (res: Option<i32>)
    ensures
        res == (match timestamp_spec(year as int, month as int, day as int, hour as int, minute as int, second as int) {
            Some(t) => if fits_i32(t) { Some(t as i32) } else { None::<i32> },
            None => None::<i32>,
        }),
{
    if !valid_month_day(month, day) || hour > 23 || minute > 59 || second > 59 {
        return None;
    }
    let days = match days_from_civil(year, month, day) {
        Some(d) => d,
        None => {
            proof {
                let dd = days_from_civil_spec(year as int, month as int, day as int);
                if date_ok(year as int, month as int, day as int) {
                    assert(!fits_i32(dd * 86400 + hour * 3600 + minute * 60 + second)) by (nonlinear_arith)
                        requires
                            !fits_i32(dd),
                            0 <= hour <= 23,
                            0 <= minute <= 59,
                            0 <= second <= 59,
                    ;
                }
            }
            return None;
        },
    };
    let t: i64 = days as i64 * 86400 + hour as i64 * 3600 + minute as i64 * 60 + second as i64;
    if t < -0x8000_0000 || t > 0x7FFF_FFFF {
        return None;
    }
    Some(t as i32)
}

/// The date of a day count from 1970-01-01: `(year, month, day)`.
pub open spec fn civil_from_days_spec(z: int) -> (int, int, int) {
    let z2 = z + 719468;
    let era = z2 / 146097;
    let doe = z2 - era * 146097;
    let yoe = (doe - doe / 1460 + doe / 36524 - doe / 146096) / 365;
    let y = yoe + era * 400;
    let doy = doe - (365 * yoe + yoe / 4 - yoe / 100);
    let mp = (5 * doy + 2) / 153;
    let d = doy - (153 * mp + 2) / 5 + 1;
    let m = if mp < 10 { mp + 3 } else { mp - 9 };
    (if m <= 2 { y + 1 } else { y }, m, d)
}

/// The date of a day count from 1970-01-01.
pub fn civil_from_days(days: i32) -> (res: (i32, u32, u32))
    ensures
        res.0 as int == civil_from_days_spec(days as int).0,
        res.1 as int == civil_from_days_spec(days as int).1,
        res.2 as int == civil_from_days_spec(days as int).2,
{
    let z: i64 = days as i64 + 719468;
    let era = floor_div(z, 146097);
    let doe = z - era * 146097;
    assert(0 <= doe < 146097) by (nonlinear_arith)
        requires
            era == z as int / 146097,
            doe == z - era * 146097,
    ;
    assert(-14_800 <= era <= 14_800) by (nonlinear_arith)
        requires
            era == z as int / 146097,
            -0x8000_0000 + 719468 <= z <= 0x7FFF_FFFF + 719468,
    ;
    let yoe = (doe - doe / 1460 + doe / 36524 - doe / 146096) / 365;
    assert(0 <= yoe <= 400);
    let y = yoe + era * 400;
    let doy = doe - (365 * yoe + yoe / 4 - yoe / 100);
    proof {
        lemma_doy_range(doe as int);
    }
    let mp = (5 * doy + 2) / 153;
    let d = doy - (153 * mp + 2) / 5 + 1;
    let m = if mp < 10 { mp + 3 } else { mp - 9 };
    assert(1 <= m <= 12);
    assert(1 <= d <= 31);
    let year = if m <= 2 { y + 1 } else { y };
    (year as i32, m as u32, d as u32)
}

/// Within an era, the day of the March-based year lies in 0 to 365.
proof fn lemma_doy_range(doe: int)
    requires
        0 <= doe < 146097,
    ensures
        ({
            let yoe = (doe - doe / 1460 + doe / 36524 - doe / 146096) / 365;
            let doy = doe - (365 * yoe + yoe / 4 - yoe / 100);
            0 <= doy <= 365
        }),
{
    let a = doe / 1460;
    let b = doe / 36524;
    let c = doe / 146096;
    let yoe = (doe - a + b - c) / 365;
    let doy = doe - (365 * yoe + yoe / 4 - yoe / 100);
    assert(0 <= doy <= 365) by (nonlinear_arith)
        requires
            0 <= doe < 146097,
            a == doe / 1460,
            b == doe / 36524,
            c == doe / 146096,
            yoe == (doe - a + b - c) / 365,
            doy == doe - (365 * yoe + yoe / 4 - yoe / 100),
    ;
}

} // verus!

verus! {

proof fn lemma_yoe_back(a: int, b: int, c: int, doy: int)
    requires
        0 <= a <= 3,
        0 <= b <= 24,
        0 <= c <= 3,
        0 <= doy <= 365,
        doy == 365 ==> c == 3 && (b != 24 || a == 3),
    ensures
        ({
            let doe = 36524 * a + 1461 * b + 365 * c + doy;
            (doe - doe / 1460 + doe / 36524 - doe / 146096) / 365 == 100 * a + 4 * b + c
        }),
{
    let doe = 36524 * a + 1461 * b + 365 * c + doy;
    if a == 0 {
        if c == 0 {} else if c == 1 {} else if c == 2 {} else {}
    } else if a == 1 {
        if c == 0 {} else if c == 1 {} else if c == 2 {} else {}
    } else if a == 2 {
        if c == 0 {} else if c == 1 {} else if c == 2 {} else {}
    } else {
        if c == 0 {} else if c == 1 {} else if c == 2 {} else {}
    }
}

proof fn lemma_month_back(mp: int, d: int, feb_len: int)
    requires
        0 <= mp <= 11,
        1 <= d,
        mp == 0 || mp == 2 || mp == 4 || mp == 5 || mp == 7 || mp == 9 || mp == 10 ==> d <= 31,
        mp == 1 || mp == 3 || mp == 6 || mp == 8 ==> d <= 30,
        mp == 11 ==> d <= feb_len,
        feb_len <= 29,
    ensures
        ({
            let doy = (153 * mp + 2) / 5 + d - 1;
            &&& (5 * doy + 2) / 153 == mp
            &&& doy - (153 * mp + 2) / 5 + 1 == d
            &&& 0 <= doy <= 365
            &&& doy == 365 ==> mp == 11 && d == 29
        }),
{
    if mp == 0 {} else if mp == 1 {} else if mp == 2 {} else if mp == 3 {} else if mp == 4 {}
    else if mp == 5 {} else if mp == 6 {} else if mp == 7 {} else if mp == 8 {} else if mp == 9 {}
    else if mp == 10 {} else {}
}

/// Converting a date to its day count and back gives the date again, for every date that
/// exists.
pub proof fn law_civil_days_roundtrip(y: int, m: int, d: int)
    requires
        date_ok(y, m, d),
    ensures
        civil_from_days_spec(days_from_civil_spec(y, m, d)) == (y, m, d),
{
    let yy = if m <= 2 { y - 1 } else { y };
    let era = yy / 400;
    let yoe = yy - era * 400;
    assert(0 <= yoe < 400) by (nonlinear_arith)
        requires
            era == yy / 400,
            yoe == yy - era * 400,
    ;
    let mp = if m > 2 { m - 3 } else { m + 9 };
    let a = yoe / 100;
    let b = (yoe % 100) / 4;
    let c = yoe % 4;
    assert(yoe == 100 * a + 4 * b + c);
    assert(0 <= a <= 3 && 0 <= b <= 24 && 0 <= c <= 3);
    assert(yoe / 4 == 25 * a + b);
    assert(yoe / 100 == a);
    // The February of the March-based year `yy` is that of `yy + 1`.
    assert((yy + 1) % 4 == (yoe + 1) % 4 && (yy + 1) % 100 == (yoe + 1) % 100 && (yy + 1) % 400 == (yoe + 1) % 400)
        by (nonlinear_arith)
        requires
            yy == era * 400 + yoe,
    ;
    let feb_len: int = if is_leap(yy + 1) { 29 } else { 28 };
    assert(m <= 2 ==> yy + 1 == y);
    lemma_month_back(mp, d, feb_len);
    let doy = (153 * mp + 2) / 5 + d - 1;
    assert(doy == 365 ==> is_leap(yy + 1));
    assert(is_leap(yy + 1) ==> c == 3 && (b != 24 || a == 3));
    lemma_yoe_back(a, b, c, doy);
    let doe = yoe * 365 + yoe / 4 - yoe / 100 + doy;
    assert(doe == 36524 * a + 1461 * b + 365 * c + doy);
    assert(0 <= doe < 146097);
    let z = era * 146097 + doe - 719468;
    assert(z == days_from_civil_spec(y, m, d));
    let z2 = z + 719468;
    assert(z2 / 146097 == era && z2 - (z2 / 146097) * 146097 == doe) by (nonlinear_arith)
        requires
            z2 == era * 146097 + doe,
            0 <= doe < 146097,
    ;
}

} // verus!

verus! {

/// `YYYY-MM-DD`: exactly three `-`-separated numbers, a signed year, a month of 1 to 12 and
/// a day of 1 to 31.
pub open spec fn full_date_spec(s: Seq<char>) -> Option<(i32, u32, u32)> {
    let p = split_spec(s, '-');
    if p.len() != 3 {
        None
    } else {
        match (parse_i32_spec(p[0]), parse_u32_spec(p[1]), parse_u32_spec(p[2])) {
            (Some(y), Some(m), Some(d)) => if month_day_ok(m as int, d as int) {
                Some((y, m, d))
            } else {
                None
            },
            _ => None,
        }
    }
}

/// Parses `YYYY-MM-DD`.
pub fn parse_full_date(date: &str) -> (res: Option<(i32, u32, u32)>)
    ensures
        res == full_date_spec(date@),
{
    let parts = split_char(date, '-');
    if parts.len() != 3 {
        return None;
    }
    assert(strings_view(parts@)[0] == parts@[0]@);
    assert(strings_view(parts@)[1] == parts@[1]@);
    assert(strings_view(parts@)[2] == parts@[2]@);
    let y = match parse_i32(parts[0].as_str()) {
        Some(v) => v,
        None => {
            return None;
        },
    };
    let m = match parse_u32(parts[1].as_str()) {
        Some(v) => v,
        None => {
            return None;
        },
    };
    let d = match parse_u32(parts[2].as_str()) {
        Some(v) => v,
        None => {
            return None;
        },
    };
    if !valid_month_day(m, d) {
        return None;
    }
    Some((y, m, d))
}

/// `MM-DD`: exactly two `-`-separated numbers, a month of 1 to 12 and a day of 1 to 31.
pub open spec fn month_day_spec(s: Seq<char>) -> Option<(u32, u32)> {
    let p = split_spec(s, '-');
    if p.len() != 2 {
        None
    } else {
        match (parse_u32_spec(p[0]), parse_u32_spec(p[1])) {
            (Some(m), Some(d)) => if month_day_ok(m as int, d as int) {
                Some((m, d))
            } else {
                None
            },
            _ => None,
        }
    }
}

/// Parses `MM-DD`.
pub fn parse_month_day(date: &str) -> (res: Option<(u32, u32)>)
    ensures
        res == month_day_spec(date@),
{
    let parts = split_char(date, '-');
    if parts.len() != 2 {
        return None;
    }
    assert(strings_view(parts@)[0] == parts@[0]@);
    assert(strings_view(parts@)[1] == parts@[1]@);
    let m = match parse_u32(parts[0].as_str()) {
        Some(v) => v,
        None => {
            return None;
        },
    };
    let d = match parse_u32(parts[1].as_str()) {
        Some(v) => v,
        None => {
            return None;
        },
    };
    if !valid_month_day(m, d) {
        return None;
    }
    Some((m, d))
}

/// `HH:MM:SS`: exactly three `:`-separated numbers, at most 23, 59 and 59.
pub open spec fn time_spec(s: Seq<char>) -> Option<(u32, u32, u32)> {
    let p = split_spec(s, ':');
    if p.len() != 3 {
        None
    } else {
        match (parse_u32_spec(p[0]), parse_u32_spec(p[1]), parse_u32_spec(p[2])) {
            (Some(h), Some(mi), Some(sec)) => if h <= 23 && mi <= 59 && sec <= 59 {
                Some((h, mi, sec))
            } else {
                None
            },
            _ => None,
        }
    }
}

/// Parses `HH:MM:SS`.
pub fn parse_time(time: &str) -> (res: Option<(u32, u32, u32)>)
    ensures
        res == time_spec(time@),
{
    let parts = split_char(time, ':');
    if parts.len() != 3 {
        return None;
    }
    assert(strings_view(parts@)[0] == parts@[0]@);
    assert(strings_view(parts@)[1] == parts@[1]@);
    assert(strings_view(parts@)[2] == parts@[2]@);
    let h = match parse_u32(parts[0].as_str()) {
        Some(v) => v,
        None => {
            return None;
        },
    };
    let mi = match parse_u32(parts[1].as_str()) {
        Some(v) => v,
        None => {
            return None;
        },
    };
    let sec = match parse_u32(parts[2].as_str()) {
        Some(v) => v,
        None => {
            return None;
        },
    };
    if h > 23 || mi > 59 || sec > 59 {
        return None;
    }
    Some((h, mi, sec))
}

/// Division rounding toward zero, as `i32 / i32` does.
pub open spec fn trunc_div(a: int, b: int) -> int {
    if a >= 0 {
        a / b
    } else {
        -((-a) / b)
    }
}

/// The candidate years for a month and day near the anchors: for each anchor in order, the
/// year of its day (`anchor / 86400`, rounded toward zero), the one before and the one after.
pub open spec fn candidate_years(anchors: Seq<i32>) -> Seq<int>
    decreases anchors.len(),
{
    if anchors.len() == 0 {
        Seq::empty()
    } else {
        let y = civil_from_days_spec(trunc_div(anchors[0] as int, 86400)).0;
        seq![y - 1, y, y + 1] + candidate_years(anchors.drop_first())
    }
}

/// The distance from `ts` to the nearest anchor (0 when there is none).
pub open spec fn nearest_distance(ts: int, anchors: Seq<i32>) -> int
    decreases anchors.len(),
{
    if anchors.len() == 0 {
        0
    } else if anchors.len() == 1 {
        abs_int(ts - anchors[0])
    } else {
        let rest = nearest_distance(ts, anchors.drop_first());
        if abs_int(ts - anchors[0]) <= rest {
            abs_int(ts - anchors[0])
        } else {
            rest
        }
    }
}

/// The absolute value.
pub open spec fn abs_int(v: int) -> int {
    if v < 0 {
        -v
    } else {
        v
    }
}

/// The timestamp of midnight of `month`-`day` in year `y`, when it exists and fits an `i32`.
pub open spec fn midnight(y: int, month: u32, day: u32) -> Option<int> {
    if fits_i32(y) {
        match timestamp_spec(y, month as int, day as int, 0, 0, 0) {
            Some(t) => if fits_i32(t) { Some(t) } else { None },
            None => None,
        }
    } else {
        None
    }
}

/// The year for a month and day (a transaction date without year) nearest to the anchors:
/// among the candidate years whose date exists, the one whose midnight is closest to an
/// anchor, the first such in candidate order; none when no candidate date exists.
pub open spec fn nearest_year_ok(month: u32, day: u32, anchors: Seq<i32>, res: Option<i32>) -> bool {
    let c = candidate_years(anchors);
    match res {
        None => forall|i: int| 0 <= i < c.len() ==> midnight(#[trigger] c[i], month, day) is None,
        Some(y) => exists|i: int|
            0 <= i < c.len() && #[trigger] c[i] == y && midnight(c[i], month, day) is Some && (forall|j: int|
                0 <= j < c.len() && midnight(#[trigger] c[j], month, day) is Some ==> nearest_distance(
                    midnight(c[i], month, day)->0,
                    anchors,
                ) <= nearest_distance(midnight(c[j], month, day)->0, anchors) && (j < i ==> nearest_distance(
                    midnight(c[i], month, day)->0,
                    anchors,
                ) < nearest_distance(midnight(c[j], month, day)->0, anchors))),
    }
}

/// The distance from `ts` to the nearest anchor.
fn distance_to_anchors(ts: i32, anchors: &[i32]) -> (res: i64)
    ensures
        res == nearest_distance(ts as int, anchors@),
{
    let n = anchors.len();
    if n == 0 {
        return 0;
    }
    let mut best: i64 = 0;
    let mut i: usize = n;
    while i > 0
        invariant
            n == anchors@.len(),
            0 <= i <= n,
            n > 0,
            i < n ==> best == nearest_distance(ts as int, anchors@.subrange(i as int, n as int)),
            0 <= best,
        decreases i,
    {
        let j = i - 1;
        let diff: i64 = ts as i64 - anchors[j] as i64;
        let dist: i64 = if diff < 0 { -diff } else { diff };
        let ghost tail = anchors@.subrange(j as int, n as int);
        assert(tail.drop_first() =~= anchors@.subrange(i as int, n as int));
        assert(tail[0] == anchors@[j as int]);
        if i == n || dist <= best {
            best = dist;
        }
        i = j;
    }
    assert(anchors@.subrange(0, n as int) =~= anchors@);
    best
}

/// The year for a month and day nearest to the anchors (`nearest_year_ok`).
pub fn nearest_year_for_month_day(month: u32, day: u32, anchors: &[i32]) -> (res: Option<i32>)
    ensures
        nearest_year_ok(month, day, anchors@, res),
{
    let mut best: Option<(i32, i64)> = None;
    let mut k: usize = 0;
    let ghost mut cands: Seq<int> = Seq::empty();
    let ghost mut best_idx: int = 0;
    while k < anchors.len()
        invariant
            k <= anchors@.len(),
            cands == candidate_years(anchors@.subrange(0, k as int)),
            match best {
                None => forall|i: int| 0 <= i < cands.len() ==> midnight(#[trigger] cands[i], month, day) is None,
                Some((y, dist)) => {
                    &&& 0 <= best_idx < cands.len()
                    &&& cands[best_idx] == y
                    &&& midnight(cands[best_idx], month, day) is Some
                    &&& dist == nearest_distance(midnight(cands[best_idx], month, day)->0, anchors@)
                    &&& forall|j: int|
                        0 <= j < cands.len() && midnight(#[trigger] cands[j], month, day) is Some ==> dist
                            <= nearest_distance(midnight(cands[j], month, day)->0, anchors@) && (j
                            < best_idx ==> dist < nearest_distance(midnight(cands[j], month, day)->0, anchors@))
                },
            },
        decreases anchors@.len() - k,
    {
        let anchor = anchors[k];
        let day_no: i32 = if anchor >= 0 { anchor / 86400 } else { -((-(anchor as i64)) / 86400) as i32 };
        let (y, _, _) = civil_from_days(day_no);
        proof {
            lemma_candidates_push(anchors@, k as int);
        }
        let mut t: usize = 0;
        while t < 3
            invariant
                k < anchors@.len(),
                t <= 3,
                y as int == civil_from_days_spec(trunc_div(anchors@[k as int] as int, 86400)).0,
                cands == candidate_years(anchors@.subrange(0, k as int)) + seq![y as int - 1, y as int, y as int + 1].subrange(0, t as int),
                match best {
                    None => forall|i: int| 0 <= i < cands.len() ==> midnight(#[trigger] cands[i], month, day) is None,
                    Some((yb, dist)) => {
                        &&& 0 <= best_idx < cands.len()
                        &&& cands[best_idx] == yb
                        &&& midnight(cands[best_idx], month, day) is Some
                        &&& dist == nearest_distance(midnight(cands[best_idx], month, day)->0, anchors@)
                        &&& forall|j: int|
                            0 <= j < cands.len() && midnight(#[trigger] cands[j], month, day) is Some ==> dist
                                <= nearest_distance(midnight(cands[j], month, day)->0, anchors@) && (j
                                < best_idx ==> dist < nearest_distance(midnight(cands[j], month, day)->0, anchors@))
                    },
                },
            decreases 3 - t,
        {
            let cy: i64 = y as i64 - 1 + t as i64;
            let ghost prev = cands;
            proof {
                cands = cands.push(cy as int);
                assert(seq![y as int - 1, y as int, y as int + 1].subrange(0, t + 1) =~= seq![y as int - 1, y as int, y as int + 1].subrange(0, t as int).push(cy as int));
            }
            if -0x8000_0000 <= cy && cy <= 0x7FFF_FFFF {
                let yy = cy as i32;
                match timestamp_for_date_time(yy, month, day, 0, 0, 0) {
                    Some(ts) => {
                        let dist = distance_to_anchors(ts, anchors);
                        let better = match best {
                            None => true,
                            Some((_, bd)) => dist < bd,
                        };
                        if better {
                            best = Some((yy, dist));
                            proof {
                                best_idx = prev.len() as int;
                            }
                        }
                    },
                    None => {},
                }
            }
            t = t + 1;
        }
        assert(seq![y as int - 1, y as int, y as int + 1].subrange(0, 3) =~= seq![y as int - 1, y as int, y as int + 1]);
        k = k + 1;
    }
    assert(anchors@.subrange(0, anchors@.len() as int) =~= anchors@);
    match best {
        None => None,
        Some((y, _)) => Some(y),
    }
}

proof fn lemma_candidates_push(anchors: Seq<i32>, k: int)
    requires
        0 <= k < anchors.len(),
    ensures
        candidate_years(anchors.subrange(0, k + 1)) == candidate_years(anchors.subrange(0, k)) + seq![
            civil_from_days_spec(trunc_div(anchors[k] as int, 86400)).0 - 1,
            civil_from_days_spec(trunc_div(anchors[k] as int, 86400)).0,
            civil_from_days_spec(trunc_div(anchors[k] as int, 86400)).0 + 1,
        ],
    decreases k,
{
    let a = anchors.subrange(0, k + 1);
    if k == 0 {
        assert(a.drop_first() =~= Seq::<i32>::empty());
        assert(anchors.subrange(0, 0) =~= Seq::<i32>::empty());
    } else {
        lemma_candidates_push(anchors.drop_first(), k - 1);
        assert(a.drop_first() =~= anchors.drop_first().subrange(0, k));
        assert(anchors.subrange(0, k).drop_first() =~= anchors.drop_first().subrange(0, k - 1));
        assert(anchors.subrange(0, k)[0] == anchors[0]);
    }
}

} // verus!
