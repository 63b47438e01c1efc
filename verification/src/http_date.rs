//! Dates in the HTTP format (`Thu, 01 Jan 1970 00:00:00 GMT`), from seconds
//! since the Unix epoch.
use vstd::prelude::*;
use crate::text::{string_of, push_str};
use crate::decimal::{decimal, zero_pad, push_decimal_padded};

verus! {

/// The day of the civil (proleptic Gregorian) calendar that lies `d` days after
/// 1970-01-01, as (year, month, day), by H. Hinnant's `civil_from_days`.
pub open spec fn civil_spec(d: int) -> (int, int, int) {
    let z = d + 719468;
    let era = z / 146097;
    let doe = z - era * 146097;
    let yoe = (doe - doe / 1460 + doe / 36524 - doe / 146096) / 365;
    let y = yoe + era * 400;
    let doy = doe - (365 * yoe + yoe / 4 - yoe / 100);
    let mp = (5 * doy + 2) / 153;
    let day = doy - (153 * mp + 2) / 5 + 1;
    let month = if mp < 10 {
        mp + 3
    } else {
        mp - 9
    };
    let year = if month <= 2 {
        y + 1
    } else {
        y
    };
    (year, month, day)
}

/// Whether `y` is a leap year of the proleptic Gregorian calendar.
pub open spec fn is_leap_year(y: int) -> bool {
    y % 4 == 0 && (y % 100 != 0 || y % 400 == 0)
}

/// The number of days of month `m` (1 to 12) of year `y`.
pub open spec fn days_in_month(y: int, m: int) -> int {
    if m == 2 {
        if is_leap_year(y) {
            29
        } else {
            28
        }
    } else if m == 4 || m == 6 || m == 9 || m == 11 {
        30
    } else {
        31
    }
}

/// The day after the date `(year, month, day)`.
pub open spec fn next_day(date: (int, int, int)) -> (int, int, int) {
    let (y, m, d) = date;
    if d < days_in_month(y, m) {
        (y, m, d + 1)
    } else if m < 12 {
        (y, m + 1, 1)
    } else {
        (y + 1, 1, 1)
    }
}

/// The number of days of the year that runs from March of year `yoe` of a
/// 400-year era to the end of February of the next: 366 when that February
/// has 29 days.
pub open spec fn march_year_len(yoe: int) -> int {
    if is_leap_year(yoe + 1) {
        366
    } else {
        365
    }
}

proof fn lemma_div(x: int, d: int)
    requires
        0 <= x,
        0 < d,
    ensures
        x == d * (x / d) + x % d,
        0 <= x % d < d,
        0 <= x / d,
{
    vstd::arithmetic::div_mod::lemma_fundamental_div_mod(x, d);
    vstd::arithmetic::div_mod::lemma_mod_pos_bound(x, d);
    vstd::arithmetic::div_mod::lemma_div_pos_is_pos(x, d);
}

proof fn lemma_div_is(x: int, d: int, q: int, r: int)
    requires
        0 < d,
        0 <= r < d,
        x == q * d + r,
    ensures
        x / d == q,
{
    vstd::arithmetic::div_mod::lemma_fundamental_div_mod_converse(x, d, q, r);
}

/// The year of era and day of year that Hinnant's algorithm finds for a day of
/// era lie in their ranges: years 0 to 399, days 0 to 365.
pub proof fn lemma_day_of_year_bounds(doe: int)
    requires
        0 <= doe < 146097,
    ensures
        ({
            let yoe = (doe - doe / 1460 + doe / 36524 - doe / 146096) / 365;
            let doy = doe - (365 * yoe + yoe / 4 - yoe / 100);
            &&& 0 <= yoe <= 399
            &&& 0 <= doy < march_year_len(yoe)
        }),
{
    if doe == 146096 {
        lemma_div_is(doe, 1460, 100, 96);
        lemma_div_is(doe, 36524, 4, 0);
        lemma_div_is(doe, 146096, 1, 0);
        lemma_div_is(145999, 365, 399, 364);
        lemma_div_is(399, 4, 99, 3);
        lemma_div_is(399, 100, 3, 99);
        lemma_div_is(400, 4, 100, 0);
        lemma_div_is(400, 400, 1, 0);
    } else {
        lemma_div(doe, 36524);
        let c = doe / 36524;
        let r = doe % 36524;
        assert(c <= 3) by (nonlinear_arith)
            requires
                doe == 36524 * c + r,
                0 <= r,
                doe < 146096,
        ;
        lemma_div_is(doe, 146096, 0, doe);
        lemma_div(r, 1461);
        let m = r / 1461;
        let s = r % 1461;
        assert(m <= 24) by (nonlinear_arith)
            requires
                r == 1461 * m + s,
                0 <= s,
                r < 36524,
        ;
        let e: int = if 24 * c + m + s >= 1460 {
            1
        } else {
            0
        };
        assert(doe == (25 * c + m + e) * 1460 + (24 * c + m + s - 1460 * e)) by (nonlinear_arith)
            requires
                doe == 36524 * c + r,
                r == 1461 * m + s,
        ;
        lemma_div_is(doe, 1460, 25 * c + m + e, 24 * c + m + s - 1460 * e);
        let a = doe - doe / 1460 + doe / 36524 - doe / 146096;
        assert(a == 36500 * c + 1460 * m + s - e);
        lemma_div(s - e, 365);
        let j = (s - e) / 365;
        let w = (s - e) % 365;
        assert(j <= 3) by (nonlinear_arith)
            requires
                s - e == 365 * j + w,
                0 <= w,
                s - e <= 1459,
        ;
        assert(a == (100 * c + 4 * m + j) * 365 + w) by (nonlinear_arith)
            requires
                a == 36500 * c + 1460 * m + s - e,
                s - e == 365 * j + w,
        ;
        lemma_div_is(a, 365, 100 * c + 4 * m + j, w);
        let yoe = 100 * c + 4 * m + j;
        lemma_div_is(yoe, 4, 25 * c + m, j);
        lemma_div_is(yoe, 100, c, 4 * m + j);
        let doy = doe - (365 * yoe + yoe / 4 - yoe / 100);
        assert(doy == s - 365 * j);
        if doy == 365 {
            assert(e == 1 && w == 364);
            assert(s == 1460);
            assert(j == 3);
            assert(m <= 23);
            lemma_div_is(yoe + 1, 4, 25 * c + m + 1, 0);
            lemma_div_is(yoe + 1, 100, c, 4 * m + 4);
        }
    }
}

/// The year of a 400-year era that Hinnant's algorithm finds for day `doe`
/// of the era (years start in March).
pub open spec fn era_year(doe: int) -> int {
    (doe - doe / 1460 + doe / 36524 - doe / 146096) / 365
}

/// The first day, within its era, of March-based year `yoe`.
pub open spec fn year_start(yoe: int) -> int {
    365 * yoe + yoe / 4 - yoe / 100
}

/// The first day of March-based month `k` (0 for March) within its year.
pub open spec fn month_start(k: int) -> int {
    (153 * k + 2) / 5
}

/// The date of day `doy` of March-based year `yoe`, as Hinnant's algorithm
/// gives it (the year counted within the era).
pub open spec fn date_in_era_year(yoe: int, doy: int) -> (int, int, int) {
    let mp = (5 * doy + 2) / 153;
    let day = doy - month_start(mp) + 1;
    let month = if mp < 10 {
        mp + 3
    } else {
        mp - 9
    };
    (yoe + if month <= 2 {
        1int
    } else {
        0int
    }, month, day)
}

/// The date of day `doe` of an era, the year counted within the era.
pub open spec fn date_in_era(doe: int) -> (int, int, int) {
    date_in_era_year(era_year(doe), doe - year_start(era_year(doe)))
}

/// A date moved by `eras` eras of 400 years.
pub open spec fn shift_eras(date: (int, int, int), eras: int) -> (int, int, int) {
    (date.0 + 400 * eras, date.1, date.2)
}

/// The first day of each March-based month, and the day after February's
/// last.
pub open spec fn month_start_table(k: int) -> int {
    if k == 0 {
        0
    } else if k == 1 {
        31
    } else if k == 2 {
        61
    } else if k == 3 {
        92
    } else if k == 4 {
        122
    } else if k == 5 {
        153
    } else if k == 6 {
        184
    } else if k == 7 {
        214
    } else if k == 8 {
        245
    } else if k == 9 {
        275
    } else if k == 10 {
        306
    } else if k == 11 {
        337
    } else {
        367
    }
}

proof fn lemma_month_starts()
    ensures
        forall|k: int| 0 <= k <= 12 ==> #[trigger] month_start(k) == month_start_table(k),
{
    assert forall|k: int| 0 <= k <= 12 implies #[trigger] month_start(k) == month_start_table(k) by {
        let t = month_start_table(k);
        lemma_div_is(153 * k + 2, 5, t, 153 * k + 2 - 5 * t);
    }
}

proof fn lemma_march_month(doy: int)
    requires
        0 <= doy <= 365,
    ensures
        ({
            let mp = (5 * doy + 2) / 153;
            &&& 0 <= mp <= 11
            &&& month_start_table(mp) <= doy < month_start_table(mp + 1)
        }),
{
    let k: int = if doy < 31 {
        0
    } else if doy < 61 {
        1
    } else if doy < 92 {
        2
    } else if doy < 122 {
        3
    } else if doy < 153 {
        4
    } else if doy < 184 {
        5
    } else if doy < 214 {
        6
    } else if doy < 245 {
        7
    } else if doy < 275 {
        8
    } else if doy < 306 {
        9
    } else if doy < 337 {
        10
    } else {
        11
    };
    lemma_div_is(5 * doy + 2, 153, k, 5 * doy + 2 - 153 * k);
}

proof fn lemma_is_leap_shift(y: int, eras: int)
    ensures
        is_leap_year(y + 400 * eras) == is_leap_year(y),
{
    vstd::arithmetic::div_mod::lemma_mod_multiples_vanish(100 * eras, y, 4);
    vstd::arithmetic::div_mod::lemma_mod_multiples_vanish(4 * eras, y, 100);
    vstd::arithmetic::div_mod::lemma_mod_multiples_vanish(eras, y, 400);
    assert(4 * (100 * eras) + y == y + 400 * eras);
    assert(100 * (4 * eras) + y == y + 400 * eras);
}

proof fn lemma_next_day_shift(date: (int, int, int), eras: int)
    ensures
        next_day(shift_eras(date, eras)) == shift_eras(next_day(date), eras),
        days_in_month(date.0 + 400 * eras, date.1) == days_in_month(date.0, date.1),
{
    lemma_is_leap_shift(date.0, eras);
    lemma_is_leap_shift(date.0 + 1, eras);
}

/// Within a March-based year: the month and day of a day, the day bounded by
/// the month's length, and the next day of the same year.
proof fn lemma_doy_step(yoe: int, doy: int)
    requires
        0 <= yoe <= 399,
        0 <= doy < march_year_len(yoe),
    ensures
        1 <= date_in_era_year(yoe, doy).1 <= 12,
        1 <= date_in_era_year(yoe, doy).2 <= days_in_month(
            date_in_era_year(yoe, doy).0,
            date_in_era_year(yoe, doy).1,
        ),
        doy + 1 < march_year_len(yoe) ==> date_in_era_year(yoe, doy + 1) == next_day(
            date_in_era_year(yoe, doy),
        ),
        doy + 1 == march_year_len(yoe) ==> next_day(date_in_era_year(yoe, doy)) == (
            yoe + 1,
            3int,
            1int,
        ),
{
    lemma_month_starts();
    lemma_march_month(doy);
    let mp = (5 * doy + 2) / 153;
    assert(month_start(mp) == month_start_table(mp));
    if doy + 1 < march_year_len(yoe) {
        lemma_march_month(doy + 1);
        let mq = (5 * (doy + 1) + 2) / 153;
        assert(month_start(mq) == month_start_table(mq));
    }
}

proof fn lemma_div_step(y: int, d: int)
    requires
        0 <= y,
        0 < d,
    ensures
        (y + 1) / d == y / d + if (y + 1) % d == 0 {
            1int
        } else {
            0int
        },
{
    lemma_div(y, d);
    let q = y / d;
    let r = y % d;
    assert(d * q == q * d && (q + 1) * d == q * d + d) by (nonlinear_arith);
    if r + 1 < d {
        vstd::arithmetic::div_mod::lemma_fundamental_div_mod_converse(y + 1, d, q, r + 1);
    } else {
        vstd::arithmetic::div_mod::lemma_fundamental_div_mod_converse(y + 1, d, q + 1, 0);
    }
}

proof fn lemma_year_start_step(yoe: int)
    requires
        0 <= yoe <= 398,
    ensures
        year_start(yoe + 1) == year_start(yoe) + march_year_len(yoe),
{
    lemma_div_step(yoe, 4);
    lemma_div_step(yoe, 100);
    lemma_div_is(yoe + 1, 400, 0, yoe + 1);
    lemma_div(yoe + 1, 4);
    if (yoe + 1) % 100 == 0 {
        lemma_div(yoe + 1, 100);
        lemma_div_is(yoe + 1, 4, 25 * ((yoe + 1) / 100), 0);
    }
}

proof fn lemma_year_start_grows(a: int, b: int)
    requires
        0 <= a <= b <= 399,
    ensures
        year_start(b) >= year_start(a) + 365 * (b - a),
    decreases b - a,
{
    if a < b {
        lemma_year_start_grows(a, b - 1);
        lemma_year_start_step(b - 1);
    }
}

proof fn lemma_era_year_unique(doe: int, y: int)
    requires
        0 <= doe <= 146096,
        0 <= y <= 399,
        year_start(y) <= doe < year_start(y) + march_year_len(y),
    ensures
        era_year(doe) == y,
{
    lemma_day_of_year_bounds(doe);
    let y0 = era_year(doe);
    if y0 < y {
        lemma_year_start_step(y0);
        lemma_year_start_grows(y0 + 1, y);
    } else if y < y0 {
        lemma_year_start_step(y);
        lemma_year_start_grows(y + 1, y0);
    }
}

/// Within an era: the date of each day is a valid date, and the next day of
/// the era has the next date.
proof fn lemma_era_step(doe: int)
    requires
        0 <= doe <= 146096,
    ensures
        1 <= date_in_era(doe).1 <= 12,
        1 <= date_in_era(doe).2 <= days_in_month(date_in_era(doe).0, date_in_era(doe).1),
        doe < 146096 ==> date_in_era(doe + 1) == next_day(date_in_era(doe)),
        doe == 146096 ==> next_day(date_in_era(doe)) == (400int, 3int, 1int),
{
    lemma_day_of_year_bounds(doe);
    let y = era_year(doe);
    let doy = doe - year_start(y);
    lemma_doy_step(y, doy);
    if doe < 146096 {
        if doy + 1 < march_year_len(y) {
            lemma_era_year_unique(doe + 1, y);
        } else {
            if y == 399 {
                assert(year_start(399) == 145731) by {
                    lemma_div_is(399, 4, 99, 3);
                    lemma_div_is(399, 100, 3, 99);
                }
                lemma_div_is(400, 4, 100, 0);
                lemma_div_is(400, 400, 1, 0);
                assert(false);
            }
            lemma_year_start_step(y);
            lemma_day_of_year_bounds(doe + 1);
            assert(march_year_len(y + 1) >= 365);
            lemma_era_year_unique(doe + 1, y + 1);
            lemma_month_starts();
            lemma_div_is(2, 153, 0, 2);
            assert(date_in_era(doe + 1) == date_in_era_year(y + 1, 0));
        }
    } else {
        lemma_div_is(doe, 1460, 100, 96);
        lemma_div_is(doe, 36524, 4, 0);
        lemma_div_is(doe, 146096, 1, 0);
        lemma_div_is(145999, 365, 399, 364);
        lemma_div_is(399, 4, 99, 3);
        lemma_div_is(399, 100, 3, 99);
        lemma_div_is(400, 4, 100, 0);
        lemma_div_is(400, 400, 1, 0);
        assert(y == 399);
        assert(doy + 1 == march_year_len(y));
    }
}

/// The dates that `civil_spec` gives form the proleptic Gregorian calendar:
/// every date is valid (month 1 to 12, day within the month, February with 29
/// days exactly in leap years), and the day after day `d` has the next date.
/// Within a billion days of the epoch the year fits in 32 bits, so there
/// `civil_from_days` gives these dates as they are.
pub proof fn law_civil_calendar(d: int)
    ensures
        1 <= civil_spec(d).1 <= 12,
        1 <= civil_spec(d).2 <= days_in_month(civil_spec(d).0, civil_spec(d).1),
        civil_spec(d + 1) == next_day(civil_spec(d)),
        -1_000_000_000 <= d < 1_000_000_000 ==> i32::MIN <= civil_spec(d).0 <= i32::MAX,
{
    let z = d + 719468;
    let era = z / 146097;
    let doe = z - era * 146097;
    vstd::arithmetic::div_mod::lemma_fundamental_div_mod(z, 146097);
    vstd::arithmetic::div_mod::lemma_mod_bound(z, 146097);
    assert(0 <= doe < 146097);
    assert(civil_spec(d) == shift_eras(date_in_era(doe), era));
    lemma_era_step(doe);
    lemma_day_of_year_bounds(doe);
    if -1_000_000_000 <= d < 1_000_000_000 {
        assert(-7000 <= era <= 7000) by (nonlinear_arith)
            requires
                z == 146097 * era + doe,
                0 <= doe < 146097,
                -1_000_000_000 + 719468 <= z < 1_000_000_000 + 719468,
        ;
    }
    lemma_next_day_shift(date_in_era(doe), era);
    if doe < 146096 {
        lemma_div_is(z + 1, 146097, era, doe + 1);
        assert(civil_spec(d + 1) == shift_eras(date_in_era(doe + 1), era));
    } else {
        lemma_div_is(z + 1, 146097, era + 1, 0);
        lemma_div_is(0, 1460, 0, 0);
        lemma_div_is(0, 36524, 0, 0);
        lemma_div_is(0, 146096, 0, 0);
        lemma_div_is(0, 365, 0, 0);
        lemma_div_is(0, 4, 0, 0);
        lemma_div_is(0, 100, 0, 0);
        lemma_div_is(2, 153, 0, 2);
        lemma_div_is(2, 5, 0, 2);
        assert(date_in_era(0) == (0int, 3int, 1int));
        assert(civil_spec(d + 1) == shift_eras(date_in_era(0), era + 1));
    }
}

/// The three-letter name of a weekday, counted from Thursday (the weekday of
/// the Unix epoch).
pub open spec fn weekday_name(i: int) -> Seq<char> {
    if i == 0 {
        "Thu"@
    } else if i == 1 {
        "Fri"@
    } else if i == 2 {
        "Sat"@
    } else if i == 3 {
        "Sun"@
    } else if i == 4 {
        "Mon"@
    } else if i == 5 {
        "Tue"@
    } else {
        "Wed"@
    }
}

/// The three-letter name of a month, 1 to 12.
pub open spec fn month_name(m: int) -> Seq<char> {
    if m == 1 {
        "Jan"@
    } else if m == 2 {
        "Feb"@
    } else if m == 3 {
        "Mar"@
    } else if m == 4 {
        "Apr"@
    } else if m == 5 {
        "May"@
    } else if m == 6 {
        "Jun"@
    } else if m == 7 {
        "Jul"@
    } else if m == 8 {
        "Aug"@
    } else if m == 9 {
        "Sep"@
    } else if m == 10 {
        "Oct"@
    } else if m == 11 {
        "Nov"@
    } else {
        "Dec"@
    }
}

/// `{:04}` of a signed number: a minus sign counts toward the width.
pub open spec fn signed_pad4(y: int) -> Seq<char> {
    if y >= 0 {
        zero_pad(decimal(y as nat), 4)
    } else {
        seq!['-'] + zero_pad(decimal((-y) as nat), 3)
    }
}

/// The HTTP date of the moment `secs` seconds after the Unix epoch.
pub open spec fn http_date_spec(secs: u64) -> Seq<char> {
    let days = secs / 86400;
    let sod = secs % 86400;
    let (y, m, d) = civil_spec(days as int);
    weekday_name((days % 7) as int) + ", "@ + zero_pad(decimal(d as nat), 2) + seq![' ']
        + month_name(m) + seq![' '] + signed_pad4(y as i32 as int) + seq![' '] + zero_pad(
        decimal((sod / 3600) as nat),
        2,
    ) + seq![':'] + zero_pad(decimal(((sod % 3600) / 60) as nat), 2) + seq![':'] + zero_pad(
        decimal((sod % 60) as nat),
        2,
    ) + " GMT"@
}

/// The civil date `days_since_unix_epoch` days after 1970-01-01, as (year,
/// month, day), by H. Hinnant's algorithm; the month is 1 to 12 and the day
/// 1 to 31. The year is truncated to 32 bits as the cast does.
pub fn civil_from_days(days_since_unix_epoch: i64) -> (r: (i32, u32, u32))
    requires
        days_since_unix_epoch <= i64::MAX - 719468,
    ensures
        r.0 == civil_spec(days_since_unix_epoch as int).0 as i32,
        r.1 as int == civil_spec(days_since_unix_epoch as int).1,
        r.2 as int == civil_spec(days_since_unix_epoch as int).2,
        1 <= r.1 <= 12,
        1 <= r.2 <= 31,
{
    let z: i64 = days_since_unix_epoch + 719468;
    let era: i64 = if z >= 0 {
        z / 146097
    } else {
        -((146096 - z) / 146097)
    };
    proof {
        if z >= 0 {
            lemma_div(z as int, 146097);
            assert(0 <= era * 400 <= z) by (nonlinear_arith)
                requires
                    era == z as int / 146097,
                    z == 146097 * (z as int / 146097) + z as int % 146097,
                    0 <= z as int % 146097,
                    0 <= era,
            ;
        } else {
            let n = 146096 - z;
            lemma_div(n as int, 146097);
            let q = n as int / 146097;
            let rem = n as int % 146097;
            assert(z as int == (-q) * 146097 + (146096 - rem)) by (nonlinear_arith)
                requires
                    n == 146096 - z,
                    n == 146097 * q + rem,
            ;
            lemma_div_is(z as int, 146097, -q, 146096 - rem);
            assert(z - 146097 <= era * 400 <= 0) by (nonlinear_arith)
                requires
                    era == -q,
                    0 <= q,
                    z == era * 146097 + (146096 - rem),
                    0 <= rem < 146097,
            ;
        }
        assert(era == z as int / 146097);
        assert(0 <= z - era * 146097 < 146097);
    }
    let doe: i64 = z - era * 146097;
    proof {
        lemma_day_of_year_bounds(doe as int);
    }
    let yoe: i64 = (doe - doe / 1460 + doe / 36524 - doe / 146096) / 365;
    let y: i64 = yoe + era * 400;
    let doy: i64 = doe - (365 * yoe + yoe / 4 - yoe / 100);
    let mp: i64 = (5 * doy + 2) / 153;
    proof {
        lemma_div((5 * doy + 2) as int, 153);
        assert(0 <= mp <= 11) by (nonlinear_arith)
            requires
                mp == (5 * doy + 2) / 153,
                0 <= doy <= 365,
                5 * doy + 2 == 153 * mp + (5 * doy + 2) % 153,
                0 <= (5 * doy + 2) % 153 < 153,
        ;
        lemma_div((153 * mp + 2) as int, 5);
        assert(1 <= doy - (153 * mp + 2) / 5 + 1 <= 31) by (nonlinear_arith)
            requires
                0 <= mp <= 11,
                5 * doy + 2 == 153 * mp + (5 * doy + 2) % 153,
                0 <= (5 * doy + 2) % 153 < 153,
                153 * mp + 2 == 5 * ((153 * mp + 2) / 5) + (153 * mp + 2) % 5,
                0 <= (153 * mp + 2) % 5 < 5,
        ;
    }
    let day: i64 = doy - (153 * mp + 2) / 5 + 1;
    let month: i64 = mp + if mp < 10 {
        3
    } else {
        -9
    };
    let year: i64 = y + if month <= 2 {
        1
    } else {
        0
    };
    (year as i32, month as u32, day as u32)
}

fn push_name(out: &mut Vec<char>, s: &str)
    ensures
        final(out)@ == old(out)@ + s@,
{
    push_str(out, s);
}

fn weekday(i: u64) -> (r: &'static str)
    requires
        i < 7,
    ensures
        r@ == weekday_name(i as int),
{
    if i == 0 {
        "Thu"
    } else if i == 1 {
        "Fri"
    } else if i == 2 {
        "Sat"
    } else if i == 3 {
        "Sun"
    } else if i == 4 {
        "Mon"
    } else if i == 5 {
        "Tue"
    } else {
        "Wed"
    }
}

fn month(m: u32) -> (r: &'static str)
    requires
        1 <= m <= 12,
    ensures
        r@ == month_name(m as int),
{
    if m == 1 {
        "Jan"
    } else if m == 2 {
        "Feb"
    } else if m == 3 {
        "Mar"
    } else if m == 4 {
        "Apr"
    } else if m == 5 {
        "May"
    } else if m == 6 {
        "Jun"
    } else if m == 7 {
        "Jul"
    } else if m == 8 {
        "Aug"
    } else if m == 9 {
        "Sep"
    } else if m == 10 {
        "Oct"
    } else if m == 11 {
        "Nov"
    } else {
        "Dec"
    }
}

/// The HTTP date (`Thu, 01 Jan 1970 00:00:00 GMT`) of the moment `secs`
/// seconds after the Unix epoch; `None` when the moment is unknown.
pub fn format_http_date(secs: Option<u64>) -> (r: Option<String>)
    ensures
        secs is None ==> r is None,
        secs matches Some(t) ==> (r matches Some(v) && v@ == http_date_spec(t)),
{
    let t = match secs {
        Some(t) => t,
        None => {
            return None;
        },
    };
    let days = t / 86400;
    let sod = t % 86400;
    let (year, mon, day) = civil_from_days(days as i64);
    let mut out: Vec<char> = Vec::new();
    push_name(&mut out, weekday(days % 7));
    push_name(&mut out, ", ");
    push_decimal_padded(&mut out, day as u64, 2);
    out.push(' ');
    push_name(&mut out, month(mon));
    out.push(' ');
    if year >= 0 {
        push_decimal_padded(&mut out, year as u64, 4);
    } else {
        out.push('-');
        let mag: i64 = -(year as i64);
        push_decimal_padded(&mut out, mag as u64, 3);
    }
    out.push(' ');
    push_decimal_padded(&mut out, sod / 3600, 2);
    out.push(':');
    push_decimal_padded(&mut out, (sod % 3600) / 60, 2);
    out.push(':');
    push_decimal_padded(&mut out, sod % 60, 2);
    push_name(&mut out, " GMT");
    assert(out@ =~= http_date_spec(t));
    Some(string_of(&out))
}

} // verus!
