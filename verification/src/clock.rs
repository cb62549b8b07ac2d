//! The evaluation timestamp: seconds since the Unix epoch written as an ISO
//! 8601 UTC time, `YYYY-MM-DDTHH:MM:SSZ`, in the proleptic Gregorian calendar.

use vstd::prelude::*;

use crate::notation::{
    lemma_padded_order, lemma_text_before_after_prefix, lemma_text_before_within, padded_decimal, pow10,
    push_padded, text_before,
};

verus! {

/// The system clock's reading.
#[verifier::external_type_specification]
#[verifier::external_body]
pub struct ExSystemTime(std::time::SystemTime);

/// Seconds in a day.
pub const SECONDS_PER_DAY: u64 = 86400;

/// A Gregorian leap year.
pub open spec fn is_leap_year(y: int) -> bool {
    y % 4 == 0 && (y % 100 != 0 || y % 400 == 0)
}

/// Days in year `y`.
pub open spec fn year_length(y: int) -> int {
    if is_leap_year(y) {
        366
    } else {
        365
    }
}

/// Days in month `m` (1 = January) of year `y`.
pub open spec fn month_length(y: int, m: int) -> int {
    if m == 2 {
        if is_leap_year(y) {
            29
        } else {
            28
        }
    } else if m == 4 || m == 6 || m == 9 || m == 11 {
        30
    } else {
        31
    }
}

/// Days from 1970-01-01 to the first of January of year `y`.
pub open spec fn days_before_year(y: int) -> int
    decreases y - 1970,
{
    if y <= 1970 {
        0
    } else {
        days_before_year(y - 1) + year_length(y - 1)
    }
}

/// Days from the first of January of year `y` to the first of month `m`.
pub open spec fn days_before_month(y: int, m: int) -> int
    decreases m,
{
    if m <= 1 {
        0
    } else {
        days_before_month(y, m - 1) + month_length(y, m - 1)
    }
}

/// A date of the calendar, no earlier than the epoch's year.
pub open spec fn is_valid_date(y: int, m: int, d: int) -> bool {
    &&& y >= 1970
    &&& 1 <= m <= 12
    &&& 1 <= d <= month_length(y, m)
}

/// Days from 1970-01-01 to the date `y-m-d`.
pub open spec fn day_number(y: int, m: int, d: int) -> int {
    days_before_year(y) + days_before_month(y, m) + d - 1
}

/// Leap years among the years `1..=x`.
spec fn leaps_through(x: int) -> int {
    x / 4 - x / 100 + x / 400
}

proof fn lemma_leap_step(y: int)
    requires
        y >= 1,
    ensures
        leaps_through(y) - leaps_through(y - 1) == if is_leap_year(y) { 1int } else { 0int },
{
    assert(y / 4 - (y - 1) / 4 == if y % 4 == 0 { 1int } else { 0int });
    assert(y / 100 - (y - 1) / 100 == if y % 100 == 0 { 1int } else { 0int });
    assert(y / 400 - (y - 1) / 400 == if y % 400 == 0 { 1int } else { 0int });
    assert(y % 400 == 0 ==> y % 100 == 0 && y % 4 == 0);
    assert(y % 100 == 0 ==> y % 4 == 0);
}

/// The closed form of the days before a year.
proof fn lemma_days_before_year(y: int)
    requires
        y >= 1970,
    ensures
        days_before_year(y) == 365 * (y - 1970) + leaps_through(y - 1) - leaps_through(1969),
    decreases y - 1970,
{
    if y > 1970 {
        lemma_days_before_year(y - 1);
        lemma_leap_step(y - 1);
    }
}

/// Days from the first of March of year 0 of a 400-year era to the first of
/// March of its year `k`.
spec fn era_days_before(k: int) -> int {
    365 * k + k / 4 - k / 100 + k / 400
}

proof fn lemma_year_of_era(doe: int)
    requires
        0 <= doe < 146097,
    ensures
        ({
            let yoe = (doe - doe / 1460 + doe / 36524 - doe / 146096) / 365;
            &&& 0 <= yoe < 400
            &&& era_days_before(yoe) <= doe < era_days_before(yoe + 1)
        }),
{
    let yoe = (doe - doe / 1460 + doe / 36524 - doe / 146096) / 365;
    if doe == 146096 {
        assert(yoe == 399);
        assert(era_days_before(399) == 145731);
        assert(era_days_before(400) == 146097);
    } else {
        // century b, four-year group j, day s of the group
        let b = doe / 36524;
        let r = doe % 36524;
        let j = r / 1461;
        let s = r % 1461;
        assert(0 <= b < 4);
        assert(doe == 36524 * b + 1461 * j + s);
        assert(0 <= j <= 24);
        assert(j == 24 && b < 3 ==> s <= 1459);
        assert(doe / 146096 == 0);
        assert(doe / 36524 == b);
        let e = (24 * b + j + s) / 1460;
        assert(doe / 1460 == 25 * b + j + e) by {
            assert(doe == 1460 * (25 * b + j) + (24 * b + j + s));
        }
        assert(0 <= e <= 1);
        assert(s == 1460 ==> e == 1);
        assert(e == 1 ==> s >= 1364);
        let k = (s - e) / 365;
        assert(0 <= k <= 3);
        assert(yoe == 100 * b + 4 * j + k) by {
            assert(doe - doe / 1460 + doe / 36524 - doe / 146096 == 365 * (100 * b + 4 * j) + (s - e));
        }
        assert(era_days_before(yoe) == 36524 * b + 1461 * j + 365 * k) by {
            assert(yoe / 4 == 25 * b + j);
            assert(yoe / 100 == b);
            assert(yoe / 400 == 0);
        }
        if k < 3 {
            assert(e == 0);
            assert(era_days_before(yoe + 1) == 36524 * b + 1461 * j + 365 * (k + 1)) by {
                assert((yoe + 1) / 4 == 25 * b + j);
                assert((yoe + 1) / 100 == b);
                assert((yoe + 1) / 400 == 0);
            }
        } else if j < 24 {
            assert(era_days_before(yoe + 1) == 36524 * b + 1461 * (j + 1)) by {
                assert((yoe + 1) / 4 == 25 * b + j + 1);
                assert((yoe + 1) / 100 == b);
                assert((yoe + 1) / 400 == 0);
            }
        } else if b < 3 {
            assert(era_days_before(yoe + 1) == 36524 * b + 1461 * 25 - 1) by {
                assert((yoe + 1) / 4 == 25 * b + 25);
                assert((yoe + 1) / 100 == b + 1);
                assert((yoe + 1) / 400 == 0);
            }
        } else {
            assert(era_days_before(yoe + 1) == 146097) by {
                assert(yoe + 1 == 400);
            }
        }
    }
}

/// The first of month `mp` of a year counted from March (0 = March,
/// 11 = February), in days from the first of March.
spec fn march_month_start(mp: int) -> int {
    (153 * mp + 2) / 5
}

/// The first days of the months of a year counted from March.
proof fn lemma_march_month_starts()
    ensures
        march_month_start(0) == 0,
        march_month_start(1) == 31,
        march_month_start(2) == 61,
        march_month_start(3) == 92,
        march_month_start(4) == 122,
        march_month_start(5) == 153,
        march_month_start(6) == 184,
        march_month_start(7) == 214,
        march_month_start(8) == 245,
        march_month_start(9) == 275,
        march_month_start(10) == 306,
        march_month_start(11) == 337,
        march_month_start(12) == 367,
{
}

proof fn lemma_month_of_year(doy: int, leap: bool)
    requires
        0 <= doy < if leap { 366int } else { 365int },
    ensures
        ({
            let mp = (5 * doy + 2) / 153;
            let d = doy - march_month_start(mp) + 1;
            let m = if mp < 10 { mp + 3 } else { mp - 9 };
            &&& 0 <= mp <= 11
            &&& march_month_start(mp) <= doy < march_month_start(mp + 1)
            &&& 1 <= d
            &&& d <= if m == 2 {
                if leap { 29int } else { 28int }
            } else if m == 4 || m == 6 || m == 9 || m == 11 {
                30int
            } else {
                31int
            }
        }),
{
    let mp = (5 * doy + 2) / 153;
    assert(153 * mp <= 5 * doy + 2 < 153 * mp + 153);
    assert(0 <= mp <= 11);
    assert(march_month_start(mp) <= doy);
    assert(doy < march_month_start(mp + 1));
    lemma_march_month_starts();
}

/// The days before each month, in the form counted from March.
proof fn lemma_days_before_month(y: int, m: int)
    requires
        1 <= m <= 12,
    ensures
        days_before_month(y, m) == if m == 1 {
            0int
        } else if m == 2 {
            31int
        } else {
            59 + (if is_leap_year(y) { 1int } else { 0int }) + march_month_start(m - 3)
        },
{
    reveal_with_fuel(days_before_month, 13);
    lemma_march_month_starts();
}

proof fn lemma_era_days_monotone(a: int, b: int)
    requires
        0 <= a <= b,
    ensures
        era_days_before(a) <= era_days_before(b),
{
    assert(a / 4 <= b / 4);
    assert(a / 400 <= b / 400);
    assert(b / 100 - a / 100 <= (b - a) / 100 + 1);
    assert((b - a) / 100 <= b - a);
}

/// The intermediate values of `civil_from_days` stay in range.
proof fn lemma_day_of_era_bounds(doe: int)
    requires
        0 <= doe < 146097,
    ensures
        ({
            let yoe = (doe - doe / 1460 + doe / 36524 - doe / 146096) / 365;
            let doy = doe - (365 * yoe + yoe / 4 - yoe / 100);
            let mp = (5 * doy + 2) / 153;
            &&& 0 <= yoe < 400
            &&& 0 <= doy <= 365
            &&& 0 <= mp <= 11
            &&& (153 * mp + 2) / 5 <= doy
        }),
{
    let yoe = (doe - doe / 1460 + doe / 36524 - doe / 146096) / 365;
    lemma_year_of_era(doe);
    lemma_leap_step(yoe + 1);
    let doy = doe - (365 * yoe + yoe / 4 - yoe / 100);
    assert(doy == doe - era_days_before(yoe));
    lemma_month_of_year(doy, is_leap_year(yoe + 1));
}

/// The date that the computation of `civil_from_days` arrives at is the date
/// of `days`: every intermediate value is given, as the computation has it.
proof fn lemma_civil_from_days(
    days: int,
    era: int,
    doe: int,
    yoe: int,
    doy: int,
    mp: int,
    d: int,
    m: int,
    y: int,
)
    requires
        days >= 0,
        era == (days + 719468) / 146097,
        doe == (days + 719468) - era * 146097,
        yoe == (doe - doe / 1460 + doe / 36524 - doe / 146096) / 365,
        doy == doe - (365 * yoe + yoe / 4 - yoe / 100),
        mp == (5 * doy + 2) / 153,
        d == doy - (153 * mp + 2) / 5 + 1,
        m == if mp < 10 { mp + 3 } else { mp - 9 },
        y == yoe + era * 400 + if m <= 2 { 1int } else { 0int },
    ensures
        is_valid_date(y, m, d),
        day_number(y, m, d) == days,
{
    let z = days + 719468;
    assert(era >= 0);
    assert(0 <= doe < 146097);
    lemma_year_of_era(doe);
    assert(doy == doe - era_days_before(yoe));
    let big_y = 400 * era + yoe;
    assert(era_days_before(big_y) == 146097 * era + era_days_before(yoe)) by {
        assert(big_y / 4 == 100 * era + yoe / 4);
        assert(big_y / 100 == 4 * era + yoe / 100);
        assert(big_y / 400 == era + yoe / 400);
    }
    assert(era_days_before(big_y + 1) == 146097 * era + era_days_before(yoe + 1)) by {
        assert((big_y + 1) / 4 == 100 * era + (yoe + 1) / 4);
        assert((big_y + 1) / 100 == 4 * era + (yoe + 1) / 100);
        assert((big_y + 1) / 400 == era + (yoe + 1) / 400);
    }
    assert(z == era_days_before(big_y) + doy);
    lemma_leap_step(big_y + 1);
    let leap_next = is_leap_year(big_y + 1);
    assert(era_days_before(big_y + 1) - era_days_before(big_y) == 365 + if leap_next {
        1int
    } else {
        0int
    });
    lemma_month_of_year(doy, leap_next);
    assert(doy == march_month_start(mp) + d - 1);
    lemma_march_month_starts();
    // the year is no earlier than the epoch's
    if big_y <= 1968 {
        lemma_era_days_monotone(big_y + 1, 1969);
        assert(era_days_before(1969) == 719162);
        assert(false);
    }
    if big_y == 1969 && mp < 10 {
        assert(era_days_before(1969) == 719162);
        assert(march_month_start(mp + 1) <= 306);
        assert(false);
    }
    assert(leaps_through(1969) == 477);
    if mp < 10 {
        assert(y == big_y);
        lemma_days_before_year(big_y);
        lemma_days_before_month(big_y, m);
        lemma_leap_step(big_y);
        assert(m - 3 == mp);
    } else {
        assert(y == big_y + 1);
        lemma_days_before_year(big_y + 1);
        lemma_days_before_month(big_y + 1, m);
    }
}

proof fn lemma_days_before_year_monotone(a: int, b: int)
    requires
        1970 <= a <= b,
    ensures
        days_before_year(a) <= days_before_year(b),
    decreases b - a,
{
    if a < b {
        lemma_days_before_year_monotone(a, b - 1);
    }
}

proof fn lemma_days_before_month_monotone(y: int, a: int, b: int)
    requires
        1 <= a <= b,
    ensures
        days_before_month(y, a) <= days_before_month(y, b),
    decreases b - a,
{
    if a < b {
        lemma_days_before_month_monotone(y, a, b - 1);
    }
}

/// A valid date falls within its year.
proof fn lemma_date_within_year(y: int, m: int, d: int)
    requires
        is_valid_date(y, m, d),
    ensures
        days_before_year(y) <= day_number(y, m, d) < days_before_year(y + 1),
{
    lemma_days_before_month(y, m);
    lemma_march_month_starts();
}

/// Each day since the epoch has exactly one calendar date: two valid dates
/// with the same day number are the same date.
pub proof fn lemma_date_unique(y1: int, m1: int, d1: int, y2: int, m2: int, d2: int)
    requires
        is_valid_date(y1, m1, d1),
        is_valid_date(y2, m2, d2),
        day_number(y1, m1, d1) == day_number(y2, m2, d2),
    ensures
        y1 == y2 && m1 == m2 && d1 == d2,
{
    lemma_date_within_year(y1, m1, d1);
    lemma_date_within_year(y2, m2, d2);
    if y1 < y2 {
        lemma_days_before_year_monotone(y1 + 1, y2);
    } else if y2 < y1 {
        lemma_days_before_year_monotone(y2 + 1, y1);
    }
    assert(y1 == y2);
    if m1 < m2 {
        lemma_days_before_month_monotone(y1, m1 + 1, m2);
    } else if m2 < m1 {
        lemma_days_before_month_monotone(y1, m2 + 1, m1);
    }
}

/// The calendar date (year, month, day) of the day `days` after 1970-01-01.
pub open spec fn civil_date(days: int) -> (int, int, int) {
    choose|y: int, m: int, d: int| is_valid_date(y, m, d) && day_number(y, m, d) == days
}

/// A valid date is the calendar date of its day number.
pub proof fn lemma_civil_date_is(y: int, m: int, d: int, days: int)
    requires
        is_valid_date(y, m, d),
        day_number(y, m, d) == days,
    ensures
        civil_date(days) == (y, m, d),
{
    let c = civil_date(days);
    assert(is_valid_date(c.0, c.1, c.2) && day_number(c.0, c.1, c.2) == days);
    lemma_date_unique(y, m, d, c.0, c.1, c.2);
}

/// `secs` seconds after the Unix epoch, as `YYYY-MM-DDTHH:MM:SSZ`.
pub open spec fn utc_text(secs: nat) -> Seq<char> {
    let date = civil_date((secs / 86400) as int);
    let rem = secs % 86400;
    padded_decimal(date.0 as nat, 4) + seq!['-'] + padded_decimal(date.1 as nat, 2) + seq!['-']
        + padded_decimal(date.2 as nat, 2) + seq!['T'] + padded_decimal(rem / 3600, 2) + seq![':']
        + padded_decimal((rem % 3600) / 60, 2) + seq![':'] + padded_decimal(rem % 60, 2) + seq![
        'Z',
    ]
}

/// The first second of year 10000: timestamps before it have four-digit years.
pub const YEAR_10000_SECONDS: u64 = 253402300800;

/// Every day since the epoch has a date.
proof fn lemma_civil_date_exists(days: int)
    requires
        days >= 0,
    ensures
        is_valid_date(civil_date(days).0, civil_date(days).1, civil_date(days).2),
        day_number(civil_date(days).0, civil_date(days).1, civil_date(days).2) == days,
{
    let era = (days + 719468) / 146097;
    let doe = (days + 719468) - era * 146097;
    let yoe = (doe - doe / 1460 + doe / 36524 - doe / 146096) / 365;
    let doy = doe - (365 * yoe + yoe / 4 - yoe / 100);
    let mp = (5 * doy + 2) / 153;
    let d = doy - (153 * mp + 2) / 5 + 1;
    let m = if mp < 10 { mp + 3 } else { mp - 9 };
    let y = yoe + era * 400 + if m <= 2 { 1int } else { 0int };
    lemma_civil_from_days(days, era, doe, yoe, doy, mp, d, m, y);
    lemma_civil_date_is(y, m, d, days);
}

/// A later day has a later date.
proof fn lemma_dates_in_order(y1: int, m1: int, d1: int, y2: int, m2: int, d2: int)
    requires
        is_valid_date(y1, m1, d1),
        is_valid_date(y2, m2, d2),
        day_number(y1, m1, d1) < day_number(y2, m2, d2),
    ensures
        y1 < y2 || (y1 == y2 && (m1 < m2 || (m1 == m2 && d1 < d2))),
{
    lemma_date_within_year(y1, m1, d1);
    lemma_date_within_year(y2, m2, d2);
    if y1 > y2 {
        lemma_days_before_year_monotone(y2 + 1, y1);
    }
    if y1 == y2 && m1 > m2 {
        lemma_days_before_month_monotone(y1, m2 + 1, m1);
    }
}

/// The text after the minutes: `:SSZ`.
spec fn after_minute(e: nat) -> Seq<char> {
    seq![':'] + padded_decimal(e, 2) + seq!['Z']
}

/// The text after the hour: `:MM:SSZ`.
spec fn after_hour(i: nat, e: nat) -> Seq<char> {
    seq![':'] + padded_decimal(i, 2) + after_minute(e)
}

/// The text after the day: `THH:MM:SSZ`.
spec fn after_day(h: nat, i: nat, e: nat) -> Seq<char> {
    seq!['T'] + padded_decimal(h, 2) + after_hour(i, e)
}

/// The text after the month: `-DDTHH:MM:SSZ`.
spec fn after_month(d: nat, h: nat, i: nat, e: nat) -> Seq<char> {
    seq!['-'] + padded_decimal(d, 2) + after_day(h, i, e)
}

/// The text after the year: `-MM-DDTHH:MM:SSZ`.
spec fn after_year(m: nat, d: nat, h: nat, i: nat, e: nat) -> Seq<char> {
    seq!['-'] + padded_decimal(m, 2) + after_month(d, h, i, e)
}

/// The text of a time from its fields.
spec fn fields_text(y: nat, m: nat, d: nat, h: nat, i: nat, e: nat) -> Seq<char> {
    padded_decimal(y, 4) + after_year(m, d, h, i, e)
}

/// One fixed-width field, then the rest: the field decides the order when it
/// differs, the rest when it does not.
proof fn lemma_field_then_rest(
    sep: Seq<char>,
    n1: nat,
    n2: nat,
    w: nat,
    rest1: Seq<char>,
    rest2: Seq<char>,
)
    requires
        w >= 1,
        n1 < pow10(w) && n2 < pow10(w),
        n1 < n2 || (n1 == n2 && text_before(rest1, rest2)),
    ensures
        text_before(sep + padded_decimal(n1, w) + rest1, sep + padded_decimal(n2, w) + rest2),
{
    if n1 < n2 {
        lemma_padded_order(n1, n2, w);
        lemma_text_before_within(sep, padded_decimal(n1, w), padded_decimal(n2, w), rest1, rest2);
    } else {
        lemma_text_before_after_prefix(sep + padded_decimal(n1, w), rest1, rest2);
    }
}

proof fn lemma_powers_of_ten()
    ensures
        pow10(2) == 100,
        pow10(4) == 10000,
{
    reveal_with_fuel(pow10, 5);
}

/// The tuple `(y1, m1, d1, h1, i1, e1)` comes before `(y2, m2, d2, h2, i2, e2)`
/// in lexicographic order.
spec fn fields_before(
    y1: nat,
    m1: nat,
    d1: nat,
    h1: nat,
    i1: nat,
    e1: nat,
    y2: nat,
    m2: nat,
    d2: nat,
    h2: nat,
    i2: nat,
    e2: nat,
) -> bool {
    ||| y1 < y2
    ||| y1 == y2 && m1 < m2
    ||| y1 == y2 && m1 == m2 && d1 < d2
    ||| y1 == y2 && m1 == m2 && d1 == d2 && h1 < h2
    ||| y1 == y2 && m1 == m2 && d1 == d2 && h1 == h2 && i1 < i2
    ||| y1 == y2 && m1 == m2 && d1 == d2 && h1 == h2 && i1 == i2 && e1 < e2
}

/// Fixed-width fields written from the largest down keep the order of the
/// field tuples.
proof fn lemma_fields_text_order(
    y1: nat,
    m1: nat,
    d1: nat,
    h1: nat,
    i1: nat,
    e1: nat,
    y2: nat,
    m2: nat,
    d2: nat,
    h2: nat,
    i2: nat,
    e2: nat,
)
    requires
        y1 < 10000 && y2 < 10000,
        m1 < 100 && m2 < 100 && d1 < 100 && d2 < 100,
        h1 < 100 && h2 < 100 && i1 < 100 && i2 < 100 && e1 < 100 && e2 < 100,
        fields_before(y1, m1, d1, h1, i1, e1, y2, m2, d2, h2, i2, e2),
    ensures
        text_before(fields_text(y1, m1, d1, h1, i1, e1), fields_text(y2, m2, d2, h2, i2, e2)),
{
    lemma_powers_of_ten();
    let z = seq!['Z'];
    let empty = Seq::<char>::empty();
    // from the seconds up to the year, each field decides or passes on
    let sec_before = e1 < e2;
    if sec_before {
        lemma_padded_order(e1, e2, 2);
        lemma_text_before_within(seq![':'], padded_decimal(e1, 2), padded_decimal(e2, 2), z, z);
    }
    let min_tie = i1 == i2 && sec_before;
    if i1 < i2 || min_tie {
        lemma_field_then_rest(seq![':'], i1, i2, 2, after_minute(e1), after_minute(e2));
    }
    let hour_tie = h1 == h2 && (i1 < i2 || min_tie);
    if h1 < h2 || hour_tie {
        lemma_field_then_rest(seq!['T'], h1, h2, 2, after_hour(i1, e1), after_hour(i2, e2));
    }
    let day_tie = d1 == d2 && (h1 < h2 || hour_tie);
    if d1 < d2 || day_tie {
        lemma_field_then_rest(seq!['-'], d1, d2, 2, after_day(h1, i1, e1), after_day(h2, i2, e2));
    }
    let month_tie = m1 == m2 && (d1 < d2 || day_tie);
    if m1 < m2 || month_tie {
        lemma_field_then_rest(
            seq!['-'],
            m1,
            m2,
            2,
            after_month(d1, h1, i1, e1),
            after_month(d2, h2, i2, e2),
        );
    }
    let year_tie = y1 == y2 && (m1 < m2 || month_tie);
    assert(y1 < y2 || year_tie);
    lemma_field_then_rest(
        empty,
        y1,
        y2,
        4,
        after_year(m1, d1, h1, i1, e1),
        after_year(m2, d2, h2, i2, e2),
    );
    assert(empty + padded_decimal(y1, 4) + after_year(m1, d1, h1, i1, e1) =~= fields_text(
        y1,
        m1,
        d1,
        h1,
        i1,
        e1,
    ));
    assert(empty + padded_decimal(y2, 4) + after_year(m2, d2, h2, i2, e2) =~= fields_text(
        y2,
        m2,
        d2,
        h2,
        i2,
        e2,
    ));
}

/// Timestamps are written in time order: before year 10000, a later second
/// has a text that sorts after the earlier one's, since every field has a fixed
/// width and the fields go from the year down to the second.
pub proof fn lemma_timestamps_in_time_order(s1: nat, s2: nat)
    requires
        s1 < s2 < YEAR_10000_SECONDS,
    ensures
        text_before(utc_text(s1), utc_text(s2)),
{
    let days1 = (s1 / 86400) as int;
    let days2 = (s2 / 86400) as int;
    let c1 = civil_date(days1);
    let c2 = civil_date(days2);
    lemma_civil_date_exists(days1);
    lemma_civil_date_exists(days2);
    lemma_days_before_year(10000);
    assert(days_before_year(10000) == 2932897);
    // both years have four digits
    assert(c1.0 < 10000) by {
        if c1.0 >= 10000 {
            lemma_date_within_year(c1.0, c1.1, c1.2);
            lemma_days_before_year_monotone(10000, c1.0);
        }
    }
    assert(c2.0 < 10000) by {
        if c2.0 >= 10000 {
            lemma_date_within_year(c2.0, c2.1, c2.2);
            lemma_days_before_year_monotone(10000, c2.0);
        }
    }
    let r1 = s1 % 86400;
    let r2 = s2 % 86400;
    if days1 < days2 {
        lemma_dates_in_order(c1.0, c1.1, c1.2, c2.0, c2.1, c2.2);
    } else {
        assert(days1 == days2 && r1 < r2);
        lemma_time_of_day_order(r1, r2);
    }
    lemma_utc_text_is_fields(s1);
    lemma_utc_text_is_fields(s2);
    lemma_fields_text_order(
        c1.0 as nat,
        c1.1 as nat,
        c1.2 as nat,
        r1 / 3600,
        (r1 % 3600) / 60,
        r1 % 60,
        c2.0 as nat,
        c2.1 as nat,
        c2.2 as nat,
        r2 / 3600,
        (r2 % 3600) / 60,
        r2 % 60,
    );
}

/// A later second of the day has a later hour, or the same hour and a later
/// minute, or the same minute and a later second.
proof fn lemma_time_of_day_order(r1: nat, r2: nat)
    requires
        r1 < r2 < 86400,
    ensures
        r1 / 3600 < r2 / 3600 || (r1 / 3600 == r2 / 3600 && ((r1 % 3600) / 60 < (r2 % 3600) / 60
            || ((r1 % 3600) / 60 == (r2 % 3600) / 60 && r1 % 60 < r2 % 60))),
        r2 / 3600 < 24,
{
}

/// Concatenation regrouped from the left to the right.
proof fn lemma_regroup(
    y: Seq<char>,
    m: Seq<char>,
    d: Seq<char>,
    h: Seq<char>,
    i: Seq<char>,
    e: Seq<char>,
)
    ensures
        y + seq!['-'] + m + seq!['-'] + d + seq!['T'] + h + seq![':'] + i + seq![':'] + e + seq![
            'Z',
        ] == y + (seq!['-'] + m + (seq!['-'] + d + (seq!['T'] + h + (seq![':'] + i + (seq![':']
            + e + seq!['Z']))))),
{
    let left = y + seq!['-'] + m + seq!['-'] + d + seq!['T'] + h + seq![':'] + i + seq![':'] + e
        + seq!['Z'];
    let right = y + (seq!['-'] + m + (seq!['-'] + d + (seq!['T'] + h + (seq![':'] + i + (seq![
        ':',
    ] + e + seq!['Z'])))));
    assert(left.len() == right.len());
    assert(left =~= right);
}

proof fn lemma_utc_text_is_fields(secs: nat)
    ensures
        ({
            let c = civil_date((secs / 86400) as int);
            let r = secs % 86400;
            utc_text(secs) == fields_text(
                c.0 as nat,
                c.1 as nat,
                c.2 as nat,
                r / 3600,
                (r % 3600) / 60,
                r % 60,
            )
        }),
{
    let c = civil_date((secs / 86400) as int);
    let r = secs % 86400;
    lemma_regroup(
        padded_decimal(c.0 as nat, 4),
        padded_decimal(c.1 as nat, 2),
        padded_decimal(c.2 as nat, 2),
        padded_decimal(r / 3600, 2),
        padded_decimal((r % 3600) / 60, 2),
        padded_decimal(r % 60, 2),
    );
}

/// The calendar date `(year, month, day)` of the day `days` after
/// 1970-01-01 (civil-from-days, Howard Hinnant's algorithm).
pub fn civil_from_days(days: u64) -> (date: (u64, u64, u64))
    requires
        days <= u64::MAX / SECONDS_PER_DAY,
    ensures
        is_valid_date(date.0 as int, date.1 as int, date.2 as int),
        day_number(date.0 as int, date.1 as int, date.2 as int) == days,
        (date.0 as int, date.1 as int, date.2 as int) == civil_date(days as int),
{
    let z = days + 719468;
    let era = z / 146097;
    let doe = z % 146097;
    assert(doe == z - era * 146097);
    let yoe = (doe - doe / 1460 + doe / 36524 - doe / 146096) / 365;
    proof {
        lemma_day_of_era_bounds(doe as int);
    }
    let doy = doe - (365 * yoe + yoe / 4 - yoe / 100);
    let mp = (5 * doy + 2) / 153;
    let d = doy - (153 * mp + 2) / 5 + 1;
    let m = if mp < 10 { mp + 3 } else { mp - 9 };
    let y = if m <= 2 { yoe + era * 400 + 1 } else { yoe + era * 400 };
    proof {
        lemma_civil_from_days(
            days as int,
            era as int,
            doe as int,
            yoe as int,
            doy as int,
            mp as int,
            d as int,
            m as int,
            y as int,
        );
        lemma_civil_date_is(y as int, m as int, d as int, days as int);
    }
    (y, m, d)
}

/// `secs` seconds after the Unix epoch, written `YYYY-MM-DDTHH:MM:SSZ`.
pub fn utc_timestamp(secs: u64) -> (text: String)
    ensures
        text@ == utc_text(secs as nat),
{
    let days = secs / SECONDS_PER_DAY;
    let rem = secs % SECONDS_PER_DAY;
    let (y, m, d) = civil_from_days(days);
    proof {
        reveal_strlit("-");
        reveal_strlit("T");
        reveal_strlit(":");
        reveal_strlit("Z");
    }
    let mut text = String::new();
    push_padded(&mut text, y, 4);
    text.append("-");
    push_padded(&mut text, m, 2);
    text.append("-");
    push_padded(&mut text, d, 2);
    text.append("T");
    push_padded(&mut text, rem / 3600, 2);
    text.append(":");
    push_padded(&mut text, (rem % 3600) / 60, 2);
    text.append(":");
    push_padded(&mut text, rem % 60, 2);
    text.append("Z");
    assert(text@ =~= utc_text(secs as nat));
    text
}

/// Reads the system clock: `std::time::SystemTime::now`. Nothing is stated of
/// the reading; it depends on the machine's clock.
#[verifier::external_body]
fn system_time_now() -> std::time::SystemTime {
    std::time::SystemTime::now()
}

/// The time elapsed from the Unix epoch to `t`:
/// `SystemTime::duration_since(UNIX_EPOCH)`, `None` where `t` is earlier than
/// the epoch. Nothing is stated of it: the reading it is taken from is opaque.
#[verifier::external_body]
fn elapsed_since_epoch(t: &std::time::SystemTime) -> Option<core::time::Duration> {
    match t.duration_since(std::time::UNIX_EPOCH) {
        Ok(elapsed) => Some(elapsed),
        Err(_) => None,
    }
}

/// The whole seconds of a duration: `Duration::as_secs`. Nothing is stated of
/// the value: a `Duration` is opaque here.
#[verifier::external_body]
fn whole_seconds(d: &core::time::Duration) -> u64 {
    d.as_secs()
}

/// The text of a clock reading in whole seconds since the epoch: a reading
/// before the epoch (`None`) is the epoch itself.
pub open spec fn reading_utc_text(reading: Option<u64>) -> Seq<char> {
    match reading {
        Some(secs) => utc_text(secs as nat),
        None => utc_text(0),
    }
}

/// A clock reading in whole seconds since the epoch (`None` for a clock set
/// before the epoch), as `YYYY-MM-DDTHH:MM:SSZ`. A clock before the epoch
/// reads as the epoch.
pub fn reading_text(reading: Option<u64>) -> (text: String)
    ensures
        text@ == reading_utc_text(reading),
{
    let secs = match reading {
        Some(secs) => secs,
        None => 0,
    };
    utc_timestamp(secs)
}

/// The time now, in UTC, `YYYY-MM-DDTHH:MM:SSZ`; seconds are plenty for an
/// evaluation timestamp. A clock set before the epoch reads as the epoch.
pub fn now_utc() -> (text: String)
    ensures
        exists|reading: Option<u64>| text@ == #[trigger] reading_utc_text(reading),
{
    let now = system_time_now();
    let reading = match elapsed_since_epoch(&now) {
        Some(elapsed) => Some(whole_seconds(&elapsed)),
        None => None,
    };
    let text = reading_text(reading);
    assert(text@ == reading_utc_text(reading));
    text
}

} // verus!
