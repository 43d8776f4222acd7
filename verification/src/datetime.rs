//! Calendar dates and second-precision local timestamps, as plain integers.

use vstd::prelude::*;

verus! {

/// A calendar date in the proleptic Gregorian calendar, year 0 through 9999.
#[derive(Clone, Copy, PartialEq, Eq, Structural, Debug)]
pub struct Date {
    pub year: u16,
    pub month: u8,
    pub day: u8,
}

impl Date {
    /// A valid calendar date: four-digit year, real month, real day of month.
    pub open spec fn wf(self) -> bool {
        self.year <= 9999 && 1 <= self.month <= 12 && 1 <= self.day
            && self.day as int <= spec_days_in_month(self.year as int, self.month as int)
    }
}

/// Leap years of the proleptic Gregorian calendar.
pub open spec fn spec_is_leap_year(y: int) -> bool {
    y % 4 == 0 && (y % 100 != 0 || y % 400 == 0)
}

/// The number of days of month `m` of year `y`.
pub open spec fn spec_days_in_month(y: int, m: int) -> int {
    if m == 2 {
        if spec_is_leap_year(y) {
            29
        } else {
            28
        }
    } else if m == 4 || m == 6 || m == 9 || m == 11 {
        30
    } else {
        31
    }
}

pub fn is_leap_year(y: u16) -> (r: bool)
    ensures
        r == spec_is_leap_year(y as int),
{
    y % 4 == 0 && (y % 100 != 0 || y % 400 == 0)
}

pub fn days_in_month(y: u16, m: u8) -> (r: u8)
    ensures
        r as int == spec_days_in_month(y as int, m as int),
{
    if m == 2 {
        if is_leap_year(y) {
            29
        } else {
            28
        }
    } else if m == 4 || m == 6 || m == 9 || m == 11 {
        30
    } else {
        31
    }
}

/// A local wall-clock timestamp at second precision, no time zone.
#[derive(Clone, Copy, PartialEq, Eq, Structural, Debug)]
pub struct Timestamp {
    pub date: Date,
    pub hour: u8,
    pub minute: u8,
    pub second: u8,
}

impl Timestamp {
    /// A valid timestamp: a valid date and in-range time-of-day fields.
    pub open spec fn wf(self) -> bool {
        self.date.wf() && self.hour <= 23 && self.minute <= 59 && self.second <= 59
    }
}

/// Strict chronological order on dates: lexicographic on (year, month, day).
pub open spec fn spec_date_lt(a: Date, b: Date) -> bool {
    a.year < b.year || (a.year == b.year && (a.month < b.month || (a.month == b.month
        && a.day < b.day)))
}

/// Strict chronological order on timestamps.
pub open spec fn spec_ts_lt(a: Timestamp, b: Timestamp) -> bool {
    spec_date_lt(a.date, b.date) || (a.date == b.date && (a.hour < b.hour || (a.hour == b.hour
        && (a.minute < b.minute || (a.minute == b.minute && a.second < b.second)))))
}

pub fn date_lt(a: &Date, b: &Date) -> (r: bool)
    ensures
        r == spec_date_lt(*a, *b),
{
    a.year < b.year || (a.year == b.year && (a.month < b.month || (a.month == b.month
        && a.day < b.day)))
}

pub fn ts_lt(a: &Timestamp, b: &Timestamp) -> (r: bool)
    ensures
        r == spec_ts_lt(*a, *b),
{
    date_lt(&a.date, &b.date) || (a.date == b.date && (a.hour < b.hour || (a.hour == b.hour
        && (a.minute < b.minute || (a.minute == b.minute && a.second < b.second)))))
}

/// The number of days of year `y`.
pub open spec fn spec_days_in_year(y: int) -> int {
    if spec_is_leap_year(y) {
        366
    } else {
        365
    }
}

/// Days from the first day of year 0 to the first day of year `y`.
pub open spec fn spec_days_before_year(y: int) -> int
    decreases y,
{
    if y <= 0 {
        0
    } else {
        spec_days_before_year(y - 1) + spec_days_in_year(y - 1)
    }
}

/// Days from the first day of month 1 of year `y` to the first day of month `m`.
pub open spec fn spec_days_before_month(y: int, m: int) -> int
    decreases m,
{
    if m <= 1 {
        0
    } else {
        spec_days_before_month(y, m - 1) + spec_days_in_month(y, m - 1)
    }
}

/// Days from year 0, January 1st, to the given date.
pub open spec fn spec_day_number(d: Date) -> int {
    spec_days_before_year(d.year as int) + spec_days_before_month(d.year as int, d.month as int)
        + d.day - 1
}

proof fn lemma_days_before_year_bound(y: int)
    requires
        0 <= y,
    ensures
        365 * y <= spec_days_before_year(y) <= 366 * y,
    decreases y,
{
    if y > 0 {
        lemma_days_before_year_bound(y - 1);
    }
}

proof fn lemma_days_before_month_bound(y: int, m: int)
    requires
        0 <= m <= 13,
    ensures
        0 <= spec_days_before_month(y, m) <= 31 * m,
    decreases m,
{
    if m > 0 {
        lemma_days_before_month_bound(y, m - 1);
    }
}

/// Later years begin on later day numbers.
pub proof fn lemma_days_before_year_monotone(y1: int, y2: int)
    requires
        y1 <= y2,
    ensures
        spec_days_before_year(y1) <= spec_days_before_year(y2),
    decreases y2 - y1,
{
    if y1 < y2 {
        lemma_days_before_year_monotone(y1, y2 - 1);
    }
}

/// Every day of a valid date falls before the first day of the next year.
pub proof fn lemma_day_number_in_year(d: Date)
    requires
        d.wf(),
    ensures
        spec_days_before_year(d.year as int) <= spec_day_number(d) < spec_days_before_year(
            d.year as int + 1),
{
    let y = d.year as int;
    assert forall|m: int| 1 <= m <= 12 implies spec_days_before_month(y, m)
        + spec_days_in_month(y, m) <= spec_days_in_year(y) by {
        lemma_months_fill_year(y, m);
    }
    lemma_days_before_month_bound(y, d.month as int);
}

proof fn lemma_months_fill_year(y: int, m: int)
    requires
        1 <= m <= 12,
    ensures
        spec_days_before_month(y, m) + spec_days_in_month(y, m) <= spec_days_in_year(y),
    decreases 12 - m,
{
    if m < 12 {
        lemma_months_fill_year(y, m + 1);
    } else {
        lemma_year_days(y);
    }
}

/// The twelve months of a year together hold exactly its days.
proof fn lemma_year_days(y: int)
    ensures
        spec_days_before_month(y, 12) + spec_days_in_month(y, 12) == spec_days_in_year(y),
{
    assert(spec_days_before_month(y, 12) + spec_days_in_month(y, 12) == spec_days_in_year(
        y)) by {
        reveal_with_fuel(spec_days_before_month, 14);
    }
}

pub fn days_in_year(y: u16) -> (r: u16)
    ensures
        r as int == spec_days_in_year(y as int),
{
    if is_leap_year(y) {
        366
    } else {
        365
    }
}

/// Days from year 0, January 1st, to the given date, as a machine integer.
pub fn day_number(d: &Date) -> (r: u32)
    requires
        d.wf(),
    ensures
        r as int == spec_day_number(*d),
{
    let mut acc: u32 = 0;
    let mut y: u16 = 0;
    while y < d.year
        invariant
            y <= d.year,
            d.wf(),
            acc as int == spec_days_before_year(y as int),
            acc <= 366 * (y as u32),
        decreases d.year - y,
    {
        acc = acc + days_in_year(y) as u32;
        y = y + 1;
    }
    proof {
        lemma_days_before_year_bound(d.year as int);
    }
    let mut m: u8 = 1;
    while m < d.month
        invariant
            1 <= m <= d.month,
            d.wf(),
            acc as int == spec_days_before_year(d.year as int) + spec_days_before_month(
                d.year as int, m as int),
            acc <= 366 * (d.year as u32) + 31 * (m as u32),
        decreases d.month - m,
    {
        acc = acc + days_in_month(d.year, m) as u32;
        m = m + 1;
    }
    acc + (d.day - 1) as u32
}

/// The valid date lying the given number of days after year 0, January 1st.
pub fn date_of_day_number(n: u32) -> (r: Date)
    requires
        n < spec_days_before_year(10000),
    ensures
        r.wf(),
        spec_day_number(r) == n,
{
    proof {
        lemma_days_before_year_bound(10000);
    }
    let mut acc: u32 = 0;
    let mut y: u16 = 0;
    while acc + days_in_year(y) as u32 <= n
        invariant
            y <= 9999,
            acc as int == spec_days_before_year(y as int),
            acc <= n,
            n < spec_days_before_year(10000),
            n < 3660000,
            365 * (y as int) <= acc,
        decreases n - acc,
    {
        proof {
            if y == 9999 {
                assert(spec_days_before_year(10000) == spec_days_before_year(9999)
                    + spec_days_in_year(9999));
            }
            lemma_days_before_year_bound(y as int + 1);
        }
        acc = acc + days_in_year(y) as u32;
        y = y + 1;
    }
    let mut m: u8 = 1;
    while m < 12 && acc + days_in_month(y, m) as u32 <= n
        invariant
            1 <= m <= 12,
            y <= 9999,
            acc as int == spec_days_before_year(y as int) + spec_days_before_month(
                y as int, m as int),
            acc <= n,
            n < 3660000,
            n < spec_days_before_year(y as int) + spec_days_in_year(y as int),
        decreases 12 - m,
    {
        proof {
            lemma_days_before_month_bound(y as int, m as int + 1);
            lemma_days_before_year_bound(y as int);
        }
        acc = acc + days_in_month(y, m) as u32;
        m = m + 1;
    }
    proof {
        if m == 12 {
            lemma_year_days(y as int);
        }
        lemma_days_before_month_bound(y as int, m as int);
        lemma_days_before_year_bound(y as int);
    }
    let day: u32 = n - acc + 1;
    assert(1 <= day <= 31);
    Date { year: y, month: m, day: day as u8 }
}

/// The day of the week as a number from 0 to 6, with 0 standing for Saturday
/// and 6 for Friday (year 0 began on a Saturday).
pub open spec fn spec_weekday(d: Date) -> int {
    spec_day_number(d) % 7
}

pub fn weekday(d: &Date) -> (r: u8)
    requires
        d.wf(),
    ensures
        r as int == spec_weekday(*d),
{
    (day_number(d) % 7) as u8
}

/// Seconds from year 0, January 1st, 00:00:00, to the given timestamp.
pub open spec fn spec_total_seconds(t: Timestamp) -> int {
    spec_day_number(t.date) * 86400 + t.hour * 3600 + t.minute * 60 + t.second
}

proof fn lemma_days_before_month_monotone(y: int, m1: int, m2: int)
    requires
        m1 <= m2,
    ensures
        spec_days_before_month(y, m1) <= spec_days_before_month(y, m2),
    decreases m2 - m1,
{
    if m1 < m2 {
        lemma_days_before_month_monotone(y, m1, m2 - 1);
    }
}

/// Earlier dates have smaller day numbers.
pub proof fn lemma_date_order_day_number(a: Date, b: Date)
    requires
        a.wf(),
        b.wf(),
        spec_date_lt(a, b),
    ensures
        spec_day_number(a) < spec_day_number(b),
{
    if a.year < b.year {
        lemma_day_number_in_year(a);
        lemma_day_number_in_year(b);
        lemma_days_before_year_monotone(a.year as int + 1, b.year as int);
    } else if a.month < b.month {
        lemma_days_before_month_monotone(a.year as int, a.month as int + 1, b.month as int);
        lemma_days_before_month_bound(a.year as int, a.month as int);
    }
}

/// The order on timestamps is the chronological one: a timestamp lies
/// strictly before another exactly when its total seconds are fewer.
pub proof fn lemma_ts_order_seconds(a: Timestamp, b: Timestamp)
    requires
        a.wf(),
        b.wf(),
    ensures
        spec_ts_lt(a, b) <==> spec_total_seconds(a) < spec_total_seconds(b),
{
    if spec_ts_lt(a, b) {
        if spec_date_lt(a.date, b.date) {
            lemma_date_order_day_number(a.date, b.date);
        }
    }
    if spec_ts_lt(b, a) {
        if spec_date_lt(b.date, a.date) {
            lemma_date_order_day_number(b.date, a.date);
        }
    }
    if !spec_ts_lt(a, b) && !spec_ts_lt(b, a) {
        assert(a == b);
    }
}

/// Seconds of a valid timestamp stay well below `2^39`.
pub proof fn lemma_total_seconds_bound(t: Timestamp)
    requires
        t.wf(),
    ensures
        0 <= spec_total_seconds(t) <= 320_000_000_000,
{
    lemma_day_number_in_year(t.date);
    lemma_days_before_year_monotone(t.date.year as int + 1, 10000);
    lemma_days_before_year_bound(10000);
    lemma_days_before_year_bound(t.date.year as int);
    lemma_days_before_month_bound(t.date.year as int, t.date.month as int);
}

pub fn total_seconds(t: &Timestamp) -> (r: u64)
    requires
        t.wf(),
    ensures
        r as int == spec_total_seconds(*t),
{
    proof {
        lemma_days_before_year_bound(t.date.year as int);
        lemma_days_before_month_bound(t.date.year as int, t.date.month as int);
    }
    day_number(&t.date) as u64 * 86400 + t.hour as u64 * 3600 + t.minute as u64 * 60
        + t.second as u64
}

/// The decimal digit character for a value 0 through 9.
pub open spec fn digit_char(d: int) -> char {
    if d == 0 {
        '0'
    } else if d == 1 {
        '1'
    } else if d == 2 {
        '2'
    } else if d == 3 {
        '3'
    } else if d == 4 {
        '4'
    } else if d == 5 {
        '5'
    } else if d == 6 {
        '6'
    } else if d == 7 {
        '7'
    } else if d == 8 {
        '8'
    } else {
        '9'
    }
}

/// The value of a decimal digit character.
pub open spec fn digit_val(c: char) -> int {
    c as int - 48
}

pub open spec fn is_digit(c: char) -> bool {
    48 <= c as int <= 57
}

proof fn digit_round_trip(d: int)
    requires
        0 <= d <= 9,
    ensures
        is_digit(digit_char(d)),
        digit_val(digit_char(d)) == d,
{
}

/// The fixed timestamp text pattern: a four-digit year, two-digit month, day,
/// hour, minute and second, as in `2023-04-01T09:00:00`.
pub open spec fn spec_ts_chars(t: Timestamp) -> Seq<char> {
    seq![
        digit_char(t.date.year as int / 1000),
        digit_char(t.date.year as int / 100 % 10),
        digit_char(t.date.year as int / 10 % 10),
        digit_char(t.date.year as int % 10),
        '-',
        digit_char(t.date.month as int / 10),
        digit_char(t.date.month as int % 10),
        '-',
        digit_char(t.date.day as int / 10),
        digit_char(t.date.day as int % 10),
        'T',
        digit_char(t.hour as int / 10),
        digit_char(t.hour as int % 10),
        ':',
        digit_char(t.minute as int / 10),
        digit_char(t.minute as int % 10),
        ':',
        digit_char(t.second as int / 10),
        digit_char(t.second as int % 10),
    ]
}

/// The timestamp denoted by `s` in the fixed pattern, or `None` when `s` does
/// not follow the pattern or does not name a valid date and time.
pub open spec fn spec_parse_ts(s: Seq<char>) -> Option<Timestamp> {
    if s.len() == 19 && is_digit(s[0]) && is_digit(s[1]) && is_digit(s[2]) && is_digit(s[3])
        && s[4] == '-' && is_digit(s[5]) && is_digit(s[6]) && s[7] == '-' && is_digit(s[8])
        && is_digit(s[9]) && s[10] == 'T' && is_digit(s[11]) && is_digit(s[12]) && s[13] == ':'
        && is_digit(s[14]) && is_digit(s[15]) && s[16] == ':' && is_digit(s[17]) && is_digit(
        s[18]) {
        let t = Timestamp {
            date: Date {
                year: (digit_val(s[0]) * 1000 + digit_val(s[1]) * 100 + digit_val(s[2]) * 10
                    + digit_val(s[3])) as u16,
                month: (digit_val(s[5]) * 10 + digit_val(s[6])) as u8,
                day: (digit_val(s[8]) * 10 + digit_val(s[9])) as u8,
            },
            hour: (digit_val(s[11]) * 10 + digit_val(s[12])) as u8,
            minute: (digit_val(s[14]) * 10 + digit_val(s[15])) as u8,
            second: (digit_val(s[17]) * 10 + digit_val(s[18])) as u8,
        };
        if t.wf() {
            Some(t)
        } else {
            None
        }
    } else {
        None
    }
}

fn digit_value(c: char) -> (r: u32)
    requires
        is_digit(c),
    ensures
        r as int == digit_val(c),
{
    (c as u32) - 48
}

fn check_digit(c: char) -> (r: bool)
    ensures
        r == is_digit(c),
{
    let u = c as u32;
    48 <= u && u <= 57
}

/// Parses a character sequence in the fixed timestamp pattern.
pub fn parse_ts(v: &Vec<char>) -> (r: Option<Timestamp>)
    ensures
        r == spec_parse_ts(v@),
{
    if v.len() != 19 {
        return None;
    }
    let mut k: usize = 0;
    while k < 19
        invariant
            k <= 19,
            v@.len() == 19,
            forall|j: int| 0 <= j < k ==> #[trigger] pattern_ok(v@, j),
        decreases 19 - k,
    {
        let ok = if k == 4 || k == 7 {
            v[k] == '-'
        } else if k == 10 {
            v[k] == 'T'
        } else if k == 13 || k == 16 {
            v[k] == ':'
        } else {
            check_digit(v[k])
        };
        if !ok {
            return None;
        }
        proof {
            assert(pattern_ok(v@, k as int));
        }
        k = k + 1;
    }
    proof {
        assert(pattern_ok(v@, 0) && pattern_ok(v@, 1) && pattern_ok(v@, 2) && pattern_ok(v@, 3)
            && pattern_ok(v@, 4) && pattern_ok(v@, 5) && pattern_ok(v@, 6) && pattern_ok(v@, 7)
            && pattern_ok(v@, 8) && pattern_ok(v@, 9) && pattern_ok(v@, 10) && pattern_ok(v@, 11)
            && pattern_ok(v@, 12) && pattern_ok(v@, 13) && pattern_ok(v@, 14) && pattern_ok(
            v@, 15) && pattern_ok(v@, 16) && pattern_ok(v@, 17) && pattern_ok(v@, 18));
    }
    let year = (digit_value(v[0]) * 1000 + digit_value(v[1]) * 100 + digit_value(v[2]) * 10
        + digit_value(v[3])) as u16;
    let month = (digit_value(v[5]) * 10 + digit_value(v[6])) as u8;
    let day = (digit_value(v[8]) * 10 + digit_value(v[9])) as u8;
    let hour = (digit_value(v[11]) * 10 + digit_value(v[12])) as u8;
    let minute = (digit_value(v[14]) * 10 + digit_value(v[15])) as u8;
    let second = (digit_value(v[17]) * 10 + digit_value(v[18])) as u8;
    let t = Timestamp { date: Date { year, month, day }, hour, minute, second };
    if 1 <= month && month <= 12 && 1 <= day && day <= days_in_month(year, month) && hour <= 23
        && minute <= 59 && second <= 59 {
        Some(t)
    } else {
        None
    }
}

/// The decimal digit `d` as a one-character string.
fn digit_str(d: u32) -> (r: &'static str)
    requires
        d <= 9,
    ensures
        r@ =~= seq![digit_char(d as int)],
{
    proof {
        reveal_strlit("0");
        reveal_strlit("1");
        reveal_strlit("2");
        reveal_strlit("3");
        reveal_strlit("4");
        reveal_strlit("5");
        reveal_strlit("6");
        reveal_strlit("7");
        reveal_strlit("8");
        reveal_strlit("9");
    }
    if d == 0 {
        "0"
    } else if d == 1 {
        "1"
    } else if d == 2 {
        "2"
    } else if d == 3 {
        "3"
    } else if d == 4 {
        "4"
    } else if d == 5 {
        "5"
    } else if d == 6 {
        "6"
    } else if d == 7 {
        "7"
    } else if d == 8 {
        "8"
    } else {
        "9"
    }
}

/// Appends a value below 100 as exactly two decimal digits.
fn append_two_digits(s: &mut String, x: u32)
    requires
        x <= 99,
    ensures
        final(s)@ == old(s)@ + seq![digit_char(x as int / 10), digit_char(x as int % 10)],
{
    s.append(digit_str(x / 10));
    s.append(digit_str(x % 10));
}

/// Writes a timestamp in the fixed pattern, as in `2023-04-01T09:00:00`.
pub fn format_ts(t: &Timestamp) -> (r: String)
    requires
        t.wf(),
    ensures
        r@ == spec_ts_chars(*t),
{
    proof {
        reveal_strlit("-");
        reveal_strlit("T");
        reveal_strlit(":");
    }
    let mut s = String::new();
    let y = t.date.year as u32;
    s.append(digit_str(y / 1000));
    s.append(digit_str(y / 100 % 10));
    s.append(digit_str(y / 10 % 10));
    s.append(digit_str(y % 10));
    s.append("-");
    append_two_digits(&mut s, t.date.month as u32);
    s.append("-");
    append_two_digits(&mut s, t.date.day as u32);
    s.append("T");
    append_two_digits(&mut s, t.hour as u32);
    s.append(":");
    append_two_digits(&mut s, t.minute as u32);
    s.append(":");
    append_two_digits(&mut s, t.second as u32);
    proof {
        assert(s@ =~= spec_ts_chars(*t));
    }
    s
}

proof fn lemma_two_digits(x: int)
    requires
        0 <= x <= 99,
    ensures
        (x / 10) * 10 + x % 10 == x,
{
    assert((x / 10) * 10 + x % 10 == x) by (nonlinear_arith)
        requires
            0 <= x <= 99,
    ;
}

proof fn lemma_four_digits(y: int)
    requires
        0 <= y <= 9999,
    ensures
        (y / 1000) * 1000 + (y / 100 % 10) * 100 + (y / 10 % 10) * 10 + y % 10 == y,
{
    assert((y / 1000) * 1000 + (y / 100 % 10) * 100 + (y / 10 % 10) * 10 + y % 10 == y)
        by (nonlinear_arith)
        requires
            0 <= y <= 9999,
    ;
}

/// Writing a valid timestamp and reading it back yields the same timestamp.
pub proof fn lemma_ts_round_trip(t: Timestamp)
    requires
        t.wf(),
    ensures
        spec_parse_ts(spec_ts_chars(t)) == Some(t),
{
    let s = spec_ts_chars(t);
    let y = t.date.year as int;
    let mo = t.date.month as int;
    let d = t.date.day as int;
    let h = t.hour as int;
    let mi = t.minute as int;
    let sec = t.second as int;
    digit_round_trip(y / 1000);
    digit_round_trip(y / 100 % 10);
    digit_round_trip(y / 10 % 10);
    digit_round_trip(y % 10);
    digit_round_trip(mo / 10);
    digit_round_trip(mo % 10);
    digit_round_trip(d / 10);
    digit_round_trip(d % 10);
    digit_round_trip(h / 10);
    digit_round_trip(h % 10);
    digit_round_trip(mi / 10);
    digit_round_trip(mi % 10);
    digit_round_trip(sec / 10);
    digit_round_trip(sec % 10);
    lemma_four_digits(y);
    lemma_two_digits(mo);
    lemma_two_digits(d);
    lemma_two_digits(h);
    lemma_two_digits(mi);
    lemma_two_digits(sec);
    assert(spec_parse_ts(s) == Some(t));
}

/// The date denoted by `s` in the fixed pattern `YYYY-MM-DD`, or `None` when
/// `s` does not follow the pattern or does not name a valid calendar date.
pub open spec fn spec_parse_date(s: Seq<char>) -> Option<Date> {
    if s.len() == 10 && is_digit(s[0]) && is_digit(s[1]) && is_digit(s[2]) && is_digit(s[3])
        && s[4] == '-' && is_digit(s[5]) && is_digit(s[6]) && s[7] == '-' && is_digit(s[8])
        && is_digit(s[9]) {
        let d = Date {
            year: (digit_val(s[0]) * 1000 + digit_val(s[1]) * 100 + digit_val(s[2]) * 10
                + digit_val(s[3])) as u16,
            month: (digit_val(s[5]) * 10 + digit_val(s[6])) as u8,
            day: (digit_val(s[8]) * 10 + digit_val(s[9])) as u8,
        };
        if d.wf() {
            Some(d)
        } else {
            None
        }
    } else {
        None
    }
}

/// Parses a character sequence in the fixed calendar-date pattern.
pub fn parse_date(v: &Vec<char>) -> (r: Option<Date>)
    ensures
        r == spec_parse_date(v@),
{
    if v.len() != 10 {
        return None;
    }
    let d0 = check_digit(v[0]);
    let d1 = check_digit(v[1]);
    let d2 = check_digit(v[2]);
    let d3 = check_digit(v[3]);
    let s4 = v[4] == '-';
    let d5 = check_digit(v[5]);
    let d6 = check_digit(v[6]);
    let s7 = v[7] == '-';
    let d8 = check_digit(v[8]);
    let d9 = check_digit(v[9]);
    if !(d0 && d1 && d2 && d3 && s4 && d5 && d6 && s7 && d8 && d9) {
        return None;
    }
    let year = (digit_value(v[0]) * 1000 + digit_value(v[1]) * 100 + digit_value(v[2]) * 10
        + digit_value(v[3])) as u16;
    let month = (digit_value(v[5]) * 10 + digit_value(v[6])) as u8;
    let day = (digit_value(v[8]) * 10 + digit_value(v[9])) as u8;
    let d = Date { year, month, day };
    if 1 <= month && month <= 12 && 1 <= day && day <= days_in_month(year, month) {
        Some(d)
    } else {
        None
    }
}

/// Position `j` of `s` fits the fixed timestamp pattern.
pub open spec fn pattern_ok(s: Seq<char>, j: int) -> bool {
    if j == 4 || j == 7 {
        s[j] == '-'
    } else if j == 10 {
        s[j] == 'T'
    } else if j == 13 || j == 16 {
        s[j] == ':'
    } else {
        is_digit(s[j])
    }
}

} // verus!
