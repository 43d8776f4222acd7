use chrono::Datelike;
use diary::datetime::{Date, Timestamp, parse_ts, parse_date, format_ts, day_number,
    date_of_day_number, weekday, total_seconds, ts_lt};
use diary::date_parse::input;
use diary::clock::{now_timestamp, timestamp_of_reading, today, ClockReading};
use diary::text::{chars_of, trim_chars, contains_str};

fn d(y: u16, m: u8, day: u8) -> Date {
    Date { year: y, month: m, day }
}

fn ts(y: u16, mo: u8, day: u8, h: u8, mi: u8, s: u8) -> Timestamp {
    Timestamp { date: d(y, mo, day), hour: h, minute: mi, second: s }
}

#[test]
fn timestamp_parse_exact() {
    let v = chars_of("2023-04-01T09:05:07");
    assert_eq!(parse_ts(&v), Some(ts(2023, 4, 1, 9, 5, 7)));
}

#[test]
fn timestamp_parse_rejects_bad_shapes() {
    for s in [
        "2023-04-01 09:05:07",
        "2023-4-01T09:05:07",
        "2023-04-01T09:05",
        "2023-13-01T09:05:07",
        "2023-02-29T09:05:07",
        "2023-04-01T24:05:07",
        "2023-04-01T09:60:07",
        "",
    ] {
        assert_eq!(parse_ts(&chars_of(s)), None, "{}", s);
    }
}

#[test]
fn leap_year_february_parses() {
    let v = chars_of("2024-02-29T00:00:00");
    assert_eq!(parse_ts(&v), Some(ts(2024, 2, 29, 0, 0, 0)));
}

#[test]
fn format_round_trips_and_matches_chrono() {
    let t = ts(2023, 4, 1, 9, 5, 7);
    let s = format_ts(&t);
    assert_eq!(s, "2023-04-01T09:05:07");
    assert_eq!(parse_ts(&chars_of(&s)), Some(t));
    let c = chrono::NaiveDateTime::parse_from_str(&s, "%Y-%m-%dT%H:%M:%S").unwrap();
    assert_eq!(c.format("%Y-%m-%dT%H:%M:%S").to_string(), s);
}

#[test]
fn day_numbers_invert_and_match_chrono_ordering() {
    let a = d(2023, 4, 1);
    let n = day_number(&a);
    assert_eq!(date_of_day_number(n), a);
    assert_eq!(date_of_day_number(n + 1), d(2023, 4, 2));
    assert_eq!(date_of_day_number(n - 1), d(2023, 3, 31));
    // chrono agrees on day counts between two dates.
    let c1 = chrono::NaiveDate::from_ymd_opt(2023, 4, 1).unwrap();
    let c2 = chrono::NaiveDate::from_ymd_opt(2021, 11, 15).unwrap();
    let gap = (c1 - c2).num_days() as u32;
    assert_eq!(day_number(&d(2021, 11, 15)) + gap, n);
}

#[test]
fn weekday_matches_chrono() {
    // Weekday numbers count from Saturday = 0, so Friday = 6.
    for (date, expected) in [
        (d(2023, 4, 7), 6u8),  // a Friday
        (d(2023, 4, 8), 0),    // a Saturday
        (d(2023, 4, 9), 1),    // a Sunday
        (d(2026, 10, 12), 2),  // a Monday
    ] {
        assert_eq!(weekday(&date), expected);
        let c = chrono::NaiveDate::from_ymd_opt(
            date.year as i32,
            date.month as u32,
            date.day as u32,
        )
        .unwrap();
        let is_friday = c.weekday() == chrono::Weekday::Fri;
        assert_eq!(is_friday, weekday(&date) == 6);
    }
}

#[test]
fn total_seconds_differences() {
    let a = ts(2023, 4, 1, 9, 0, 0);
    let b = ts(2023, 4, 1, 10, 30, 15);
    assert_eq!(total_seconds(&b) - total_seconds(&a), 5415);
    let c = ts(2023, 4, 2, 9, 0, 0);
    assert_eq!(total_seconds(&c) - total_seconds(&a), 86400);
}

#[test]
fn timestamp_order_is_chronological() {
    assert!(ts_lt(&ts(2023, 3, 31, 23, 59, 59), &ts(2023, 4, 1, 0, 0, 0)));
    assert!(!ts_lt(&ts(2023, 4, 1, 0, 0, 0), &ts(2023, 4, 1, 0, 0, 0)));
}

#[test]
fn input_parses_iso_dates() {
    let today = d(2023, 4, 20);
    assert_eq!(input("2020-01-01", today), Ok(d(2020, 1, 1)));
    assert_eq!(input("2024-02-29", today), Ok(d(2024, 2, 29)));
    assert!(input("2023-02-29", today).is_err());
}

#[test]
fn input_resolves_keywords() {
    let today = d(2023, 4, 20);
    assert_eq!(input("today", today), Ok(today));
    assert_eq!(input("yesterday", today), Ok(d(2023, 4, 19)));
    assert_eq!(input("month", today), Ok(d(2023, 4, 1)));
    // Crossing a month edge.
    assert_eq!(input("yesterday", d(2023, 5, 1)), Ok(d(2023, 4, 30)));
}

#[test]
fn biweekly_boundaries() {
    assert_eq!(input("biweekly", d(2023, 4, 20)), Ok(d(2023, 4, 15)));
    assert_eq!(input("biweekly", d(2023, 4, 10)), Ok(d(2023, 4, 1)));
    assert_eq!(input("biweekly", d(2023, 4, 15)), Ok(d(2023, 4, 15)));
    assert_eq!(input("biweekly", d(2023, 4, 14)), Ok(d(2023, 4, 1)));
}

#[test]
fn friday_resolves_to_most_recent() {
    // 2023-04-20 is a Thursday; the most recent Friday is the 14th.
    assert_eq!(input("friday", d(2023, 4, 20)), Ok(d(2023, 4, 14)));
    // On a Friday, it is the day itself.
    assert_eq!(input("friday", d(2023, 4, 14)), Ok(d(2023, 4, 14)));
    // The day after a Friday.
    assert_eq!(input("friday", d(2023, 4, 15)), Ok(d(2023, 4, 14)));
}

#[test]
fn friday_crosses_month_edges() {
    // 2023-04-01 is a Saturday; the most recent Friday is March 31st.
    assert_eq!(input("friday", d(2023, 4, 1)), Ok(d(2023, 3, 31)));
}

#[test]
fn century_leap_rules() {
    // 1900 is no leap year, 2000 is.
    assert_eq!(parse_ts(&chars_of("1900-02-29T00:00:00")), None);
    assert_eq!(parse_ts(&chars_of("2000-02-29T00:00:00")), Some(ts(2000, 2, 29, 0, 0, 0)));
    let before = d(2000, 2, 28);
    let n = day_number(&before);
    assert_eq!(date_of_day_number(n + 1), d(2000, 2, 29));
    assert_eq!(date_of_day_number(n + 2), d(2000, 3, 1));
    let before_1900 = d(1900, 2, 28);
    let m = day_number(&before_1900);
    assert_eq!(date_of_day_number(m + 1), d(1900, 3, 1));
}

#[test]
fn unknown_tokens_are_errors() {
    let today = d(2023, 4, 20);
    let e = input("someday", today).unwrap_err();
    assert_eq!(e, "Can't format input as date: someday");
}

#[test]
fn clock_agrees_with_chrono() {
    let t = now_timestamp().expect("clock in range");
    let today_date = today().expect("clock in range");
    assert_eq!(t.date, today_date);
    let c = chrono::Local::now().naive_local();
    // Read in the same moment up to a comfortable margin: the dates can
    // differ only across midnight.
    let c_date = d(c.year() as u16, c.month() as u8, c.day() as u8);
    let dn = day_number(&c_date);
    let got = day_number(&today_date);
    assert!(got == dn || got + 1 == dn || dn + 1 == got);
}

#[test]
fn clock_readings_validate_exactly() {
    let good = ClockReading { year: 2023, month: 4, day: 30, hour: 23, minute: 59, second: 59 };
    assert_eq!(timestamp_of_reading(&good), Some(ts(2023, 4, 30, 23, 59, 59)));
    for bad in [
        ClockReading { year: -1, ..good },
        ClockReading { year: 10000, ..good },
        ClockReading { month: 0, ..good },
        ClockReading { month: 13, ..good },
        ClockReading { day: 0, ..good },
        ClockReading { day: 31, ..good },
        ClockReading { hour: 24, ..good },
        ClockReading { minute: 60, ..good },
        ClockReading { second: 60, ..good },
    ] {
        assert_eq!(timestamp_of_reading(&bad), None);
    }
    // A leap day is in range only in a leap year.
    let leap = ClockReading { year: 2024, month: 2, day: 29, hour: 0, minute: 0, second: 0 };
    assert_eq!(timestamp_of_reading(&leap), Some(ts(2024, 2, 29, 0, 0, 0)));
    let not_leap = ClockReading { year: 2023, ..leap };
    assert_eq!(timestamp_of_reading(&not_leap), None);
}

#[test]
fn trim_and_contains_behave() {
    let v = chars_of("  abc \t");
    let t = trim_chars(&v);
    let s: String = t.into_iter().collect();
    assert_eq!(s, "abc");
    assert!(contains_str("work/PROJ-1.md", "PROJ"));
    assert!(contains_str("anything", ""));
    assert!(!contains_str("short", "longer than the text"));
}

#[test]
fn date_parse_rejects_bad_calendar_dates() {
    assert_eq!(parse_date(&chars_of("2023-04-31")), None);
    assert_eq!(parse_date(&chars_of("2023-00-10")), None);
    assert_eq!(parse_date(&chars_of("23-04-01")), None);
    assert_eq!(parse_date(&chars_of("2023-04-01")), Some(d(2023, 4, 1)));
}
