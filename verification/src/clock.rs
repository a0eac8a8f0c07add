use vstd::prelude::*;
use chrono::{Datelike, Timelike, TimeZone};
use crate::days::{stamp_in_range, LocalStamp};
use crate::text::{decimal, decimal_chars, digit_char, digit_of, lemma_digit_char_order, lemma_lex_common_start, lemma_lex_first_difference, lemma_lex_same_length, lex_less};

verus! {

/// Days from 1970-01-01 to the day `(y, m, d)` of the proleptic Gregorian
/// calendar (negative before it).
pub open spec fn days_from_civil(y: int, m: int, d: int) -> int {
    let yy = if m <= 2 { y - 1 } else { y };
    let era = yy / 400;
    let yoe = yy - era * 400;
    let mp = if m > 2 { m - 3 } else { m + 9 };
    let doy = (153 * mp + 2) / 5 + d - 1;
    let doe = yoe * 365 + yoe / 4 - yoe / 100 + doy;
    era * 146097 + doe - 719468
}

/// The seconds from 1970-01-01T00:00 to the start of a stamp's hour, on the
/// stamp's own clock.
pub open spec fn stamp_seconds(st: LocalStamp) -> int {
    days_from_civil(st.year as int, st.month as int, st.day as int) * 86400 + st.hour * 3600
}

/// A local stamp lies within a day of the moment `t` (seconds since the Unix
/// epoch): a time zone's offset is under a day, and the stamp drops the
/// minutes and seconds of the local time.
pub open spec fn near_moment(st: LocalStamp, t: int) -> bool {
    t - 90000 < stamp_seconds(st) && stamp_seconds(st) < t + 86400
}

/// The moment that chrono's `DateTime::parse_from_rfc3339` reads from the
/// text, in whole seconds since the Unix epoch (`timestamp`); `None` when it
/// refuses the text.
pub uninterp spec fn rfc3339_moment(s: Seq<char>) -> Option<int>;

/// The date and time that chrono's `NaiveDateTime::parse_from_str` reads
/// from the text in the format, as whole seconds since 1970-01-01T00:00
/// (`and_utc().timestamp()`); `None` when it refuses the text.
pub uninterp spec fn naive_moment(s: Seq<char>, fmt: Seq<char>) -> Option<int>;

/// chrono's `DateTime::parse_from_rfc3339`, the instant then moved into
/// the machine's time zone (`DateTime::with_timezone(&Local)`) and read as
/// `Datelike::{year, month, day}` and `Timelike::hour`. The parsed value
/// has a time-zone type parameter and does not leave this item. What is
/// read depends on the text alone and is named; the local fields depend on
/// the machine's time zone, so what is stated of them is what holds of any
/// zone: chrono's documented ranges (month 1 to 12, day 1 to 31, hour 0 to
/// 23), and that a `FixedOffset` is under a day, so the local hour lies
/// within a day of the instant read.
#[verifier::external_body]
fn parse_rfc3339_local(s: &str) -> (r: Option<LocalStamp>)
    ensures
        r is Some <==> rfc3339_moment(s@) is Some,
        r matches Some(st) ==> stamp_in_range(st) && near_moment(st, rfc3339_moment(s@)->0),
{
    chrono::DateTime::parse_from_rfc3339(s).ok().map(|dt| dt.with_timezone(&chrono::Local)).map(|dt| {
        LocalStamp { year: dt.year(), month: dt.month(), day: dt.day(), hour: dt.hour() }
    })
}

/// chrono's `NaiveDateTime::parse_from_str`, the date and time then read
/// as UTC (`TimeZone::from_utc_datetime` for `Utc`), moved into the
/// machine's time zone (`DateTime::with_timezone(&Local)`) and read as
/// `Datelike::{year, month, day}` and `Timelike::hour`. What is read
/// depends on the text and the format alone and is named; of the local
/// fields, as above, only the ranges and the nearness to that moment are
/// stated.
#[verifier::external_body]
fn parse_naive_utc_local(s: &str, fmt: &str) -> (r: Option<LocalStamp>)
    ensures
        r is Some <==> naive_moment(s@, fmt@) is Some,
        r matches Some(st) ==> stamp_in_range(st) && near_moment(st, naive_moment(s@, fmt@)->0),
{
    chrono::NaiveDateTime::parse_from_str(s, fmt).ok().map(|n| chrono::Utc.from_utc_datetime(&n).with_timezone(&chrono::Local)).map(|dt| {
        LocalStamp { year: dt.year(), month: dt.month(), day: dt.day(), hour: dt.hour() }
    })
}

/// The timestamp format of the forecast service: a date and a time to the
/// minute, without an offset.
pub open spec fn service_format() -> Seq<char> {
    "%Y-%m-%dT%H:%M"@
}

/// The moment a forecast timestamp names: read as RFC 3339 with its offset
/// when that parses, otherwise as a UTC date and time to the minute.
pub open spec fn time_moment(s: Seq<char>) -> Option<int> {
    match rfc3339_moment(s) {
        Some(t) => Some(t),
        None => naive_moment(s, service_format()),
    }
}

/// A forecast timestamp that one of the two readings accepts.
pub open spec fn time_parses(s: Seq<char>) -> bool {
    time_moment(s) is Some
}

/// Whether a forecast timestamp can be read.
pub fn time_readable(s: &str) -> (b: bool)
    ensures
        b == time_parses(s@),
{
    if parse_rfc3339_local(s).is_some() {
        true
    } else {
        let fmt = "%Y-%m-%dT%H:%M";
        parse_naive_utc_local(s, fmt).is_some()
    }
}

/// Reads a forecast timestamp in the machine's local time, to the hour.
/// The text must be readable (the viewer stops on a timestamp it cannot
/// read); the stamp lies within a day of the moment the text names.
pub fn parse_time_to_local(s: &str) -> (st: LocalStamp)
    requires
        time_parses(s@),
    ensures
        stamp_in_range(st),
        near_moment(st, time_moment(s@)->0),
{
    match parse_rfc3339_local(s) {
        Some(st) => st,
        None => {
            let fmt = "%Y-%m-%dT%H:%M";
            match parse_naive_utc_local(s, fmt) {
                Some(st) => st,
                None => {
                    proof {
                        assert(false);
                    }
                    LocalStamp { year: 1970, month: 1, day: 1, hour: 0 }
                },
            }
        },
    }
}

/// Reads a forecast timestamp when it is readable; `None` otherwise.
pub fn try_parse_time_to_local(s: &str) -> (r: Option<LocalStamp>)
    ensures
        r is Some <==> time_parses(s@),
        r matches Some(st) ==> stamp_in_range(st) && near_moment(st, time_moment(s@)->0),
{
    if time_readable(s) {
        Some(parse_time_to_local(s))
    } else {
        None
    }
}

/// A day of the calendar as plain numbers.
#[derive(Clone, Copy, Debug, PartialEq, Eq, Structural)]
pub struct CalendarDate {
    pub year: i32,
    pub month: u32,
    pub day: u32,
}

/// The year, month and day that chrono's `NaiveDate::parse_from_str` reads
/// from the text in the format; `None` when it refuses the text.
pub uninterp spec fn parsed_date(s: Seq<char>, fmt: Seq<char>) -> Option<(int, int, int)>;

/// A year of the proleptic Gregorian calendar is a leap year.
pub open spec fn is_leap_year(y: int) -> bool {
    y % 4 == 0 && (y % 100 != 0 || y % 400 == 0)
}

/// The number of days in a month.
pub open spec fn days_in_month(y: int, m: int) -> int {
    if m == 2 {
        if is_leap_year(y) { 29 } else { 28 }
    } else if m == 4 || m == 6 || m == 9 || m == 11 {
        30
    } else {
        31
    }
}

/// A day of the calendar that chrono's `NaiveDate` can hold: years
/// -262143 to 262142.
pub open spec fn is_calendar_date(y: int, m: int, d: int) -> bool {
    &&& -262143 <= y <= 262142
    &&& 1 <= m <= 12
    &&& 1 <= d <= days_in_month(y, m)
}

/// chrono's `NaiveDate::parse_from_str`, the date read back as
/// `Datelike::{year, month, day}`. What is read depends on the text and
/// the format alone and is named; a `NaiveDate` is always a day of its
/// calendar.
#[verifier::external_body]
fn parse_date(s: &str, fmt: &str) -> (r: Option<CalendarDate>)
    ensures
        r is Some <==> parsed_date(s@, fmt@) is Some,
        r matches Some(d) ==> parsed_date(s@, fmt@) == Some((d.year as int, d.month as int, d.day as int))
            && is_calendar_date(d.year as int, d.month as int, d.day as int),
{
    chrono::NaiveDate::parse_from_str(s, fmt).ok().map(|d| CalendarDate { year: d.year(), month: d.month(), day: d.day() })
}

/// The day of the week, 0 for Sunday to 6 for Saturday (1970-01-01 was a
/// Thursday).
pub open spec fn weekday_of(y: int, m: int, d: int) -> int {
    (days_from_civil(y, m, d) + 4) % 7
}

/// English weekday names, as chrono's `%A` writes them.
pub open spec fn weekday_name(w: int) -> Seq<char> {
    if w == 0 { "Sunday"@ }
    else if w == 1 { "Monday"@ }
    else if w == 2 { "Tuesday"@ }
    else if w == 3 { "Wednesday"@ }
    else if w == 4 { "Thursday"@ }
    else if w == 5 { "Friday"@ }
    else { "Saturday"@ }
}

/// The first three letters of a weekday's name, as chrono's `%a` writes it.
pub open spec fn weekday_abbr(w: int) -> Seq<char> {
    weekday_name(w).take(3)
}

/// English month names, as chrono's `%B` writes them.
pub open spec fn month_name(m: int) -> Seq<char> {
    if m == 1 { "January"@ }
    else if m == 2 { "February"@ }
    else if m == 3 { "March"@ }
    else if m == 4 { "April"@ }
    else if m == 5 { "May"@ }
    else if m == 6 { "June"@ }
    else if m == 7 { "July"@ }
    else if m == 8 { "August"@ }
    else if m == 9 { "September"@ }
    else if m == 10 { "October"@ }
    else if m == 11 { "November"@ }
    else { "December"@ }
}

/// The first three letters of a month's name, as chrono's `%b` writes it.
pub open spec fn month_abbr(m: int) -> Seq<char> {
    month_name(m).take(3)
}

/// `n` (below 100) in two digits, as chrono's `%d` writes a day.
pub open spec fn two_digits(n: int) -> Seq<char> {
    seq![digit_char((n / 10) as nat), digit_char((n % 10) as nat)]
}

/// `n` (below 10000) in four digits, as chrono's `%Y` writes such a year.
pub open spec fn four_digits(n: int) -> Seq<char> {
    two_digits(n / 100) + two_digits(n % 100)
}

/// A year as chrono's `%Y` writes it: four digits for years 0 to 9999,
/// otherwise a sign before at least four digits (`+10000`, `-0044`).
pub open spec fn year_text(y: int) -> Seq<char> {
    if 0 <= y <= 9999 {
        four_digits(y)
    } else if y > 9999 {
        seq!['+'] + decimal(y as nat)
    } else if -y <= 9999 {
        seq!['-'] + four_digits(-y)
    } else {
        seq!['-'] + decimal((-y) as nat)
    }
}

/// Numbers below 100 written in two digits sort as text as they do as
/// numbers.
pub proof fn lemma_two_digits_order(n: int, m: int)
    requires
        0 <= n < m < 100,
    ensures
        lex_less(two_digits(n), two_digits(m)),
{
    let (nt, no, mt, mo) = (n / 10, n % 10, m / 10, m % 10);
    if nt < mt {
        lemma_digit_char_order(nt as nat, mt as nat);
        assert(two_digits(n) =~= Seq::<char>::empty() + seq![digit_char(nt as nat)] + seq![digit_char(no as nat)]);
        assert(two_digits(m) =~= Seq::<char>::empty() + seq![digit_char(mt as nat)] + seq![digit_char(mo as nat)]);
        lemma_lex_first_difference(Seq::<char>::empty(), digit_char(nt as nat), digit_char(mt as nat),
            seq![digit_char(no as nat)], seq![digit_char(mo as nat)]);
    } else {
        assert(nt == mt && no < mo);
        lemma_digit_char_order(no as nat, mo as nat);
        let p = seq![digit_char(nt as nat)];
        assert(two_digits(n) =~= p + seq![digit_char(no as nat)] + Seq::<char>::empty());
        assert(two_digits(m) =~= p + seq![digit_char(mo as nat)] + Seq::<char>::empty());
        lemma_lex_first_difference(p, digit_char(no as nat), digit_char(mo as nat),
            Seq::<char>::empty(), Seq::<char>::empty());
    }
}

/// Numbers below 10000 written in four digits sort as text as they do as
/// numbers.
pub proof fn lemma_four_digits_order(n: int, m: int)
    requires
        0 <= n < m < 10000,
    ensures
        lex_less(four_digits(n), four_digits(m)),
{
    if n / 100 < m / 100 {
        lemma_two_digits_order(n / 100, m / 100);
        lemma_lex_same_length(two_digits(n / 100), two_digits(m / 100), two_digits(n % 100), two_digits(m % 100));
    } else {
        assert(n / 100 == m / 100 && n % 100 < m % 100);
        lemma_two_digits_order(n % 100, m % 100);
        lemma_lex_common_start(two_digits(n / 100), two_digits(n % 100), two_digits(m % 100));
    }
}

/// The short date format: weekday, day and month (`Wed 01 May`).
pub open spec fn short_date_format() -> Seq<char> {
    "%a %d %b"@
}

/// The long date format: `Wednesday, 01 May 2024`.
pub open spec fn long_date_format() -> Seq<char> {
    "%A, %d %B %Y"@
}

/// A day written in the short format.
pub open spec fn short_label(y: int, m: int, d: int) -> Seq<char> {
    weekday_abbr(weekday_of(y, m, d)) + seq![' '] + two_digits(d) + seq![' '] + month_abbr(m)
}

/// A day written in the long format.
pub open spec fn long_label(y: int, m: int, d: int) -> Seq<char> {
    weekday_name(weekday_of(y, m, d)) + seq![',', ' '] + two_digits(d) + seq![' '] + month_name(m)
        + seq![' '] + year_text(y)
}

/// chrono's `NaiveDate::from_ymd_opt`, the date then written by
/// `NaiveDate::format` and `to_string`. The date exists exactly when it is
/// a day of chrono's calendar. Only the two formats of the viewer are
/// admitted (both hold only date fields, which chrono always writes); its
/// documented specifiers give the text: `%a`/`%A` the English weekday
/// abbreviated or in full, `%d` the day in two digits, `%b`/`%B` the
/// English month abbreviated or in full, `%Y` the year (see `year_text`).
#[verifier::external_body]
fn format_date(y: i32, m: u32, d: u32, fmt: &str) -> (r: Option<String>)
    requires
        fmt@ == short_date_format() || fmt@ == long_date_format(),
    ensures
        r is Some <==> is_calendar_date(y as int, m as int, d as int),
        r matches Some(t) ==> (fmt@ == short_date_format() ==> t@ == short_label(y as int, m as int, d as int)),
        r matches Some(t) ==> (fmt@ == long_date_format() ==> t@ == long_label(y as int, m as int, d as int)),
{
    chrono::NaiveDate::from_ymd_opt(y, m, d).map(|date| date.format(fmt).to_string())
}

/// The date format of the forecast service.
pub open spec fn service_date_format() -> Seq<char> {
    "%Y-%m-%d"@
}

/// A service date such as `2024-05-01` written as weekday, day and month
/// (`Wed 01 May`); `None` when the text is not such a date.
pub fn daily_date_label(s: &str) -> (r: Option<String>)
    ensures
        r is Some <==> parsed_date(s@, service_date_format()) is Some,
        r matches Some(l) ==> ({
            let (y, m, d) = parsed_date(s@, service_date_format())->0;
            l@ == short_label(y, m, d)
        }),
{
    let fmt = "%Y-%m-%d";
    match parse_date(s, fmt) {
        Some(date) => format_date(date.year, date.month, date.day, "%a %d %b"),
        None => None,
    }
}

/// The year, month and day of a day key.
pub open spec fn key_parts(key: i64) -> (int, int, int) {
    let k = key as int;
    let rest = k % 10000;
    (k / 10000, rest / 100, rest % 100)
}

/// Splits a day key into year, month and day.
pub fn split_day_key(key: i64) -> (r: (i64, i64, i64))
    ensures
        (r.0 as int, r.1 as int, r.2 as int) == key_parts(key),
{
    let q = key / 10000;
    let rem = key % 10000;
    assert(key == q * 10000 + rem);
    if rem < 0 {
        let rest = rem + 10000;
        assert(rest == key as int % 10000 && q - 1 == key as int / 10000) by (nonlinear_arith)
            requires
                key == q * 10000 + rem,
                -10000 < rem < 0,
                rest == rem + 10000,
        ;
        (q - 1, rest / 100, rest % 100)
    } else {
        assert(rem == key as int % 10000 && q == key as int / 10000) by (nonlinear_arith)
            requires
                key == q * 10000 + rem,
                0 <= rem < 10000,
        ;
        (q, rem / 100, rem % 100)
    }
}

/// A day key written as the forecast service writes days (`%Y-%m-%d`).
pub open spec fn key_text(key: i64) -> Seq<char> {
    let (y, m, d) = key_parts(key);
    year_text(y) + seq!['-'] + two_digits(m) + seq!['-'] + two_digits(d)
}

fn two_digit_chars(n: i64) -> (v: Vec<char>)
    requires
        0 <= n < 100,
    ensures
        v@ == two_digits(n as int),
{
    let mut v: Vec<char> = Vec::new();
    v.push(digit_of((n / 10) as usize));
    v.push(digit_of((n % 10) as usize));
    proof {
        assert(v@ =~= two_digits(n as int));
    }
    v
}

fn four_digit_chars(n: i64) -> (v: Vec<char>)
    requires
        0 <= n < 10000,
    ensures
        v@ == four_digits(n as int),
{
    let mut v = two_digit_chars(n / 100);
    let mut low = two_digit_chars(n % 100);
    v.append(&mut low);
    v
}

/// A year as chrono's `%Y` writes it.
pub fn year_chars(y: i64) -> (v: Vec<char>)
    ensures
        v@ == year_text(y as int),
{
    if 0 <= y && y <= 9999 {
        four_digit_chars(y)
    } else if y > 9999 {
        let mut v: Vec<char> = Vec::new();
        v.push('+');
        let mut digits = decimal_chars(y as u64);
        v.append(&mut digits);
        proof {
            assert(v@ =~= seq!['+'] + decimal(y as nat));
        }
        v
    } else {
        let mut v: Vec<char> = Vec::new();
        v.push('-');
        if y >= -9999 {
            let mut digits = four_digit_chars(-y);
            v.append(&mut digits);
            proof {
                assert(v@ =~= seq!['-'] + four_digits(-y));
            }
        } else {
            let n: u64 = if y == i64::MIN { 9223372036854775808u64 } else { (-y) as u64 };
            let mut digits = decimal_chars(n);
            v.append(&mut digits);
            proof {
                assert(v@ =~= seq!['-'] + decimal((-y) as nat));
            }
        }
        v
    }
}

/// A day key written as the forecast service writes days (`%Y-%m-%d`).
pub fn key_chars(key: i64) -> (v: Vec<char>)
    ensures
        v@ == key_text(key),
{
    let (y, m, d) = split_day_key(key);
    let mut v = year_chars(y);
    v.push('-');
    let mut month = two_digit_chars(m);
    v.append(&mut month);
    v.push('-');
    let mut day = two_digit_chars(d);
    v.append(&mut day);
    proof {
        assert(v@ =~= key_text(key));
    }
    v
}

/// The heading of a day (`Wednesday, 01 May 2024`) from its day key;
/// `None` when the key is not a day of chrono's calendar.
pub fn day_heading(key: i64) -> (r: Option<String>)
    ensures
        r is Some <==> is_calendar_date(key_parts(key).0, key_parts(key).1, key_parts(key).2),
        r matches Some(h) ==> h@ == long_label(key_parts(key).0, key_parts(key).1, key_parts(key).2),
{
    let (y, m, d) = split_day_key(key);
    if y < -262143 || y > 262142 || m < 1 || m > 12 || d < 1 || d > 31 {
        return None;
    }
    format_date(y as i32, m as u32, d as u32, "%A, %d %B %Y")
}

} // verus!
