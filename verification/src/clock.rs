//! Times of day and dates as the client shows them.
use crate::numbers::{dec, dec2};
use crate::text::cat2;
use chrono::{Datelike, TimeZone, Timelike};
use vstd::prelude::*;

verus! {

/// A moment on the clock of this machine.
#[derive(Debug, Clone, Copy, PartialEq, Eq, Structural)]
pub struct LocalTime {
    /// Unix milliseconds.
    pub ms: i64,
    pub year: i32,
    pub month: u32,
    pub day: u32,
    pub hour: u32,
    pub minute: u32,
}

// ----- the calendar -----

/// A year with 366 days.
pub open spec fn is_leap(y: int) -> bool {
    y % 4 == 0 && (y % 100 != 0 || y % 400 == 0)
}

/// The days of a month.
pub open spec fn month_days(y: int, m: int) -> int {
    if m == 2 {
        if is_leap(y) {
            29
        } else {
            28
        }
    } else if m == 4 || m == 6 || m == 9 || m == 11 {
        30
    } else {
        31
    }
}

/// The days of a year before a month.
pub open spec fn days_before(y: int, m: int) -> int
    decreases m,
{
    if m <= 1 {
        0
    } else {
        days_before(y, m - 1) + month_days(y, m - 1)
    }
}

/// The days from 1 January of the year 1 to a date.
pub open spec fn day_number(y: int, m: int, d: int) -> int {
    let p = y - 1;
    365 * p + p / 4 - p / 100 + p / 400 + days_before(y, m) + d - 1
}

/// The day of the week of a date, 0 for Monday.
pub open spec fn weekday(y: int, m: int, d: int) -> int {
    day_number(y, m, d) % 7
}

/// A date and time that exists.
pub open spec fn is_real(t: LocalTime) -> bool {
    0 <= t.year <= 262_142 && 1 <= t.month <= 12 && 1 <= t.day <= month_days(t.year as int, t.month as int) && t.hour
        < 24 && t.minute < 60
}

/// The minutes from the start of 1970 to a date and time, both on one clock.
pub open spec fn minute_number(t: LocalTime) -> int {
    (day_number(t.year as int, t.month as int, t.day as int) - 719_162) * 1440 + 60 * t.hour + t.minute
}

/// A date and time that a clock somewhere shows at the moment: it exists, and differs from that
/// of the moment in Greenwich by no more than a day.
pub open spec fn is_local(t: LocalTime) -> bool {
    is_real(t) && t.ms as int / 60_000 - 1440 <= minute_number(t) <= t.ms as int / 60_000 + 1440
}

/// The name of a day of the week.
pub open spec fn day_name(w: int) -> Seq<char> {
    if w == 0 {
        "Monday"@
    } else if w == 1 {
        "Tuesday"@
    } else if w == 2 {
        "Wednesday"@
    } else if w == 3 {
        "Thursday"@
    } else if w == 4 {
        "Friday"@
    } else if w == 5 {
        "Saturday"@
    } else {
        "Sunday"@
    }
}

/// The first three letters of the name of a month.
pub open spec fn month_name(m: int) -> Seq<char> {
    if m == 1 {
        "Jan"@
    } else if m == 2 {
        "Feb"@
    } else if m == 3 {
        "Mar"@
    } else if m == 4 {
        "Apr"@
    } else if m == 5 {
        "May"@
    } else if m == 6 {
        "Jun"@
    } else if m == 7 {
        "Jul"@
    } else if m == 8 {
        "Aug"@
    } else if m == 9 {
        "Sep"@
    } else if m == 10 {
        "Oct"@
    } else if m == 11 {
        "Nov"@
    } else {
        "Dec"@
    }
}

/// A year with at least four digits; one beyond 9999 has a plus sign.
pub open spec fn year_text(y: int) -> Seq<char> {
    if y >= 10_000 {
        "+"@ + dec(y as nat)
    } else {
        dec2((y / 100) as nat) + dec2((y % 100) as nat)
    }
}

/// A time of day, by the twelve-hour clock: `3:07 PM`.
pub open spec fn clock_text(t: LocalTime) -> Seq<char> {
    let h = t.hour as int % 12;
    dec(
        if h == 0 {
            12
        } else {
            h as nat
        },
    ) + ":"@ + dec2(t.minute as nat) + (if t.hour < 12 {
        " AM"@
    } else {
        " PM"@
    })
}

/// The name of the day of a moment.
pub open spec fn weekday_name(t: LocalTime) -> Seq<char> {
    day_name(weekday(t.year as int, t.month as int, t.day as int))
}

/// Month and day: `Mar 7`.
pub open spec fn month_day(t: LocalTime) -> Seq<char> {
    month_name(t.month as int) + " "@ + dec(t.day as nat)
}

/// Month, day and two digits of the year: `3/7/09`.
pub open spec fn date_text(t: LocalTime) -> Seq<char> {
    dec(t.month as nat) + "/"@ + dec(t.day as nat) + "/"@ + dec2((t.year as int % 100) as nat)
}

// ----- chrono -----

/// `format` of a `chrono::NaiveDateTime` with one of six patterns. The contract says what each
/// pattern gives.
#[verifier::external_body]
fn format_time(t: &LocalTime, pattern: &str) -> (r: String)
    requires
        is_real(*t),
        pattern@ == "%-I:%M %p"@ || pattern@ == "%a"@ || pattern@ == "%b %-d"@ || pattern@ == "%-m/%-d/%y"@ || pattern@
            == "%A %-I:%M %p"@ || pattern@ == "%b %-d, %Y %-I:%M %p"@,
    ensures
        pattern@ == "%-I:%M %p"@ ==> r@ == clock_text(*t),
        pattern@ == "%a"@ ==> r@ == weekday_name(*t).take(3),
        pattern@ == "%b %-d"@ ==> r@ == month_day(*t),
        pattern@ == "%-m/%-d/%y"@ ==> r@ == date_text(*t),
        pattern@ == "%A %-I:%M %p"@ ==> r@ == weekday_name(*t) + " "@ + clock_text(*t),
        pattern@ == "%b %-d, %Y %-I:%M %p"@ ==> r@ == month_day(*t) + ", "@ + year_text(t.year as int) + " "@
            + clock_text(*t),
{
    chrono::NaiveDate::from_ymd_opt(t.year, t.month, t.day)
        .and_then(|d| d.and_hms_opt(t.hour, t.minute, 0))
        .map(|d| d.format(pattern).to_string())
        .unwrap_or_default()
}

/// `timestamp_millis_opt` of `chrono::Local`, field by field. It gives one time for a moment
/// within the calendar, shifted by the offset of the machine's time zone, which is less than a
/// day. How large it is, and with it which fields the time has, is not stated.
#[verifier::external_body]
fn local_fields(ms: i64) -> (r: Option<LocalTime>)
    requires
        0 < ms <= 8_210_266_700_000_000,
    ensures
        r is Some,
        is_local(r->0),
        (r->0).ms == ms,
{
    chrono::Local.timestamp_millis_opt(ms).single().map(|d| LocalTime {
        ms,
        year: d.year(),
        month: d.month(),
        day: d.day(),
        hour: d.hour(),
        minute: d.minute(),
    })
}

/// `chrono::Local::now`, field by field: some moment, shifted by the offset of the machine's
/// time zone, which is less than a day.
#[verifier::external_body]
fn now_fields() -> (r: LocalTime)
    ensures
        is_local(r),
{
    let d: chrono::DateTime<chrono::Local> = chrono::Local::now();
    LocalTime {
        ms: d.timestamp_millis(),
        year: d.year(),
        month: d.month(),
        day: d.day(),
        hour: d.hour(),
        minute: d.minute(),
    }
}

/// `chrono::Utc::now`, in milliseconds. Nothing is known of the time.
#[verifier::external_body]
pub(crate) fn now_ms() -> (r: i64)
{
    chrono::Utc::now().timestamp_millis()
}

// ----- what is shown -----

/// The moments that the calendar can tell on every machine: the last two days before the end of
/// what `chrono` counts are left out, as the time zone may carry them over it.
pub open spec fn clock_ok(ms: int) -> bool {
    ms <= 8_210_266_700_000_000 || ms > 8_210_266_876_799_999
}

/// The moments that have a date: positive ones within the calendar.
pub open spec fn has_date(ms: int) -> bool {
    0 < ms <= 8_210_266_700_000_000
}

/// A moment on the clock of this machine; none for one that is not positive or beyond the
/// calendar.
pub fn local(ms: i64) -> (r: Option<LocalTime>)
    requires
        clock_ok(ms as int),
    ensures
        r is Some <==> has_date(ms as int),
        r matches Some(t) ==> is_local(t) && t.ms == ms,
{
    if ms <= 0 || ms > 8_210_266_700_000_000 {
        return None;
    }
    local_fields(ms)
}

/// Two moments fall on one day.
pub open spec fn same_day(a: LocalTime, b: LocalTime) -> bool {
    a.year == b.year && a.month == b.month && a.day == b.day
}

/// Less than seven days lie between a moment and now.
pub open spec fn within_week(t: LocalTime, now: LocalTime) -> bool {
    now.ms - t.ms < 7 * 86_400_000
}

/// A moment in short: the time today, the day of the week within a week, the day within the
/// year, else the date.
pub open spec fn short_form(t: LocalTime, now: LocalTime) -> Seq<char> {
    if same_day(t, now) {
        clock_text(t)
    } else if within_week(t, now) {
        weekday_name(t).take(3)
    } else if t.year == now.year {
        month_day(t)
    } else {
        date_text(t)
    }
}

/// A moment in full: the time today, with the day of the week within a week, else with the date.
pub open spec fn full_form(t: LocalTime, now: LocalTime) -> Seq<char> {
    if same_day(t, now) {
        "Today "@ + clock_text(t)
    } else if within_week(t, now) {
        weekday_name(t) + " "@ + clock_text(t)
    } else {
        month_day(t) + ", "@ + year_text(t.year as int) + " "@ + clock_text(t)
    }
}

/// A moment in short, as seen from another.
pub fn short_from(t: &LocalTime, now: &LocalTime) -> (r: String)
    requires
        is_real(*t),
    ensures
        r@ == short_form(*t, *now),
{
    if t.year == now.year && t.month == now.month && t.day == now.day {
        format_time(t, "%-I:%M %p")
    } else if (now.ms as i128) - (t.ms as i128) < 604_800_000 {
        format_time(t, "%a")
    } else if t.year == now.year {
        format_time(t, "%b %-d")
    } else {
        format_time(t, "%-m/%-d/%y")
    }
}

/// A moment in full, as seen from another.
pub fn full_from(t: &LocalTime, now: &LocalTime) -> (r: String)
    requires
        is_real(*t),
    ensures
        r@ == full_form(*t, *now),
{
    if t.year == now.year && t.month == now.month && t.day == now.day {
        cat2("Today ", format_time(t, "%-I:%M %p").as_str())
    } else if (now.ms as i128) - (t.ms as i128) < 604_800_000 {
        format_time(t, "%A %-I:%M %p")
    } else {
        format_time(t, "%b %-d, %Y %-I:%M %p")
    }
}

/// The time of day of a moment.
pub fn clock_from(t: &LocalTime) -> (r: String)
    requires
        is_real(*t),
    ensures
        r@ == clock_text(*t),
{
    format_time(t, "%-I:%M %p")
}

/// A moment in short, as seen from now; empty for one that the calendar does not have.
pub fn short_time(ms: i64) -> (r: String)
    requires
        clock_ok(ms as int),
    ensures
        !has_date(ms as int) ==> r@.len() == 0,
        has_date(ms as int) ==> exists|t: LocalTime, now: LocalTime|
            is_local(t) && t.ms == ms && is_local(now) && r@ == #[trigger] short_form(t, now),
{
    match local(ms) {
        Some(t) => short_from(&t, &now_fields()),
        None => String::new(),
    }
}

/// A moment in full, as seen from now; empty for one that the calendar does not have.
pub fn full_time(ms: i64) -> (r: String)
    requires
        clock_ok(ms as int),
    ensures
        !has_date(ms as int) ==> r@.len() == 0,
        has_date(ms as int) ==> exists|t: LocalTime, now: LocalTime|
            is_local(t) && t.ms == ms && is_local(now) && r@ == #[trigger] full_form(t, now),
{
    match local(ms) {
        Some(t) => full_from(&t, &now_fields()),
        None => String::new(),
    }
}

/// The time of day of a moment; empty for one that the calendar does not have.
pub fn short_clock(ms: i64) -> (r: String)
    requires
        clock_ok(ms as int),
    ensures
        !has_date(ms as int) ==> r@.len() == 0,
        has_date(ms as int) ==> exists|t: LocalTime| is_local(t) && t.ms == ms && r@ == #[trigger] clock_text(t),
{
    match local(ms) {
        Some(t) => clock_from(&t),
        None => String::new(),
    }
}

} // verus!
